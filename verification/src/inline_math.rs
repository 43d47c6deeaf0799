//! Tidying the inline mathematics that Docling's text extraction spreads out
//! with spaces: `a n` becomes `aₙ`, `( x )` becomes `(x)`, `| a |` becomes
//! `|a|`, `N` becomes `ℕ`. The patterns are matched by the `regex` crate;
//! what each match is rewritten to is decided here.
use vstd::prelude::*;

use crate::storage::str_eq;
use crate::text::{self, chars_of, is_whitespace, push_char, push_str, string_from, trim_bounds, trim_str};

verus! {

/// The pieces a regular expression cuts `text` into: for each match, in
/// order, the text since the previous match, the match and its first group;
/// then the text after the last match. `None` when the pattern does not
/// compile.
pub uninterp spec fn regex_split(pattern: Seq<char>, text: Seq<char>) -> Option<
    (Seq<(Seq<char>, Seq<char>, Option<Seq<char>>)>, Seq<char>),
>;

pub type Piece = (String, String, Option<String>);

pub open spec fn piece_view(p: Piece) -> (Seq<char>, Seq<char>, Option<Seq<char>>) {
    (p.0@, p.1@, text::opt_view(p.2))
}

pub open spec fn pieces_view(ps: Seq<Piece>) -> Seq<(Seq<char>, Seq<char>, Option<Seq<char>>)> {
    ps.map_values(|p: Piece| piece_view(p))
}

pub open spec fn split_view(r: Option<(Vec<Piece>, String)>) -> Option<
    (Seq<(Seq<char>, Seq<char>, Option<Seq<char>>)>, Seq<char>),
> {
    match r {
        Some((ps, tail)) => Some((pieces_view(ps@), tail@)),
        None => None,
    }
}

/// The text the pieces cover: each gap followed by its match.
pub open spec fn flat(ps: Seq<(Seq<char>, Seq<char>, Option<Seq<char>>)>) -> Seq<char>
    decreases ps.len(),
{
    if ps.len() == 0 {
        Seq::empty()
    } else {
        flat(ps.drop_last()) + ps.last().0 + ps.last().1
    }
}

/// `Regex::new(pattern)` and its `captures_iter` over `text`, cut into
/// pieces. The contract names the result and states that the gaps, the
/// matches and the tail put back together give `text` again; which text a
/// pattern matches is left to the name.
#[verifier::external_body]
fn split_by_regex(pattern: &str, text: &str) -> (r: Option<(Vec<Piece>, String)>)
    ensures
        split_view(r) == regex_split(pattern@, text@),
        r matches Some((ps, tail)) ==> flat(pieces_view(ps@)) + tail@ == text@,
{
    let re = regex::Regex::new(pattern).ok()?;
    let mut pieces = Vec::new();
    let mut last: usize = 0;
    for c in re.captures_iter(text) {
        let m = c.get_match();
        pieces.push((text[last..m.start()].to_string(), m.as_str().to_string(), c.get(1).map(|g| g.as_str().to_string())));
        last = m.end();
    }
    Some((pieces, text[last..].to_string()))
}

proof fn lemma_flat_take(ps: Seq<(Seq<char>, Seq<char>, Option<Seq<char>>)>, k: int)
    requires
        0 <= k <= ps.len(),
    ensures
        flat(ps.take(k)).len() <= flat(ps).len(),
    decreases ps.len(),
{
    if k < ps.len() {
        assert(ps.drop_last().take(k) =~= ps.take(k));
        lemma_flat_take(ps.drop_last(), k);
    } else {
        assert(ps.take(k) =~= ps);
    }
}

// ---------------------------------------------------------------------------
// Indexed symbols: `a n` → `aₙ`
// ---------------------------------------------------------------------------
/// A letter followed by indices: numbers or single index letters, and maybe
/// a `- number` at the end.
pub open spec fn indexed_pattern() -> Seq<char> {
    r"\b[A-Za-z](?:\s+(?:[0-9]+|[aehijklmnoprstuvx])\b)+(?:\s*-\s*[0-9]+)?"@
}

pub open spec fn is_ivx(c: char) -> bool {
    c == 'i' || c == 'v' || c == 'x'
}

/// The subscript form of a character, where Unicode has one that is used.
pub open spec fn subscript_of(c: char) -> Option<char> {
    if c == '0' {
        Some('₀')
    } else if c == '1' {
        Some('₁')
    } else if c == '2' {
        Some('₂')
    } else if c == '3' {
        Some('₃')
    } else if c == '4' {
        Some('₄')
    } else if c == '5' {
        Some('₅')
    } else if c == '6' {
        Some('₆')
    } else if c == '7' {
        Some('₇')
    } else if c == '8' {
        Some('₈')
    } else if c == '9' {
        Some('₉')
    } else if c == 'a' {
        Some('ₐ')
    } else if c == 'e' {
        Some('ₑ')
    } else if c == 'h' {
        Some('ₕ')
    } else if c == 'i' {
        Some('ᵢ')
    } else if c == 'j' {
        Some('ⱼ')
    } else if c == 'k' {
        Some('ₖ')
    } else if c == 'l' {
        Some('ₗ')
    } else if c == 'm' {
        Some('ₘ')
    } else if c == 'n' {
        Some('ₙ')
    } else if c == 'o' {
        Some('ₒ')
    } else if c == 'p' {
        Some('ₚ')
    } else if c == 'r' {
        Some('ᵣ')
    } else if c == 's' {
        Some('ₛ')
    } else if c == 't' {
        Some('ₜ')
    } else if c == 'u' {
        Some('ᵤ')
    } else if c == 'v' {
        Some('ᵥ')
    } else if c == 'x' {
        Some('ₓ')
    } else if c == '-' {
        Some('₋')
    } else {
        None
    }
}

/// `s` in subscripts, when every character has one.
pub open spec fn subscripts(s: Seq<char>) -> Option<Seq<char>>
    decreases s.len(),
{
    if s.len() == 0 {
        Some(Seq::empty())
    } else {
        match (subscripts(s.drop_last()), subscript_of(s.last())) {
            (Some(a), Some(c)) => Some(a.push(c)),
            _ => None,
        }
    }
}

/// Index of the first `-` in `s`, or its length.
pub open spec fn dash_at(s: Seq<char>) -> nat
    decreases s.len(),
{
    if s.len() == 0 || s[0] == '-' {
        0
    } else {
        1 + dash_at(s.drop_first())
    }
}

/// Digits before a dash, as in `1-1`: a difference, not an index.
pub open spec fn ambiguous_difference(s: Seq<char>) -> bool {
    dash_at(s) < s.len() && forall|j: int| 0 <= j < dash_at(s) ==> text::is_digit(#[trigger] s[j])
}

/// `s` without its whitespace.
pub open spec fn without_ws(s: Seq<char>) -> Seq<char>
    decreases s.len(),
{
    if s.len() == 0 {
        s
    } else if text::is_ws(s.last()) {
        without_ws(s.drop_last())
    } else {
        without_ws(s.drop_last()).push(s.last())
    }
}

/// `text[..start]` ends with `(` and `text[end..]` starts with `)`, past
/// whitespace.
pub open spec fn surrounded(text: Seq<char>, start: int, end: int) -> bool {
    let before = text::trim(text.take(start));
    let after = text::trim(text.skip(end));
    before.len() > 0 && before.last() == '(' && after.len() > 0 && after[0] == ')'
}

/// What the match `m`, found at `start` in `text`, becomes: the base letter
/// and its indices in subscripts; unchanged when it is a Roman numeral in
/// parentheses such as `( i v )`, a difference such as `x 2 -1`, or has an
/// index with no subscript form.
pub open spec fn indexed_symbol(text: Seq<char>, start: int, m: Seq<char>) -> Seq<char> {
    let compact = without_ws(m);
    if compact.len() == 0 {
        m
    } else {
        let base = compact[0];
        let suffix = compact.drop_first();
        let roman = is_ivx(base) && (forall|j: int| 0 <= j < suffix.len() ==> is_ivx(#[trigger] suffix[j]))
            && surrounded(text, start, start + m.len());
        if roman || ambiguous_difference(suffix) {
            m
        } else {
            match subscripts(suffix) {
                Some(s) => seq![base] + s,
                None => m,
            }
        }
    }
}

/// The first `k` pieces, each match rewritten.
pub open spec fn indexed_prefix(text: Seq<char>, ps: Seq<(Seq<char>, Seq<char>, Option<Seq<char>>)>, k: int) -> Seq<char>
    decreases k,
{
    if k <= 0 {
        Seq::empty()
    } else {
        let p = ps[k - 1];
        let start = (flat(ps.take(k - 1)).len() + p.0.len()) as int;
        indexed_prefix(text, ps, k - 1) + p.0 + indexed_symbol(text, start, p.1)
    }
}

pub open spec fn indexed_symbols(text: Seq<char>) -> Seq<char> {
    match regex_split(indexed_pattern(), text) {
        Some((ps, tail)) => indexed_prefix(text, ps, ps.len() as int) + tail,
        None => text,
    }
}

fn subscript_char(c: char) -> (r: Option<char>)
    ensures
        r == subscript_of(c),
{
    if c == '0' {
        Some('₀')
    } else if c == '1' {
        Some('₁')
    } else if c == '2' {
        Some('₂')
    } else if c == '3' {
        Some('₃')
    } else if c == '4' {
        Some('₄')
    } else if c == '5' {
        Some('₅')
    } else if c == '6' {
        Some('₆')
    } else if c == '7' {
        Some('₇')
    } else if c == '8' {
        Some('₈')
    } else if c == '9' {
        Some('₉')
    } else if c == 'a' {
        Some('ₐ')
    } else if c == 'e' {
        Some('ₑ')
    } else if c == 'h' {
        Some('ₕ')
    } else if c == 'i' {
        Some('ᵢ')
    } else if c == 'j' {
        Some('ⱼ')
    } else if c == 'k' {
        Some('ₖ')
    } else if c == 'l' {
        Some('ₗ')
    } else if c == 'm' {
        Some('ₘ')
    } else if c == 'n' {
        Some('ₙ')
    } else if c == 'o' {
        Some('ₒ')
    } else if c == 'p' {
        Some('ₚ')
    } else if c == 'r' {
        Some('ᵣ')
    } else if c == 's' {
        Some('ₛ')
    } else if c == 't' {
        Some('ₜ')
    } else if c == 'u' {
        Some('ᵤ')
    } else if c == 'v' {
        Some('ᵥ')
    } else if c == 'x' {
        Some('ₓ')
    } else if c == '-' {
        Some('₋')
    } else {
        None
    }
}

proof fn lemma_subscripts_some(s: Seq<char>)
    ensures
        subscripts(s) is Some ==> forall|j: int| 0 <= j < s.len() ==> (#[trigger] subscript_of(s[j])) is Some,
    decreases s.len(),
{
    if s.len() > 0 {
        lemma_subscripts_some(s.drop_last());
        if subscripts(s) is Some {
            assert forall|j: int| 0 <= j < s.len() implies (#[trigger] subscript_of(s[j])) is Some by {
                if j < s.len() - 1 {
                    assert(s.drop_last()[j] == s[j]);
                }
            }
        }
    }
}

fn subscripts_of(s: &Vec<char>) -> (r: Option<Vec<char>>)
    ensures
        match r {
            Some(t) => subscripts(s@) == Some(t@),
            None => subscripts(s@) is None,
        },
{
    let mut acc: Vec<char> = Vec::new();
    let mut i: usize = 0;
    while i < s.len()
        invariant
            i <= s@.len(),
            subscripts(s@.take(i as int)) == Some(acc@),
        decreases s@.len() - i,
    {
        proof {
            assert(s@.take(i + 1).drop_last() =~= s@.take(i as int));
        }
        match subscript_char(s[i]) {
            Some(c) => acc.push(c),
            None => {
                proof {
                    lemma_subscripts_some(s@);
                }
                return None;
            },
        }
        i += 1;
    }
    assert(s@.take(s@.len() as int) =~= s@);
    Some(acc)
}

proof fn lemma_dash_at(s: Seq<char>, j: int)
    requires
        0 <= j <= s.len(),
        forall|k: int| 0 <= k < j ==> s[k] != '-',
    ensures
        dash_at(s) == j + dash_at(s.skip(j)),
    decreases j,
{
    if j == 0 {
        assert(s.skip(0) =~= s);
    } else {
        assert(s.drop_first().skip(j - 1) =~= s.skip(j));
        lemma_dash_at(s.drop_first(), j - 1);
    }
}

fn is_ambiguous_difference(s: &Vec<char>) -> (b: bool)
    ensures
        b == ambiguous_difference(s@),
{
    let mut d: usize = 0;
    while d < s.len() && s[d] != '-'
        invariant
            d <= s@.len(),
            forall|k: int| 0 <= k < d ==> s@[k] != '-',
        decreases s@.len() - d,
    {
        d += 1;
    }
    proof {
        lemma_dash_at(s@, d as int);
        if d < s@.len() {
            assert(s@.skip(d as int)[0] == '-');
        } else {
            assert(s@.skip(d as int).len() == 0);
        }
    }
    if d == s.len() {
        return false;
    }
    let mut j: usize = 0;
    while j < d
        invariant
            j <= d,
            d == dash_at(s@),
            d < s@.len(),
            forall|k: int| 0 <= k < j ==> text::is_digit(#[trigger] s@[k]),
        decreases d - j,
    {
        if !text::is_ascii_digit(s[j]) {
            return false;
        }
        j += 1;
    }
    true
}

fn compact_chars(m: &str) -> (r: Vec<char>)
    ensures
        r@ == without_ws(m@),
{
    let v = chars_of(m);
    let mut r: Vec<char> = Vec::new();
    let mut i: usize = 0;
    while i < v.len()
        invariant
            i <= v@.len(),
            v@ == m@,
            r@ == without_ws(v@.take(i as int)),
        decreases v@.len() - i,
    {
        proof {
            assert(v@.take(i + 1).drop_last() =~= v@.take(i as int));
        }
        if !is_whitespace(v[i]) {
            r.push(v[i]);
        }
        i += 1;
    }
    assert(v@.take(v@.len() as int) =~= v@);
    r
}

fn surrounded_at(v: &Vec<char>, start: usize, end: usize) -> (b: bool)
    requires
        start <= end <= v@.len(),
    ensures
        b == surrounded(v@, start as int, end as int),
{
    let (a, b1) = trim_bounds(v.as_slice(), 0, start);
    let (c, d) = trim_bounds(v.as_slice(), end, v.len());
    assert(v@.subrange(0, start as int) =~= v@.take(start as int));
    assert(v@.subrange(end as int, v@.len() as int) =~= v@.skip(end as int));
    b1 > a && v[b1 - 1] == '(' && d > c && v[c] == ')'
}

fn indexed_symbol_at(v: &Vec<char>, start: usize, m: &str) -> (r: String)
    requires
        start + m@.len() <= v@.len(),
    ensures
        r@ == indexed_symbol(v@, start as int, m@),
{
    let mc = chars_of(m);
    let compact = compact_chars(m);
    if compact.len() == 0 {
        return string_from(&mc);
    }
    let base = compact[0];
    let mut suffix = compact.clone();
    suffix.remove(0);
    assert(suffix@ =~= compact@.drop_first());
    let mut all_ivx = base == 'i' || base == 'v' || base == 'x';
    let mut i: usize = 0;
    while i < suffix.len()
        invariant
            i <= suffix@.len(),
            all_ivx == (is_ivx(base) && forall|j: int| 0 <= j < i ==> is_ivx(#[trigger] suffix@[j])),
        decreases suffix@.len() - i,
    {
        let c = suffix[i];
        all_ivx = all_ivx && (c == 'i' || c == 'v' || c == 'x');
        i += 1;
    }
    assert(mc@.len() == m@.len());
    assert(v@.len() == v.len());
    let roman = all_ivx && surrounded_at(v, start, start + mc.len());
    if roman || is_ambiguous_difference(&suffix) {
        return string_from(&mc);
    }
    match subscripts_of(&suffix) {
        Some(sub) => {
            let mut out: Vec<char> = Vec::new();
            out.push(base);
            let mut j: usize = 0;
            while j < sub.len()
                invariant
                    j <= sub@.len(),
                    out@ == seq![base] + sub@.take(j as int),
                decreases sub@.len() - j,
            {
                out.push(sub[j]);
                j += 1;
                assert(out@ =~= seq![base] + sub@.take(j as int));
            }
            assert(sub@.take(sub@.len() as int) =~= sub@);
            string_from(&out)
        },
        None => string_from(&mc),
    }
}

fn char_len(s: &str) -> (n: usize)
    ensures
        n == s@.len(),
{
    let v = chars_of(s);
    v.len()
}

/// Writes indexed symbols with subscripts: `a n` as `aₙ`, `I k -1` as `Iₖ₋₁`.
pub fn normalize_indexed_symbols(text: &str) -> (r: String)
    ensures
        r@ == indexed_symbols(text@),
{
    let v = chars_of(text);
    let pattern = r"\b[A-Za-z](?:\s+(?:[0-9]+|[aehijklmnoprstuvx])\b)+(?:\s*-\s*[0-9]+)?";
    match split_by_regex(pattern, text) {
        None => string_from(&v),
        Some((ps, tail)) => {
            let ghost pv = pieces_view(ps@);
            let mut out = String::new();
            let mut pos: usize = 0;
            let mut k: usize = 0;
            while k < ps.len()
                invariant
                    k <= ps@.len(),
                    pv == pieces_view(ps@),
                    v@ == text@,
                    flat(pv) + tail@ == text@,
                    pos == flat(pv.take(k as int)).len(),
                    out@ == indexed_prefix(text@, pv, k as int),
                decreases ps@.len() - k,
            {
                proof {
                    lemma_flat_take(pv, k + 1);
                    assert(pv.take(k + 1).drop_last() =~= pv.take(k as int));
                    assert(pv[k as int] == piece_view(ps@[k as int]));
                    let t = pv.take(k + 1);
                    assert(flat(t) == flat(pv.take(k as int)) + pv[k as int].0 + pv[k as int].1);
                    assert(flat(pv).len() + tail@.len() == text@.len());
                    assert(v@.len() == text@.len());
                }
                assert(v@.len() == v.len());
                let gap = &ps[k].0;
                let m = &ps[k].1;
                let start = pos + char_len(gap.as_str());
                push_str(&mut out, gap.as_str());
                let sym = indexed_symbol_at(&v, start, m.as_str());
                push_str(&mut out, sym.as_str());
                pos = start + char_len(m.as_str());
                k += 1;
            }
            assert(pv.take(ps@.len() as int) =~= pv);
            push_str(&mut out, tail.as_str());
            out
        },
    }
}

// ---------------------------------------------------------------------------
// Spacing and symbols
// ---------------------------------------------------------------------------
/// How a match is rewritten.
#[derive(Debug, Clone, Copy, PartialEq, Eq, Structural)]
pub enum Rewrite {
    /// `|` and the group trimmed and `|`.
    Bars,
    /// The group alone.
    Group,
    /// `, ` and the group.
    CommaSpace,
    /// The number-set symbol of the group's letter.
    NumberSet,
}

pub open spec fn group_of(g: Option<Seq<char>>) -> Seq<char> {
    match g {
        Some(x) => x,
        None => Seq::empty(),
    }
}

/// `ℕ`, `ℚ`, `ℝ` or `ℤ` for the letters `N`, `Q`, `R` and `Z`.
pub open spec fn number_set(g: Seq<char>, m: Seq<char>) -> Seq<char> {
    if g == seq!['N'] {
        seq!['ℕ']
    } else if g == seq!['Q'] {
        seq!['ℚ']
    } else if g == seq!['R'] {
        seq!['ℝ']
    } else if g == seq!['Z'] {
        seq!['ℤ']
    } else {
        m
    }
}

pub open spec fn rewrite(kind: Rewrite, m: Seq<char>, g: Option<Seq<char>>) -> Seq<char> {
    match kind {
        Rewrite::Bars => seq!['|'] + text::trim(group_of(g)) + seq!['|'],
        Rewrite::Group => group_of(g),
        Rewrite::CommaSpace => seq![',', ' '] + group_of(g),
        Rewrite::NumberSet => number_set(group_of(g), m),
    }
}

pub open spec fn rewritten(ps: Seq<(Seq<char>, Seq<char>, Option<Seq<char>>)>, kind: Rewrite) -> Seq<char>
    decreases ps.len(),
{
    if ps.len() == 0 {
        Seq::empty()
    } else {
        rewritten(ps.drop_last(), kind) + ps.last().0 + rewrite(kind, ps.last().1, ps.last().2)
    }
}

/// `text` with every match of `pattern` rewritten.
pub open spec fn rewrite_all(pattern: Seq<char>, text: Seq<char>, kind: Rewrite) -> Seq<char> {
    match regex_split(pattern, text) {
        Some((ps, tail)) => rewritten(ps, kind) + tail,
        None => text,
    }
}

/// Bars around an expression: `| a n |`.
pub open spec fn bars_pattern() -> Seq<char> {
    r"\|\s*([^|\n]+?)\s*\|"@
}

/// An opening bracket and the spaces after it.
pub open spec fn open_pattern() -> Seq<char> {
    r"([\(\[\{])\s+"@
}

/// Spaces and the closing bracket after them.
pub open spec fn close_pattern() -> Seq<char> {
    r"\s+([\)\]\}])"@
}

/// Spaces before punctuation.
pub open spec fn punctuation_pattern() -> Seq<char> {
    r"\s+([,.;:])"@
}

/// A comma and what follows it in a list such as `[ -M,M ]`.
pub open spec fn comma_pattern() -> Seq<char> {
    r",\s*([[:alpha:]\-+])"@
}

/// A lone `N`, `Q`, `R` or `Z`.
pub open spec fn number_set_pattern() -> Seq<char> {
    r"\b([NQRZ])\b"@
}

/// The whole tidying: indexed symbols first, then bars, brackets,
/// punctuation, commas and number sets.
pub open spec fn inline_math(text: Seq<char>) -> Seq<char> {
    let t = indexed_symbols(text);
    let t = rewrite_all(bars_pattern(), t, Rewrite::Bars);
    let t = rewrite_all(open_pattern(), t, Rewrite::Group);
    let t = rewrite_all(close_pattern(), t, Rewrite::Group);
    let t = rewrite_all(punctuation_pattern(), t, Rewrite::Group);
    let t = rewrite_all(comma_pattern(), t, Rewrite::CommaSpace);
    rewrite_all(number_set_pattern(), t, Rewrite::NumberSet)
}

fn rewrite_match(kind: Rewrite, m: &String, g: &Option<String>) -> (r: String)
    ensures
        r@ == rewrite(kind, m@, text::opt_view(*g)),
{
    let group = match g {
        Some(x) => x.clone(),
        None => String::new(),
    };
    match kind {
        Rewrite::Bars => {
            let mut r = String::new();
            push_char(&mut r, '|');
            push_str(&mut r, trim_str(group.as_str()).as_str());
            push_char(&mut r, '|');
            r
        },
        Rewrite::Group => group,
        Rewrite::CommaSpace => {
            let mut r = String::new();
            push_char(&mut r, ',');
            push_char(&mut r, ' ');
            push_str(&mut r, group.as_str());
            r
        },
        Rewrite::NumberSet => {
            proof {
                reveal_strlit("N");
                reveal_strlit("Q");
                reveal_strlit("R");
                reveal_strlit("Z");
                assert("N"@ =~= seq!['N']);
                assert("Q"@ =~= seq!['Q']);
                assert("R"@ =~= seq!['R']);
                assert("Z"@ =~= seq!['Z']);
            }
            let mut r = String::new();
            if str_eq(group.as_str(), "N") {
                push_char(&mut r, 'ℕ');
            } else if str_eq(group.as_str(), "Q") {
                push_char(&mut r, 'ℚ');
            } else if str_eq(group.as_str(), "R") {
                push_char(&mut r, 'ℝ');
            } else if str_eq(group.as_str(), "Z") {
                push_char(&mut r, 'ℤ');
            } else {
                return m.clone();
            }
            r
        },
    }
}

fn rewrite_matches(pattern: &str, text: String, kind: Rewrite) -> (r: String)
    ensures
        r@ == rewrite_all(pattern@, text@, kind),
{
    match split_by_regex(pattern, text.as_str()) {
        None => text,
        Some((ps, tail)) => {
            let ghost pv = pieces_view(ps@);
            let mut out = String::new();
            let mut k: usize = 0;
            while k < ps.len()
                invariant
                    k <= ps@.len(),
                    pv == pieces_view(ps@),
                    out@ == rewritten(pv.take(k as int), kind),
                decreases ps@.len() - k,
            {
                proof {
                    assert(pv.take(k + 1).drop_last() =~= pv.take(k as int));
                    assert(pv[k as int] == piece_view(ps@[k as int]));
                }
                push_str(&mut out, ps[k].0.as_str());
                let w = rewrite_match(kind, &ps[k].1, &ps[k].2);
                push_str(&mut out, w.as_str());
                k += 1;
            }
            assert(pv.take(ps@.len() as int) =~= pv);
            push_str(&mut out, tail.as_str());
            out
        },
    }
}

/// Tidies the inline mathematics of a Docling text block.
pub fn normalize_inline_math(text: &str) -> (r: String)
    ensures
        r@ == inline_math(text@),
{
    let t = normalize_indexed_symbols(text);
    let t = rewrite_matches(r"\|\s*([^|\n]+?)\s*\|", t, Rewrite::Bars);
    let t = rewrite_matches(r"([\(\[\{])\s+", t, Rewrite::Group);
    let t = rewrite_matches(r"\s+([\)\]\}])", t, Rewrite::Group);
    let t = rewrite_matches(r"\s+([,.;:])", t, Rewrite::Group);
    let t = rewrite_matches(r",\s*([[:alpha:]\-+])", t, Rewrite::CommaSpace);
    rewrite_matches(r"\b([NQRZ])\b", t, Rewrite::NumberSet)
}

} // verus!
