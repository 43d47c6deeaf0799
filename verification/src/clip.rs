//! Fitting text into a fixed width: cutting a string at the last character
//! boundary within a byte budget, and wrapping words into lines.
use vstd::prelude::*;
use vstd::utf8::*;

use crate::text::{chars_of, push_char, push_str, split_words, string_from_range, views, words};

verus! {

// ---------------------------------------------------------------------------
// UTF-8 lengths
// ---------------------------------------------------------------------------
/// Bytes in the UTF-8 encoding of `c`.
pub open spec fn char_width(c: char) -> nat {
    let u = c as u32;
    if u < 0x80 {
        1
    } else if u < 0x800 {
        2
    } else if u < 0x10000 {
        3
    } else {
        4
    }
}

/// Bytes in the UTF-8 encoding of `s`: what `str::len` returns.
pub open spec fn utf8_len(s: Seq<char>) -> nat {
    encode_utf8(s).len()
}

proof fn lemma_encode_concat(a: Seq<char>, b: Seq<char>)
    ensures
        encode_utf8(a + b) == encode_utf8(a) + encode_utf8(b),
    decreases a.len(),
{
    if a.len() == 0 {
        assert(a + b =~= b);
        assert(encode_utf8(a) =~= Seq::<u8>::empty());
        assert(encode_utf8(a) + encode_utf8(b) =~= encode_utf8(b));
    } else {
        assert((a + b).drop_first() =~= a.drop_first() + b);
        assert((a + b)[0] == a[0]);
        lemma_encode_concat(a.drop_first(), b);
        assert(encode_utf8(a + b) =~= encode_utf8(a) + encode_utf8(b));
    }
}

proof fn lemma_scalar_width(c: char)
    ensures
        encode_scalar(c as u32).len() == char_width(c),
{
    char_is_scalar(c);
}

/// Appending a character adds its width to the encoded length.
pub proof fn lemma_utf8_len_push(s: Seq<char>, c: char)
    ensures
        utf8_len(s.push(c)) == utf8_len(s) + char_width(c),
{
    let one = seq![c];
    lemma_encode_concat(s, one);
    assert(s.push(c) =~= s + one);
    assert(one.drop_first() =~= Seq::<char>::empty());
    assert(encode_utf8(one.drop_first()) =~= Seq::<u8>::empty());
    assert(encode_utf8(one) == encode_scalar(one[0] as u32) + encode_utf8(one.drop_first()));
    lemma_scalar_width(c);
}

/// Longer prefixes take strictly more bytes, and every character at least one.
pub proof fn lemma_utf8_len_prefix(s: Seq<char>, i: int, j: int)
    requires
        0 <= i <= j <= s.len(),
    ensures
        utf8_len(s.take(i)) + (j - i) <= utf8_len(s.take(j)),
    decreases j - i,
{
    if i < j {
        lemma_utf8_len_prefix(s, i, j - 1);
        assert(s.take(j) =~= s.take(j - 1).push(s[j - 1]));
        lemma_utf8_len_push(s.take(j - 1), s[j - 1]);
    }
}

/// The number of leading characters of `s`, at most `k`, whose encoding fits
/// in `max` bytes.
pub open spec fn fit_upto(s: Seq<char>, max: nat, k: nat) -> nat
    decreases k,
{
    if k == 0 {
        0
    } else if utf8_len(s.take(k as int)) <= max {
        k
    } else {
        fit_upto(s, max, (k - 1) as nat)
    }
}

/// The number of leading characters of `s` whose encoding fits in `max`
/// bytes: where `str::floor_char_boundary(max)` cuts.
pub open spec fn fitting_chars(s: Seq<char>, max: nat) -> nat {
    fit_upto(s, max, s.len())
}

pub proof fn lemma_fit_upto_le(s: Seq<char>, max: nat, k: nat)
    ensures
        fit_upto(s, max, k) <= k,
    decreases k,
{
    if k > 0 {
        lemma_fit_upto_le(s, max, (k - 1) as nat);
    }
}

proof fn lemma_fit_upto(s: Seq<char>, max: nat, n: nat)
    requires
        n <= s.len(),
    ensures
        utf8_len(s.take(fit_upto(s, max, n) as int)) <= max,
        fit_upto(s, max, n) < n ==> utf8_len(s.take(fit_upto(s, max, n) + 1int)) > max,
    decreases n,
{
    if n == 0 {
        assert(s.take(0) =~= Seq::<char>::empty());
        assert(utf8_len(Seq::<char>::empty()) == 0);
    } else if utf8_len(s.take(n as int)) > max {
        lemma_fit_upto(s, max, (n - 1) as nat);
    }
}

/// What `fitting_chars` is: the longest prefix within the budget.
pub proof fn lemma_fitting_chars(s: Seq<char>, max: nat)
    ensures
        fitting_chars(s, max) <= s.len(),
        fitting_chars(s, max) <= max,
        utf8_len(s.take(fitting_chars(s, max) as int)) <= max,
        fitting_chars(s, max) < s.len() ==> utf8_len(s.take(fitting_chars(s, max) + 1int)) > max,
        fitting_chars(s, max) == s.len() <==> utf8_len(s) <= max,
{
    let f = fitting_chars(s, max);
    lemma_fit_upto_le(s, max, s.len());
    lemma_fit_upto(s, max, s.len());
    lemma_utf8_len_prefix(s, 0, f as int);
    assert(s.take(0) =~= Seq::<char>::empty());
    assert(utf8_len(Seq::<char>::empty()) == 0);
    assert(s.take(s.len() as int) =~= s);
    if f < s.len() {
        lemma_utf8_len_prefix(s, f + 1int, s.len() as int);
    }
}

// ---------------------------------------------------------------------------
// Truncation
// ---------------------------------------------------------------------------
/// Bytes in the UTF-8 encoding of `c`.
pub fn char_bytes(c: char) -> (n: usize)
    ensures
        n == char_width(c),
{
    let u = c as u32;
    if u < 0x80 {
        1
    } else if u < 0x800 {
        2
    } else if u < 0x10000 {
        3
    } else {
        4
    }
}

/// How many characters of `v[from..]` fit in `max` bytes.
pub fn fit_count(v: &[char], from: usize, max: usize) -> (k: usize)
    requires
        from <= v@.len(),
    ensures
        k == fitting_chars(v@.skip(from as int), max as nat),
        from + k <= v@.len(),
{
    let ghost s = v@.skip(from as int);
    let mut k: usize = 0;
    let mut used: usize = 0;
    assert(s.take(0) =~= Seq::<char>::empty());
    assert(utf8_len(Seq::<char>::empty()) == 0);
    while k < v.len() - from
        invariant
            from <= v@.len(),
            s == v@.skip(from as int),
            from + k <= v@.len(),
            used == utf8_len(s.take(k as int)),
            used <= max,
        decreases v@.len() - from - k,
    {
        let w = char_bytes(v[from + k]);
        proof {
            assert(s.take(k + 1) =~= s.take(k as int).push(s[k as int]));
            lemma_utf8_len_push(s.take(k as int), s[k as int]);
        }
        if w > max - used {
            proof {
                lemma_fitting_chars(s, max as nat);
                let f = fitting_chars(s, max as nat) as int;
                if f > k {
                    lemma_utf8_len_prefix(s, k + 1, f);
                }
                if f < k {
                    lemma_utf8_len_prefix(s, f + 1, k as int);
                }
            }
            return k;
        }
        used = used + w;
        k = k + 1;
    }
    proof {
        lemma_fitting_chars(s, max as nat);
        assert(s.take(k as int) =~= s);
    }
    k
}

/// `s` cut to at most `max` bytes at a character boundary.
pub fn truncate_str(s: &str, max: usize) -> (r: String)
    ensures
        r@ == s@.take(fitting_chars(s@, max as nat) as int),
        utf8_len(s@) <= max ==> r@ == s@,
        utf8_len(r@) <= max,
{
    let v = chars_of(s);
    let k = fit_count(&v, 0, max);
    proof {
        assert(v@.skip(0) =~= v@);
        lemma_fitting_chars(s@, max as nat);
        assert(v@.subrange(0, k as int) =~= s@.take(k as int));
        if utf8_len(s@) <= max {
            assert(s@.take(k as int) =~= s@);
        }
    }
    string_from_range(&v, 0, k)
}

/// `s` if it fits in `max` bytes (or `max` is below two); otherwise the
/// longest prefix that fits in `max - 1` bytes, followed by an ellipsis.
pub fn truncate_ellipsis(s: &str, max: usize) -> (r: String)
    ensures
        r@ == (if max < 2 || utf8_len(s@) <= max {
            s@
        } else {
            s@.take(fitting_chars(s@, (max - 1) as nat) as int).push('…')
        }),
{
    let v = chars_of(s);
    proof {
        assert(v@.skip(0) =~= v@);
        lemma_fitting_chars(s@, max as nat);
    }
    if max < 2 || fit_count(&v, 0, max) == v.len() {
        return s.to_string();
    }
    let k = fit_count(&v, 0, max - 1);
    let mut r = string_from_range(&v, 0, k);
    push_char(&mut r, '…');
    proof {
        assert(v@.subrange(0, k as int) =~= s@.take(k as int));
    }
    r
}

// ---------------------------------------------------------------------------
// Word wrapping
// ---------------------------------------------------------------------------
/// How much of an over-long word one line takes: the longest prefix within
/// `width` bytes, or its first character when even that does not fit.
pub open spec fn piece_len(w: Seq<char>, width: nat) -> nat {
    if fitting_chars(w, width) == 0 {
        1
    } else {
        fitting_chars(w, width)
    }
}

/// Breaking the over-long word `w`: while it has more than `width`
/// characters, the current line (if any) is closed and the next piece of `w`
/// (`piece_len`) becomes a line of its own. Gives the lines, the current line
/// and what is left of the word.
pub open spec fn break_word(
    lines: Seq<Seq<char>>,
    cur: Seq<char>,
    w: Seq<char>,
    width: nat,
) -> (Seq<Seq<char>>, Seq<char>, Seq<char>)
    decreases w.len(),
{
    if w.len() <= width {
        (lines, cur, w)
    } else {
        proof {
            lemma_fit_upto_le(w, width, w.len());
        }
        let k = piece_len(w, width);
        let closed = if cur.len() > 0 {
            lines.push(cur)
        } else {
            lines
        };
        break_word(closed.push(w.take(k as int)), seq![], w.skip(k as int), width)
    }
}

/// Placing the word `w` (at most `width` characters): it starts the current
/// line if that is empty, joins it after a space if the result still fits,
/// or else closes the current line and starts the next.
pub open spec fn place_word(lines: Seq<Seq<char>>, cur: Seq<char>, w: Seq<char>, width: nat) -> (
    Seq<Seq<char>>,
    Seq<char>,
) {
    if cur.len() == 0 {
        (lines, w)
    } else if cur.len() + 1 + w.len() <= width {
        (lines, cur + seq![' '] + w)
    } else {
        (lines.push(cur), w)
    }
}

/// The closed lines and the current line after wrapping the words `ws`.
pub open spec fn wrap_words(ws: Seq<Seq<char>>, width: nat) -> (Seq<Seq<char>>, Seq<char>)
    decreases ws.len(),
{
    if ws.len() == 0 {
        (seq![], seq![])
    } else {
        let (lines, cur) = wrap_words(ws.drop_last(), width);
        let (broken, rest_line, rest) = break_word(lines, cur, ws.last(), width);
        place_word(broken, rest_line, rest, width)
    }
}

/// The lines of `s` word-wrapped to `width` columns; a `width` of zero
/// leaves `s` whole.
pub open spec fn wrapped(s: Seq<char>, width: nat) -> Seq<Seq<char>> {
    if width == 0 {
        seq![s]
    } else {
        let (lines, cur) = wrap_words(words(s), width);
        lines.push(cur)
    }
}

/// Every line has at most `width` characters.
pub open spec fn lines_within(lines: Seq<Seq<char>>, width: nat) -> bool {
    forall|i: int| 0 <= i < lines.len() ==> (#[trigger] lines[i]).len() <= width
}

proof fn lemma_break_word(lines: Seq<Seq<char>>, cur: Seq<char>, w: Seq<char>, width: nat)
    requires
        width > 0,
        lines_within(lines, width),
        cur.len() <= width,
    ensures
        lines_within(break_word(lines, cur, w, width).0, width),
        break_word(lines, cur, w, width).1.len() <= width,
        break_word(lines, cur, w, width).2.len() <= width,
        break_word(lines, cur, w, width).2.len() == 0 ==> w.len() == 0,
    decreases w.len(),
{
    if w.len() > width {
        lemma_fitting_chars(w, width);
        let k = piece_len(w, width);
        let closed = if cur.len() > 0 {
            lines.push(cur)
        } else {
            lines
        };
        let next = closed.push(w.take(k as int));
        assert(lines_within(next, width)) by {
            assert forall|i: int| 0 <= i < next.len() implies (#[trigger] next[i]).len() <= width by {
                if i < lines.len() {
                    assert(next[i] == lines[i]);
                }
            }
        }
        lemma_break_word(next, seq![], w.skip(k as int), width);
    }
}

proof fn lemma_wrap_words(ws: Seq<Seq<char>>, width: nat)
    requires
        width > 0,
    ensures
        lines_within(wrap_words(ws, width).0, width),
        wrap_words(ws, width).1.len() <= width,
    decreases ws.len(),
{
    if ws.len() > 0 {
        let prefix = ws.drop_last();
        lemma_wrap_words(prefix, width);
        let (lines, cur) = wrap_words(prefix, width);
        lemma_break_word(lines, cur, ws.last(), width);
        let (broken, rest_line, rest) = break_word(lines, cur, ws.last(), width);
        let placed = place_word(broken, rest_line, rest, width);
        assert(lines_within(placed.0, width)) by {
            assert forall|i: int| 0 <= i < placed.0.len() implies (#[trigger] placed.0[i]).len()
                <= width by {
                if i < broken.len() {
                    assert(placed.0[i] == broken[i]);
                }
            }
        }
    }
}

/// The characters of `lines`, one line after another.
pub open spec fn flat(lines: Seq<Seq<char>>) -> Seq<char>
    decreases lines.len(),
{
    if lines.len() == 0 {
        seq![]
    } else {
        flat(lines.drop_last()) + lines.last()
    }
}

/// `s` without its spaces.
pub open spec fn unspaced(s: Seq<char>) -> Seq<char>
    decreases s.len(),
{
    if s.len() == 0 {
        s
    } else if s.last() == ' ' {
        unspaced(s.drop_last())
    } else {
        unspaced(s.drop_last()).push(s.last())
    }
}

proof fn lemma_unspaced_concat(a: Seq<char>, b: Seq<char>)
    ensures
        unspaced(a + b) == unspaced(a) + unspaced(b),
    decreases b.len(),
{
    if b.len() == 0 {
        assert(a + b =~= a);
        assert(unspaced(a) + unspaced(b) =~= unspaced(a));
    } else {
        lemma_unspaced_concat(a, b.drop_last());
        assert((a + b).drop_last() =~= a + b.drop_last());
        assert((a + b).last() == b.last());
        if b.last() == ' ' {
        } else {
            assert(unspaced(a) + unspaced(b.drop_last()).push(b.last()) =~= (unspaced(a) + unspaced(
                b.drop_last(),
            )).push(b.last()));
        }
    }
}

/// `w` has no space in it.
pub open spec fn spaceless(w: Seq<char>) -> bool {
    forall|j: int| 0 <= j < w.len() ==> w[j] != ' '
}

proof fn lemma_unspaced_word(w: Seq<char>)
    requires
        spaceless(w),
    ensures
        unspaced(w) == w,
    decreases w.len(),
{
    if w.len() > 0 {
        lemma_unspaced_word(w.drop_last());
        assert(w.drop_last().push(w.last()) =~= w);
    }
}

proof fn lemma_flat_push(lines: Seq<Seq<char>>, l: Seq<char>)
    ensures
        flat(lines.push(l)) == flat(lines) + l,
{
    assert(lines.push(l).drop_last() =~= lines);
}

proof fn lemma_break_word_keeps_text(lines: Seq<Seq<char>>, cur: Seq<char>, w: Seq<char>, width: nat)
    ensures
        ({
            let (l, c, rest) = break_word(lines, cur, w, width);
            flat(l) + c + rest == flat(lines) + cur + w
        }),
    decreases w.len(),
{
    if w.len() > width {
        lemma_fit_upto_le(w, width, w.len());
        let k = piece_len(w, width);
        let closed = if cur.len() > 0 {
            lines.push(cur)
        } else {
            lines
        };
        if cur.len() > 0 {
            lemma_flat_push(lines, cur);
        } else {
            assert(cur =~= Seq::<char>::empty());
        }
        assert(flat(closed) == flat(lines) + cur);
        lemma_flat_push(closed, w.take(k as int));
        lemma_break_word_keeps_text(closed.push(w.take(k as int)), seq![], w.skip(k as int), width);
        assert(w.take(k as int) + w.skip(k as int) =~= w);
        assert(flat(closed.push(w.take(k as int))) + Seq::<char>::empty() + w.skip(k as int) =~= flat(
            lines,
        ) + cur + w);
    }
}

proof fn lemma_wrap_words_keep_text(ws: Seq<Seq<char>>, width: nat)
    requires
        forall|i: int| 0 <= i < ws.len() ==> spaceless(#[trigger] ws[i]),
    ensures
        unspaced(flat(wrap_words(ws, width).0) + wrap_words(ws, width).1) == flat(ws),
    decreases ws.len(),
{
    if ws.len() == 0 {
        assert(flat(Seq::<Seq<char>>::empty()) + Seq::<char>::empty() =~= Seq::<char>::empty());
    } else {
        let prefix = ws.drop_last();
        let w = ws.last();
        assert forall|i: int| 0 <= i < prefix.len() implies spaceless(#[trigger] prefix[i]) by {
            assert(prefix[i] == ws[i]);
        }
        lemma_wrap_words_keep_text(prefix, width);
        let (lines, cur) = wrap_words(prefix, width);
        lemma_break_word_keeps_text(lines, cur, w, width);
        let (l1, c1, rest) = break_word(lines, cur, w, width);
        assert(spaceless(ws[ws.len() - 1]));
        lemma_unspaced_word(w);
        lemma_unspaced_concat(flat(lines) + cur, w);
        let (l2, c2) = place_word(l1, c1, rest, width);
        if c1.len() == 0 {
            assert(c1 =~= Seq::<char>::empty());
            assert(flat(l2) + c2 =~= flat(l1) + c1 + rest);
        } else if c1.len() + 1 + rest.len() <= width {
            lemma_unspaced_concat(flat(l1) + c1, seq![' '] + rest);
            lemma_unspaced_concat(seq![' '], rest);
            assert(seq![' '].drop_last() =~= Seq::<char>::empty());
            assert(unspaced(seq![' ']) == unspaced(Seq::<char>::empty()));
            assert(flat(l2) + c2 =~= (flat(l1) + c1) + (seq![' '] + rest));
            lemma_unspaced_concat(flat(l1) + c1, rest);
            assert(flat(l1) + c1 + rest =~= (flat(l1) + c1) + rest);
            assert(unspaced(seq![' '] + rest) =~= unspaced(rest));
        } else {
            lemma_flat_push(l1, c1);
            assert(flat(l2) + c2 =~= flat(l1) + c1 + rest);
        }
        assert(flat(ws) == flat(prefix) + w);
    }
}

/// Wrapping loses no text: the wrapped lines, read one after another
/// without their spaces, are the words of `s` one after another.
pub proof fn lemma_wrap_keeps_text(s: Seq<char>, width: nat)
    requires
        width > 0,
    ensures
        unspaced(flat(wrapped(s, width))) == flat(words(s)),
{
    crate::text::lemma_words_shape(s);
    let ws = words(s);
    assert forall|i: int| 0 <= i < ws.len() implies spaceless(#[trigger] ws[i]) by {
        assert(crate::text::is_word(ws[i]));
        assert forall|j: int| 0 <= j < ws[i].len() implies ws[i][j] != ' ' by {
            assert(!crate::text::is_ws(ws[i][j]));
        }
    }
    lemma_wrap_words_keep_text(ws, width);
    let (lines, cur) = wrap_words(ws, width);
    lemma_flat_push(lines, cur);
}

/// Word-wraps `s` to lines of at most `width` columns. Splits on
/// whitespace; a word longer than `width` is broken at the last character
/// boundary within `width` bytes (after its first character when that alone
/// is wider). Gives at least one line (an empty text gives one empty line).
pub fn wrap_text(s: &str, width: usize) -> (r: Vec<String>)
    ensures
        views(r@) == wrapped(s@, width as nat),
        r@.len() >= 1,
        width > 0 ==> lines_within(views(r@), width as nat),
{
    if width == 0 {
        let mut r: Vec<String> = Vec::new();
        r.push(s.to_string());
        proof {
            assert(views(r@) =~= seq![s@]);
        }
        return r;
    }
    let v = chars_of(s);
    let ws = split_words(&v, 0, v.len());
    let ghost all = views(ws@);
    proof {
        assert(v@.subrange(0, v@.len() as int) =~= s@);
    }
    let mut lines: Vec<String> = Vec::new();
    let mut cur = String::new();
    let mut cur_len: usize = 0;
    let mut j: usize = 0;
    proof {
        assert(all.take(0) =~= Seq::<Seq<char>>::empty());
        assert(views(lines@) =~= Seq::<Seq<char>>::empty());
        assert(cur@ =~= Seq::<char>::empty());
    }
    while j < ws.len()
        invariant
            width > 0,
            all == views(ws@),
            all == words(s@),
            j <= ws@.len(),
            (views(lines@), cur@) == wrap_words(all.take(j as int), width as nat),
            cur_len == cur@.len(),
            cur_len <= width,
        decreases ws@.len() - j,
    {
        let ghost before = all.take(j as int);
        proof {
            lemma_wrap_words(before, width as nat);
            assert(all.take(j + 1).drop_last() =~= before);
            assert(all.take(j + 1).last() == all[j as int]);
        }
        let wv = chars_of(ws[j].as_str());
        let ghost w = wv@;
        let ghost lines0 = views(lines@);
        let ghost cur0 = cur@;
        let mut pos: usize = 0;
        proof {
            assert(w == all[j as int]);
            assert(w.skip(0) =~= w);
        }
        while wv.len() - pos > width
            invariant
                width > 0,
                w == wv@,
                pos <= wv@.len(),
                break_word(lines0, cur0, w, width as nat) == break_word(
                    views(lines@),
                    cur@,
                    w.skip(pos as int),
                    width as nat,
                ),
                cur_len == cur@.len(),
                cur_len <= width,
            decreases wv@.len() - pos,
        {
            let ghost rest = w.skip(pos as int);
            let fit = fit_count(&wv, pos, width);
            let k = if fit == 0 {
                1
            } else {
                fit
            };
            proof {
                lemma_fitting_chars(rest, width as nat);
                assert(rest.len() > width);
                assert(k == piece_len(rest, width as nat));
            }
            let ghost lines_before = views(lines@);
            let ghost cur_before = cur@;
            let ghost closed = if cur_before.len() > 0 {
                lines_before.push(cur_before)
            } else {
                lines_before
            };
            if cur_len > 0 {
                lines.push(cur);
                cur = String::new();
                cur_len = 0;
            }
            proof {
                assert(cur@ =~= Seq::<char>::empty());
            }
            let piece = string_from_range(&wv, pos, pos + k);
            let ghost prev = views(lines@);
            lines.push(piece);
            proof {
                assert(views(lines@) =~= prev.push(piece@));
                assert(piece@ =~= rest.take(k as int));
                assert(rest.skip(k as int) =~= w.skip(pos + k));
                assert(prev =~= closed);
                assert(break_word(lines_before, cur_before, rest, width as nat) == break_word(
                    closed.push(rest.take(k as int)),
                    seq![],
                    rest.skip(k as int),
                    width as nat,
                ));
            }
            pos = pos + k;
        }
        let ghost rest = w.skip(pos as int);
        let ghost broken = views(lines@);
        let ghost rest_line = cur@;
        proof {
            assert(break_word(broken, rest_line, rest, width as nat) == (broken, rest_line, rest));
        }
        let word = string_from_range(&wv, pos, wv.len());
        proof {
            assert(word@ =~= rest);
        }
        let wlen = wv.len() - pos;
        if cur_len == 0 {
            cur = word;
            cur_len = wlen;
        } else if cur_len < width && wlen <= width - cur_len - 1 {
            push_char(&mut cur, ' ');
            push_str(&mut cur, word.as_str());
            cur_len = cur_len + 1 + wlen;
        } else {
            lines.push(cur);
            cur = word;
            cur_len = wlen;
        }
        proof {
            assert(views(lines@) =~= place_word(broken, rest_line, rest, width as nat).0);
            assert(cur@ =~= place_word(broken, rest_line, rest, width as nat).1);
        }
        j = j + 1;
    }
    proof {
        assert(all.take(j as int) =~= all);
        lemma_wrap_words(all, width as nat);
    }
    let ghost closed = views(lines@);
    lines.push(cur);
    proof {
        assert(views(lines@) =~= closed.push(wrap_words(all, width as nat).1));
        assert forall|i: int| 0 <= i < views(lines@).len() implies (#[trigger] views(
            lines@,
        )[i]).len() <= width by {
            if i < closed.len() {
                assert(views(lines@)[i] == closed[i]);
            }
        }
    }
    lines
}

} // verus!
