//! Passages from JSON Lines exports of other chunking tools: each row's
//! text, chunk number, headings and pages, read from whichever of the usual
//! field names the exporter used, at the top level or under `metadata`.
use vstd::prelude::*;

use crate::docling::{sorted_set_of, sorted_unique};
use crate::storage::str_eq;
use crate::text::{self, chars_of, trim_str};

verus! {

/// A JSON value as a row's reader sees it: `null`, a string, a number
/// (with its values as `i64` and as `u64` where it has them), or anything
/// else.
#[derive(Debug, Clone, PartialEq)]
pub enum JsonScalar {
    Null,
    Str(String),
    Num { int: Option<i64>, uint: Option<u64> },
    Other,
}

/// A field of a row: a scalar, an array (its elements as scalars, nested
/// arrays and objects as `Other`), or an object.
#[derive(Debug, Clone, PartialEq)]
pub enum JsonField {
    Scalar(JsonScalar),
    Array(Vec<JsonScalar>),
    Object,
}

/// One line of a JSON Lines export: its fields when it is an object, and
/// the fields of its `metadata` object when it has one.
#[derive(Debug, Clone)]
pub struct JsonRow {
    pub fields: Option<Vec<(String, JsonField)>>,
    pub metadata: Option<Vec<(String, JsonField)>>,
}

/// A passage read from a row.
#[derive(Debug, Clone, PartialEq)]
pub struct ChunkRecord {
    pub dir_name: String,
    pub paper_title: String,
    pub source_path: String,
    pub chunk_index: i64,
    pub text: String,
    pub headings: Vec<String>,
    pub pages: Vec<u32>,
    /// The row itself, as JSON text.
    pub metadata_json: String,
}

// ---------------------------------------------------------------------------
// Numbers in text
// ---------------------------------------------------------------------------
/// The value of a string of ASCII digits.
pub open spec fn digits_value(s: Seq<char>) -> nat
    decreases s.len(),
{
    if s.len() == 0 {
        0
    } else {
        10 * digits_value(s.drop_last()) + (s.last() as nat - '0' as nat) as nat
    }
}

pub open spec fn all_digits(s: Seq<char>) -> bool {
    forall|i: int| 0 <= i < s.len() ==> text::is_digit(#[trigger] s[i])
}

/// `str::parse::<i64>`: an optional sign, then one or more ASCII digits,
/// within range.
pub open spec fn parse_i64(s: Seq<char>) -> Option<i64> {
    let neg = s.len() > 0 && s[0] == '-';
    let digits = if s.len() > 0 && (s[0] == '-' || s[0] == '+') {
        s.drop_first()
    } else {
        s
    };
    if digits.len() == 0 || !all_digits(digits) {
        None
    } else if neg {
        if digits_value(digits) <= 9223372036854775808 {
            Some((0 - digits_value(digits)) as i64)
        } else {
            None
        }
    } else if digits_value(digits) <= 9223372036854775807 {
        Some(digits_value(digits) as i64)
    } else {
        None
    }
}

/// `str::parse::<u32>`: an optional `+`, then one or more ASCII digits,
/// within range.
pub open spec fn parse_u32(s: Seq<char>) -> Option<u32> {
    let digits = if s.len() > 0 && s[0] == '+' {
        s.drop_first()
    } else {
        s
    };
    if digits.len() == 0 || !all_digits(digits) || digits_value(digits) > 4294967295 {
        None
    } else {
        Some(digits_value(digits) as u32)
    }
}

proof fn lemma_digits_grow(s: Seq<char>, i: int)
    requires
        0 <= i <= s.len(),
        all_digits(s),
    ensures
        digits_value(s.take(i)) <= digits_value(s),
    decreases s.len() - i,
{
    if i < s.len() {
        lemma_digits_grow(s, i + 1);
        assert(s.take(i + 1).drop_last() =~= s.take(i));
        assert(text::is_digit(s[i]));
    } else {
        assert(s.take(i) =~= s);
    }
}

/// The value of `s[from..]` when it is one or more ASCII digits and at most
/// `bound`.
fn digits_at_most(s: &Vec<char>, from: usize, bound: u64) -> (r: Option<u64>)
    requires
        from <= s@.len(),
    ensures
        ({
            let d = s@.skip(from as int);
            match r {
                Some(v) => d.len() > 0 && all_digits(d) && v == digits_value(d) && v <= bound,
                None => d.len() == 0 || !all_digits(d) || digits_value(d) > bound,
            }
        }),
{
    let ghost d = s@.skip(from as int);
    if from == s.len() {
        return None;
    }
    let mut v: u64 = 0;
    let mut i: usize = from;
    while i < s.len()
        invariant
            from <= i <= s@.len(),
            d == s@.skip(from as int),
            all_digits(d.take(i - from)),
            v == digits_value(d.take(i - from)),
            v <= bound,
        decreases s@.len() - i,
    {
        let c = s[i];
        proof {
            assert(d.take(i - from + 1).drop_last() =~= d.take(i - from));
            assert(d[i - from] == c);
        }
        if !('0' <= c && c <= '9') {
            assert(!text::is_digit(d[i - from]));
            return None;
        }
        let digit = (c as u32 - '0' as u32) as u64;
        if digit > bound || v > (bound - digit) / 10 {
            proof {
                if digit <= bound {
                    let x = (bound - digit) as int;
                    assert(10 * v > x) by (nonlinear_arith)
                        requires
                            v > x / 10,
                            x >= 0,
                    ;
                }
                assert(all_digits(d.take(i - from + 1)));
                assert(digits_value(d.take(i - from + 1)) == 10 * v + digit);
                if all_digits(d) {
                    lemma_digits_grow(d, i - from + 1);
                }
            }
            return None;
        }
        v = 10 * v + digit;
        i += 1;
        proof {
            assert(all_digits(d.take(i - from)));
        }
    }
    assert(d.take(i - from) =~= d);
    Some(v)
}

/// `str::parse::<i64>`.
pub fn parse_i64_str(s: &str) -> (r: Option<i64>)
    ensures
        r == parse_i64(s@),
{
    let v = chars_of(s);
    let neg = v.len() > 0 && v[0] == '-';
    let from: usize = if v.len() > 0 && (v[0] == '-' || v[0] == '+') { 1 } else { 0 };
    assert(v@.skip(from as int) =~= if v@.len() > 0 && (v@[0] == '-' || v@[0] == '+') {
        v@.drop_first()
    } else {
        v@
    });
    if neg {
        match digits_at_most(&v, from, 9223372036854775808) {
            Some(n) => Some(if n == 9223372036854775808 { i64::MIN } else { -(n as i64) }),
            None => None,
        }
    } else {
        match digits_at_most(&v, from, 9223372036854775807) {
            Some(n) => Some(n as i64),
            None => None,
        }
    }
}

/// `str::parse::<u32>`.
pub fn parse_u32_str(s: &str) -> (r: Option<u32>)
    ensures
        r == parse_u32(s@),
{
    let v = chars_of(s);
    let from: usize = if v.len() > 0 && v[0] == '+' { 1 } else { 0 };
    assert(v@.skip(from as int) =~= if v@.len() > 0 && v@[0] == '+' {
        v@.drop_first()
    } else {
        v@
    });
    match digits_at_most(&v, from, 4294967295) {
        Some(n) => Some(n as u32),
        None => None,
    }
}

// ---------------------------------------------------------------------------
// Reading a row
// ---------------------------------------------------------------------------
/// The value of `key` among `fields`.
pub open spec fn lookup(fields: Seq<(String, JsonField)>, key: Seq<char>) -> Option<JsonField>
    decreases fields.len(),
{
    if fields.len() == 0 {
        None
    } else if fields[0].0@ == key {
        Some(fields[0].1)
    } else {
        lookup(fields.drop_first(), key)
    }
}

/// The values of `keys` among `fields`, in the order of `keys`.
pub open spec fn found(fields: Seq<(String, JsonField)>, keys: Seq<Seq<char>>) -> Seq<JsonField>
    decreases keys.len(),
{
    if keys.len() == 0 {
        Seq::empty()
    } else {
        found(fields, keys.drop_last()) + match lookup(fields, keys.last()) {
            Some(v) => seq![v],
            None => Seq::empty(),
        }
    }
}

/// The values of `keys` in a row: at its top level, then in its metadata.
pub open spec fn values_for(row: JsonRow, keys: Seq<Seq<char>>) -> Seq<JsonField> {
    match row.fields {
        Some(f) => found(f@, keys) + match row.metadata {
            Some(m) => found(m@, keys),
            None => Seq::empty(),
        },
        None => Seq::empty(),
    }
}

/// The first of `vals` that is a string with text, trimmed.
pub open spec fn first_string(vals: Seq<JsonField>) -> Option<Seq<char>>
    decreases vals.len(),
{
    if vals.len() == 0 {
        None
    } else {
        match vals[0] {
            JsonField::Scalar(JsonScalar::Str(s)) if text::trim(s@).len() > 0 => Some(text::trim(s@)),
            _ => first_string(vals.drop_first()),
        }
    }
}

/// The first of `vals` that is not `null`.
pub open spec fn first_value(vals: Seq<JsonField>) -> Option<JsonField>
    decreases vals.len(),
{
    if vals.len() == 0 {
        None
    } else if vals[0] == JsonField::Scalar(JsonScalar::Null) {
        first_value(vals.drop_first())
    } else {
        Some(vals[0])
    }
}

/// An integer, or a string that parses as one.
pub open spec fn integer_value(v: JsonField) -> Option<i64> {
    match v {
        JsonField::Scalar(JsonScalar::Num { int: Some(i), .. }) => Some(i),
        JsonField::Scalar(JsonScalar::Str(s)) => parse_i64(s@),
        _ => None,
    }
}

/// The non-empty trimmed strings among `xs`.
pub open spec fn strings_of(xs: Seq<JsonScalar>) -> Seq<Seq<char>>
    decreases xs.len(),
{
    if xs.len() == 0 {
        Seq::empty()
    } else {
        strings_of(xs.drop_last()) + match xs.last() {
            JsonScalar::Str(s) if text::trim(s@).len() > 0 => seq![text::trim(s@)],
            _ => Seq::empty(),
        }
    }
}

/// A heading or a list of headings.
pub open spec fn string_values(v: JsonField) -> Seq<Seq<char>> {
    match v {
        JsonField::Scalar(JsonScalar::Str(s)) => if text::trim(s@).len() > 0 {
            seq![text::trim(s@)]
        } else {
            Seq::empty()
        },
        JsonField::Array(xs) => strings_of(xs@),
        _ => Seq::empty(),
    }
}

/// A page number: an integer that fits in `u32`, or a string that parses
/// as one.
pub open spec fn page_of(x: JsonScalar) -> Option<u32> {
    match x {
        JsonScalar::Num { uint: Some(p), .. } => if p <= u32::MAX {
            Some(p as u32)
        } else {
            None
        },
        JsonScalar::Str(s) => parse_u32(s@),
        _ => None,
    }
}

pub open spec fn pages_of(xs: Seq<JsonScalar>) -> Seq<u32>
    decreases xs.len(),
{
    if xs.len() == 0 {
        Seq::empty()
    } else {
        pages_of(xs.drop_last()) + match page_of(xs.last()) {
            Some(p) => seq![p],
            None => Seq::empty(),
        }
    }
}

/// The page numbers of a page or a list of pages, before sorting.
pub open spec fn page_list(v: JsonField) -> Seq<u32> {
    match v {
        JsonField::Array(xs) => pages_of(xs@),
        JsonField::Scalar(x) => pages_of(seq![x]),
        JsonField::Object => Seq::empty(),
    }
}

pub open spec fn text_keys() -> Seq<Seq<char>> {
    seq!["text"@, "content"@, "page_content"@, "raw_text"@]
}

pub open spec fn chunk_keys() -> Seq<Seq<char>> {
    seq!["chunk_index"@, "chunk_id"@, "id"@]
}

pub open spec fn heading_keys() -> Seq<Seq<char>> {
    seq!["headings"@, "heading"@, "section"@, "title"@]
}

pub open spec fn page_keys() -> Seq<Seq<char>> {
    seq!["page_numbers"@, "page_number"@, "page_no"@, "page"@]
}

fn lookup_at(fields: &Vec<(String, JsonField)>, key: &str) -> (r: Option<usize>)
    ensures
        match r {
            Some(i) => i < fields@.len() && lookup(fields@, key@) == Some(fields@[i as int].1),
            None => lookup(fields@, key@) is None,
        },
{
    let mut i: usize = 0;
    assert(fields@.skip(0) =~= fields@);
    while i < fields.len()
        invariant
            i <= fields@.len(),
            lookup(fields@, key@) == lookup(fields@.skip(i as int), key@),
        decreases fields@.len() - i,
    {
        proof {
            assert(fields@.skip(i as int).drop_first() =~= fields@.skip(i + 1));
            assert(fields@.skip(i as int)[0] == fields@[i as int]);
        }
        if str_eq(fields[i].0.as_str(), key) {
            return Some(i);
        }
        i += 1;
    }
    assert(fields@.skip(i as int).len() == 0);
    None
}

/// Where a value lies: in the metadata or at the top level, at an index.
pub open spec fn at(row: JsonRow, p: (bool, usize)) -> JsonField {
    if p.0 {
        row.metadata->0@[p.1 as int].1
    } else {
        row.fields->0@[p.1 as int].1
    }
}

pub open spec fn valid_at(row: JsonRow, p: (bool, usize)) -> bool {
    if p.0 {
        row.metadata is Some && p.1 < row.metadata->0@.len()
    } else {
        row.fields is Some && p.1 < row.fields->0@.len()
    }
}

/// The values at the positions `ps`.
pub open spec fn values_at(row: JsonRow, ps: Seq<(bool, usize)>) -> Seq<JsonField> {
    ps.map_values(|p: (bool, usize)| at(row, p))
}

fn found_positions(
    fields: &Vec<(String, JsonField)>,
    keys: &Vec<&'static str>,
    meta: bool,
    out: &mut Vec<(bool, usize)>,
    Ghost(row): Ghost<JsonRow>,
)
    requires
        if meta { row.metadata == Some(*fields) } else { row.fields == Some(*fields) },
        forall|j: int| 0 <= j < old(out)@.len() ==> valid_at(row, #[trigger] old(out)@[j]),
    ensures
        forall|j: int| 0 <= j < final(out)@.len() ==> valid_at(row, #[trigger] final(out)@[j]),
        values_at(row, final(out)@) == values_at(row, old(out)@) + found(fields@, keys@.map_values(|k: &'static str| k@)),
{
    let ghost kv = keys@.map_values(|k: &'static str| k@);
    let ghost start = values_at(row, out@);
    let mut k: usize = 0;
    while k < keys.len()
        invariant
            k <= keys@.len(),
            kv == keys@.map_values(|k: &'static str| k@),
            if meta { row.metadata == Some(*fields) } else { row.fields == Some(*fields) },
            forall|j: int| 0 <= j < out@.len() ==> valid_at(row, #[trigger] out@[j]),
            values_at(row, out@) == start + found(fields@, kv.take(k as int)),
            start == values_at(row, old(out)@),
        decreases keys@.len() - k,
    {
        proof {
            assert(kv.take(k + 1).drop_last() =~= kv.take(k as int));
            assert(kv.take(k + 1).last() == keys@[k as int]@);
        }
        let ghost before = out@;
        match lookup_at(fields, keys[k]) {
            Some(i) => {
                out.push((meta, i));
                assert(values_at(row, out@) =~= values_at(row, before).push(at(row, (meta, i))));
                assert(values_at(row, out@) =~= start + found(fields@, kv.take(k + 1)));
            },
            None => {
                assert(found(fields@, kv.take(k + 1)) =~= found(fields@, kv.take(k as int)));
            },
        }
        k += 1;
    }
    assert(kv.take(keys@.len() as int) =~= kv);
}

fn positions_for(row: &JsonRow, keys: &Vec<&'static str>) -> (r: Vec<(bool, usize)>)
    ensures
        forall|j: int| 0 <= j < r@.len() ==> valid_at(*row, #[trigger] r@[j]),
        values_at(*row, r@) == values_for(*row, keys@.map_values(|k: &'static str| k@)),
{
    let ghost kv = keys@.map_values(|k: &'static str| k@);
    let mut out: Vec<(bool, usize)> = Vec::new();
    assert(values_at(*row, out@) =~= Seq::<JsonField>::empty());
    match &row.fields {
        None => {},
        Some(f) => {
            found_positions(f, keys, false, &mut out, Ghost(*row));
            assert(values_at(*row, out@) =~= found(f@, kv));
            match &row.metadata {
                None => {
                    assert(values_for(*row, kv) =~= found(f@, kv) + Seq::<JsonField>::empty());
                },
                Some(m) => {
                    found_positions(m, keys, true, &mut out, Ghost(*row));
                },
            }
        },
    }
    out
}

fn field_at<'a>(row: &'a JsonRow, p: (bool, usize)) -> (f: &'a JsonField)
    requires
        valid_at(*row, p),
    ensures
        *f == at(*row, p),
{
    if p.0 {
        match &row.metadata {
            Some(m) => &m[p.1].1,
            None => {
                proof {
                    assert(false);
                }
                &row.fields.as_ref().unwrap()[0].1
            },
        }
    } else {
        match &row.fields {
            Some(f) => &f[p.1].1,
            None => {
                proof {
                    assert(false);
                }
                &row.metadata.as_ref().unwrap()[0].1
            },
        }
    }
}

fn first_string_at(row: &JsonRow, ps: &Vec<(bool, usize)>) -> (r: Option<String>)
    requires
        forall|j: int| 0 <= j < ps@.len() ==> valid_at(*row, #[trigger] ps@[j]),
    ensures
        text::opt_view(r) == first_string(values_at(*row, ps@)),
{
    let ghost vs = values_at(*row, ps@);
    assert(vs.skip(0) =~= vs);
    let mut i: usize = 0;
    while i < ps.len()
        invariant
            i <= ps@.len(),
            vs == values_at(*row, ps@),
            forall|j: int| 0 <= j < ps@.len() ==> valid_at(*row, #[trigger] ps@[j]),
            first_string(vs) == first_string(vs.skip(i as int)),
        decreases ps@.len() - i,
    {
        proof {
            assert(vs.skip(i as int).drop_first() =~= vs.skip(i + 1));
            assert(vs.skip(i as int)[0] == vs[i as int]);
        }
        let f = field_at(row, ps[i]);
        if let JsonField::Scalar(JsonScalar::Str(s)) = f {
            let t = trim_str(s.as_str());
            if !t.as_str().is_empty() {
                return Some(t);
            }
        }
        i += 1;
    }
    None
}

fn first_value_at(row: &JsonRow, ps: &Vec<(bool, usize)>) -> (r: Option<(bool, usize)>)
    requires
        forall|j: int| 0 <= j < ps@.len() ==> valid_at(*row, #[trigger] ps@[j]),
    ensures
        match r {
            Some(p) => valid_at(*row, p) && first_value(values_at(*row, ps@)) == Some(at(*row, p)),
            None => first_value(values_at(*row, ps@)) is None,
        },
{
    let ghost vs = values_at(*row, ps@);
    assert(vs.skip(0) =~= vs);
    let mut i: usize = 0;
    while i < ps.len()
        invariant
            i <= ps@.len(),
            vs == values_at(*row, ps@),
            forall|j: int| 0 <= j < ps@.len() ==> valid_at(*row, #[trigger] ps@[j]),
            first_value(vs) == first_value(vs.skip(i as int)),
        decreases ps@.len() - i,
    {
        proof {
            assert(vs.skip(i as int).drop_first() =~= vs.skip(i + 1));
            assert(vs.skip(i as int)[0] == vs[i as int]);
        }
        let f = field_at(row, ps[i]);
        let is_null = match f {
            JsonField::Scalar(JsonScalar::Null) => true,
            _ => false,
        };
        if !is_null {
            return Some(ps[i]);
        }
        i += 1;
    }
    None
}

fn integer_of(f: &JsonField) -> (r: Option<i64>)
    ensures
        r == integer_value(*f),
{
    match f {
        JsonField::Scalar(JsonScalar::Num { int: Some(i), .. }) => Some(*i),
        JsonField::Scalar(JsonScalar::Str(s)) => parse_i64_str(s.as_str()),
        _ => None,
    }
}

fn headings_of(f: &JsonField) -> (r: Vec<String>)
    ensures
        text::views(r@) == string_values(*f),
{
    let mut r: Vec<String> = Vec::new();
    match f {
        JsonField::Scalar(JsonScalar::Str(s)) => {
            let t = trim_str(s.as_str());
            if !t.as_str().is_empty() {
                r.push(t);
            }
            assert(text::views(r@) =~= string_values(*f));
        },
        JsonField::Array(xs) => {
            let mut i: usize = 0;
            while i < xs.len()
                invariant
                    i <= xs@.len(),
                    text::views(r@) == strings_of(xs@.take(i as int)),
                decreases xs@.len() - i,
            {
                proof {
                    assert(xs@.take(i + 1).drop_last() =~= xs@.take(i as int));
                }
                let ghost before = text::views(r@);
                if let JsonScalar::Str(s) = &xs[i] {
                    let t = trim_str(s.as_str());
                    if !t.as_str().is_empty() {
                        r.push(t);
                    }
                }
                assert(text::views(r@) =~= strings_of(xs@.take(i + 1)));
                i += 1;
            }
            assert(xs@.take(xs@.len() as int) =~= xs@);
        },
        _ => {
            assert(text::views(r@) =~= Seq::<Seq<char>>::empty());
        },
    }
    r
}

fn page_of_scalar(x: &JsonScalar) -> (r: Option<u32>)
    ensures
        r == page_of(*x),
{
    match x {
        JsonScalar::Num { uint: Some(p), .. } => if *p <= 4294967295 {
            Some(*p as u32)
        } else {
            None
        },
        JsonScalar::Str(s) => parse_u32_str(s.as_str()),
        _ => None,
    }
}

fn pages_in(f: &JsonField) -> (r: Vec<u32>)
    ensures
        r@ == page_list(*f),
{
    let mut r: Vec<u32> = Vec::new();
    match f {
        JsonField::Array(xs) => {
            let mut i: usize = 0;
            while i < xs.len()
                invariant
                    i <= xs@.len(),
                    r@ == pages_of(xs@.take(i as int)),
                decreases xs@.len() - i,
            {
                proof {
                    assert(xs@.take(i + 1).drop_last() =~= xs@.take(i as int));
                }
                if let Some(p) = page_of_scalar(&xs[i]) {
                    r.push(p);
                }
                assert(r@ =~= pages_of(xs@.take(i + 1)));
                i += 1;
            }
            assert(xs@.take(xs@.len() as int) =~= xs@);
        },
        JsonField::Scalar(x) => {
            if let Some(p) = page_of_scalar(x) {
                r.push(p);
            }
            let ghost one = seq![*x];
            assert(one.drop_last() =~= Seq::<JsonScalar>::empty());
            assert(one.last() == *x);
            assert(pages_of(one.drop_last()) =~= Seq::<u32>::empty());
            assert(r@ =~= pages_of(one));
        },
        JsonField::Object => {},
    }
    r
}

/// The sorted, distinct page numbers of a page field.
pub fn page_values(f: &JsonField) -> (r: Vec<u32>)
    ensures
        sorted_set_of(r@, page_list(*f)),
{
    sorted_unique(&pages_in(f))
}

fn key_list(a: &'static str, b: &'static str, c: &'static str, d: Option<&'static str>) -> (r: Vec<&'static str>)
    ensures
        r@.map_values(|k: &'static str| k@) == match d {
            Some(x) => seq![a@, b@, c@, x@],
            None => seq![a@, b@, c@],
        },
{
    let mut r: Vec<&'static str> = Vec::new();
    r.push(a);
    r.push(b);
    r.push(c);
    if let Some(x) = d {
        r.push(x);
    }
    assert(r@.map_values(|k: &'static str| k@) =~= match d {
        Some(x) => seq![a@, b@, c@, x@],
        None => seq![a@, b@, c@],
    });
    r
}

/// The passage a row holds: its text (from `text`, `content`,
/// `page_content` or `raw_text`, the first with text, trimmed), its chunk
/// number (from `chunk_index`, `chunk_id` or `id`, else its line number),
/// its headings and its pages; each looked for at the top level, then under
/// `metadata`. `None` for a row that is no object or has no text.
pub fn normalize_row(
    row: &JsonRow,
    dir_name: &str,
    paper_title: &str,
    source_path: &str,
    line_index: usize,
    metadata_json: String,
) -> (r: Option<ChunkRecord>)
    requires
        line_index <= i64::MAX,
    ensures
        match r {
            None => row.fields is None || first_string(values_for(*row, text_keys())) is None,
            Some(c) => {
                &&& row.fields is Some
                &&& first_string(values_for(*row, text_keys())) == Some(c.text@)
                &&& c.chunk_index == match first_value(values_for(*row, chunk_keys())) {
                    Some(v) => match integer_value(v) {
                        Some(i) => i,
                        None => line_index as i64,
                    },
                    None => line_index as i64,
                }
                &&& text::views(c.headings@) == match first_value(values_for(*row, heading_keys())) {
                    Some(v) => string_values(v),
                    None => Seq::empty(),
                }
                &&& sorted_set_of(c.pages@, match first_value(values_for(*row, page_keys())) {
                    Some(v) => page_list(v),
                    None => Seq::empty(),
                })
                &&& c.dir_name@ == dir_name@
                &&& c.paper_title@ == paper_title@
                &&& c.source_path@ == source_path@
                &&& c.metadata_json == metadata_json
            },
        },
{
    if row.fields.is_none() {
        return None;
    }
    let tk = key_list("text", "content", "page_content", Some("raw_text"));
    let text = match first_string_at(row, &positions_for(row, &tk)) {
        Some(t) => t,
        None => {
            return None;
        },
    };
    let ck = key_list("chunk_index", "chunk_id", "id", None);
    let chunk_index = match first_value_at(row, &positions_for(row, &ck)) {
        Some(p) => match integer_of(field_at(row, p)) {
            Some(i) => i,
            None => line_index as i64,
        },
        None => line_index as i64,
    };
    let hk = key_list("headings", "heading", "section", Some("title"));
    let headings = match first_value_at(row, &positions_for(row, &hk)) {
        Some(p) => headings_of(field_at(row, p)),
        None => {
            let none: Vec<String> = Vec::new();
            assert(text::views(none@) =~= Seq::<Seq<char>>::empty());
            none
        },
    };
    let pk = key_list("page_numbers", "page_number", "page_no", Some("page"));
    let pages = match first_value_at(row, &positions_for(row, &pk)) {
        Some(p) => page_values(field_at(row, p)),
        None => {
            let none: Vec<u32> = Vec::new();
            sorted_unique(&none)
        },
    };
    assert(text::views(headings@) == match first_value(values_for(*row, heading_keys())) {
        Some(v) => string_values(v),
        None => Seq::<Seq<char>>::empty(),
    });
    Some(ChunkRecord {
        dir_name: dir_name.to_string(),
        paper_title: paper_title.to_string(),
        source_path: source_path.to_string(),
        chunk_index,
        text,
        headings,
        pages,
        metadata_json,
    })
}

} // verus!
