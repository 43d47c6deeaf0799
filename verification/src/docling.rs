//! Passages for semantic search from a Docling document's body blocks:
//! headings carried along, blocks gathered up to a size limit, and the
//! import's counts.
use vstd::prelude::*;

use crate::storage::str_eq;
use crate::text::{self, chars_of, push_str, str_le, trim_str};

verus! {

/// Passages are closed before they grow past this many characters.
pub const MAX_PASSAGE_CHARS: usize = 1800;

/// One body item of a Docling document.
#[derive(Debug, Clone)]
pub struct Block {
    pub label: String,
    pub text: String,
    pub page: Option<u32>,
    /// The nesting level of a section header.
    pub level: Option<usize>,
}

/// A passage to embed: its text, the headings it falls under, the pages it
/// spans and the labels of its blocks (both sorted, without repeats).
#[derive(Debug, Clone)]
pub struct Passage {
    pub chunk_index: usize,
    pub text: String,
    pub headings: Vec<String>,
    pub page_numbers: Vec<u32>,
    pub labels: Vec<String>,
}

/// What an import found and wrote.
#[derive(Debug, Clone)]
pub struct ImportReport {
    pub passages: usize,
    pub body_blocks: usize,
    pub formulas: usize,
    pub pages: usize,
    pub skipped_furniture: usize,
    pub document_path: String,
    pub passages_path: String,
}

// ---------------------------------------------------------------------------
// Sorted sets
// ---------------------------------------------------------------------------
/// `r` is in strictly increasing order.
pub open spec fn strictly_increasing(r: Seq<u32>) -> bool {
    forall|i: int, j: int| 0 <= i < j < r.len() ==> #[trigger] r[i] < #[trigger] r[j]
}

/// `r` holds the values of `s`, in increasing order, each once.
pub open spec fn sorted_set_of(r: Seq<u32>, s: Seq<u32>) -> bool {
    strictly_increasing(r) && forall|x: u32| r.contains(x) <==> s.contains(x)
}

/// The values of `s`, in increasing order, each once.
pub fn sorted_unique(s: &Vec<u32>) -> (r: Vec<u32>)
    ensures
        sorted_set_of(r@, s@),
{
    let mut r: Vec<u32> = Vec::new();
    let mut i: usize = 0;
    while i < s.len()
        invariant
            i <= s@.len(),
            sorted_set_of(r@, s@.take(i as int)),
        decreases s@.len() - i,
    {
        let x = s[i];
        let mut pos: usize = 0;
        while pos < r.len() && r[pos] < x
            invariant
                pos <= r@.len(),
                forall|k: int| 0 <= k < pos ==> r@[k] < x,
            decreases r@.len() - pos,
        {
            pos += 1;
        }
        let ghost old_r = r@;
        let ghost pre = s@.take(i as int);
        let ghost nx = s@.take(i + 1);
        proof {
            assert(nx =~= pre.push(x));
        }
        if pos < r.len() && r[pos] == x {
            proof {
                assert forall|y: u32| r@.contains(y) <==> nx.contains(y) by {
                    if y == x {
                        assert(r@[pos as int] == x);
                        assert(nx[i as int] == x);
                    } else if nx.contains(y) {
                        let k = choose|k: int| 0 <= k < nx.len() && nx[k] == y;
                        assert(pre[k] == y);
                    } else if r@.contains(y) {
                        let k = choose|k: int| 0 <= k < pre.len() && pre[k] == y;
                        assert(nx[k] == y);
                    }
                }
            }
        } else {
            r.insert(pos, x);
            proof {
                assert forall|a: int, b: int| 0 <= a < b < r@.len() implies #[trigger] r@[a] < #[trigger] r@[b] by {
                    let p = pos as int;
                    if b < p {
                        assert(r@[a] == old_r[a] && r@[b] == old_r[b]);
                    } else if b == p {
                        assert(r@[a] == old_r[a]);
                    } else if a == p {
                        assert(r@[b] == old_r[b - 1]);
                        if b - 1 > p {
                            assert(old_r[p] < old_r[b - 1]);
                        }
                    } else if a < p {
                        assert(r@[a] == old_r[a] && r@[b] == old_r[b - 1]);
                    } else {
                        assert(r@[a] == old_r[a - 1] && r@[b] == old_r[b - 1]);
                    }
                }
                assert forall|y: u32| r@.contains(y) <==> nx.contains(y) by {
                    if y == x {
                        assert(r@[pos as int] == x);
                        assert(nx[i as int] == x);
                    } else {
                        if r@.contains(y) {
                            let k = choose|k: int| 0 <= k < r@.len() && r@[k] == y;
                            if k < pos {
                                assert(old_r[k] == y);
                            } else {
                                assert(old_r[k - 1] == y);
                            }
                            assert(old_r.contains(y));
                            let m = choose|m: int| 0 <= m < pre.len() && pre[m] == y;
                            assert(nx[m] == y);
                        }
                        if nx.contains(y) {
                            let k = choose|k: int| 0 <= k < nx.len() && nx[k] == y;
                            assert(pre[k] == y);
                            assert(pre.contains(y));
                            let m = choose|m: int| 0 <= m < old_r.len() && old_r[m] == y;
                            if m < pos {
                                assert(r@[m] == y);
                            } else {
                                assert(r@[m + 1] == y);
                            }
                        }
                    }
                }
            }
        }
        i += 1;
    }
    assert(s@.take(s@.len() as int) =~= s@);
    r
}

/// `a` sorts strictly before `b`.
pub open spec fn lex_lt(a: Seq<char>, b: Seq<char>) -> bool {
    text::lex_le(a, b) && a != b
}

/// `r` holds the strings of `s`, in increasing order, each once.
pub open spec fn sorted_text_set_of(r: Seq<String>, s: Seq<String>) -> bool {
    &&& forall|i: int, j: int| 0 <= i < j < r.len() ==> lex_lt(#[trigger] r[i]@, #[trigger] r[j]@)
    &&& forall|x: Seq<char>| text::views(r).contains(x) <==> text::views(s).contains(x)
}

proof fn lemma_lex_antisym(a: Seq<char>, b: Seq<char>)
    requires
        text::lex_le(a, b),
        text::lex_le(b, a),
    ensures
        a == b,
    decreases a.len(),
{
    if a.len() > 0 && b.len() > 0 && a[0] == b[0] {
        lemma_lex_antisym(a.drop_first(), b.drop_first());
        assert(a =~= seq![a[0]] + a.drop_first());
        assert(b =~= seq![b[0]] + b.drop_first());
    } else if a.len() == 0 && b.len() == 0 {
        assert(a =~= b);
    }
}

/// The strings of `s`, in increasing order, each once.
pub fn sorted_unique_text(s: &Vec<String>) -> (r: Vec<String>)
    ensures
        sorted_text_set_of(r@, s@),
{
    let mut r: Vec<String> = Vec::new();
    let mut i: usize = 0;
    while i < s.len()
        invariant
            i <= s@.len(),
            sorted_text_set_of(r@, s@.take(i as int)),
        decreases s@.len() - i,
    {
        let x = s[i].clone();
        let mut pos: usize = 0;
        while pos < r.len() && str_le(r[pos].as_str(), x.as_str()) && !str_eq(r[pos].as_str(), x.as_str())
            invariant
                pos <= r@.len(),
                forall|k: int| 0 <= k < pos ==> lex_lt(#[trigger] r@[k]@, x@),
            decreases r@.len() - pos,
        {
            pos += 1;
        }
        let ghost old_r = r@;
        let ghost pre = s@.take(i as int);
        let ghost nx = s@.take(i + 1);
        proof {
            assert(nx =~= pre.push(x));
            assert(text::views(nx) =~= text::views(pre).push(x@));
        }
        if pos < r.len() && str_eq(r[pos].as_str(), x.as_str()) {
            proof {
                assert forall|y: Seq<char>| text::views(r@).contains(y) <==> text::views(nx).contains(y) by {
                    if y == x@ {
                        assert(text::views(r@)[pos as int] == y);
                        assert(text::views(nx)[i as int] == y);
                    } else if text::views(nx).contains(y) {
                        let k = choose|k: int| 0 <= k < text::views(nx).len() && text::views(nx)[k] == y;
                        assert(text::views(pre)[k] == y);
                    } else if text::views(r@).contains(y) {
                        let k = choose|k: int| 0 <= k < text::views(pre).len() && text::views(pre)[k] == y;
                        assert(text::views(nx)[k] == y);
                    }
                }
            }
        } else {
            proof {
                if pos < r@.len() {
                    text::lemma_lex_total(r@[pos as int]@, x@);
                }
            }
            r.insert(pos, x);
            proof {
                let p = pos as int;
                assert forall|a: int, b: int| 0 <= a < b < r@.len() implies lex_lt(#[trigger] r@[a]@, #[trigger] r@[b]@) by {
                    if b < p {
                        assert(r@[a] == old_r[a] && r@[b] == old_r[b]);
                    } else if b == p {
                        assert(r@[a] == old_r[a]);
                    } else if a == p {
                        assert(r@[b] == old_r[b - 1]);
                        if b - 1 > p {
                            assert(lex_lt(old_r[p]@, old_r[b - 1]@));
                            text::lemma_lex_trans(x@, old_r[p]@, old_r[b - 1]@);
                            if x@ == old_r[b - 1]@ {
                                lemma_lex_antisym(x@, old_r[p]@);
                            }
                        }
                    } else if a < p {
                        assert(r@[a] == old_r[a] && r@[b] == old_r[b - 1]);
                        text::lemma_lex_trans(old_r[a]@, x@, old_r[p]@);
                        if old_r[a]@ == old_r[p]@ {
                            lemma_lex_antisym(x@, old_r[p]@);
                        }
                        if b - 1 > p {
                            text::lemma_lex_trans(old_r[a]@, old_r[p]@, old_r[b - 1]@);
                            if old_r[a]@ == old_r[b - 1]@ {
                                lemma_lex_antisym(old_r[a]@, old_r[p]@);
                            }
                        }
                    } else {
                        assert(r@[a] == old_r[a - 1] && r@[b] == old_r[b - 1]);
                    }
                }
                assert forall|y: Seq<char>| text::views(r@).contains(y) <==> text::views(nx).contains(y) by {
                    if y == x@ {
                        assert(text::views(r@)[p] == y);
                        assert(text::views(nx)[i as int] == y);
                    } else {
                        if text::views(r@).contains(y) {
                            let k = choose|k: int| 0 <= k < text::views(r@).len() && text::views(r@)[k] == y;
                            if k < p {
                                assert(text::views(old_r)[k] == y);
                            } else {
                                assert(text::views(old_r)[k - 1] == y);
                            }
                            assert(text::views(old_r).contains(y));
                            let m = choose|m: int| 0 <= m < text::views(pre).len() && text::views(pre)[m] == y;
                            assert(text::views(nx)[m] == y);
                        }
                        if text::views(nx).contains(y) {
                            let k = choose|k: int| 0 <= k < text::views(nx).len() && text::views(nx)[k] == y;
                            assert(text::views(pre)[k] == y);
                            assert(text::views(pre).contains(y));
                            let m = choose|m: int| 0 <= m < text::views(old_r).len() && text::views(old_r)[m] == y;
                            if m < p {
                                assert(text::views(r@)[m] == y);
                            } else {
                                assert(text::views(r@)[m + 1] == y);
                            }
                        }
                    }
                }
            }
        }
        i += 1;
    }
    assert(s@.take(s@.len() as int) =~= s@);
    r
}

// ---------------------------------------------------------------------------
// Passages
// ---------------------------------------------------------------------------
/// A passage being gathered: its text so far, the headings over it, and the
/// pages and labels of its blocks (with repeats, in order).
pub struct BuilderView {
    pub text: Seq<char>,
    pub headings: Seq<Seq<char>>,
    pub pages: Seq<u32>,
    pub labels: Seq<Seq<char>>,
}

pub open spec fn empty_builder() -> BuilderView {
    BuilderView { text: Seq::empty(), headings: Seq::empty(), pages: Seq::empty(), labels: Seq::empty() }
}

/// A block's text as it goes into a passage: formulas in display-math
/// brackets, code fenced, list items bulleted.
pub open spec fn wrapped(label: Seq<char>, t: Seq<char>) -> Seq<char> {
    if label == "formula"@ {
        "\\[\n"@ + t + "\n\\]"@
    } else if label == "code"@ {
        "```\n"@ + t + "\n```"@
    } else if label == "list_item"@ {
        "- "@ + t
    } else {
        t
    }
}

/// A builder with one more block, set off by a blank line.
pub open spec fn appended(b: BuilderView, label: Seq<char>, t: Seq<char>, page: Option<u32>) -> BuilderView {
    BuilderView {
        text: (if b.text.len() > 0 {
            b.text + "\n\n"@
        } else {
            b.text
        }) + wrapped(label, t),
        pages: match page {
            Some(p) => b.pages.push(p),
            None => b.pages,
        },
        labels: b.labels.push(label),
        ..b
    }
}

/// A finished passage: its index, trimmed text, headings, and the pages and
/// labels of its blocks.
pub struct PassageView {
    pub chunk_index: nat,
    pub text: Seq<char>,
    pub headings: Seq<Seq<char>>,
    pub pages: Seq<u32>,
    pub labels: Seq<Seq<char>>,
}

/// The scan over a document's blocks: passages finished, the current
/// heading trail, and the passage being gathered.
pub struct PassageScan {
    pub passages: Seq<PassageView>,
    pub headings: Seq<Seq<char>>,
    pub current: BuilderView,
}

/// Closing the current passage: kept when its trimmed text is not empty.
pub open spec fn flushed(st: PassageScan) -> PassageScan {
    let t = text::trim(st.current.text);
    PassageScan {
        passages: if t.len() > 0 {
            st.passages.push(
                PassageView {
                    chunk_index: st.passages.len(),
                    text: t,
                    headings: st.current.headings,
                    pages: st.current.pages,
                    labels: st.current.labels,
                },
            )
        } else {
            st.passages
        },
        current: empty_builder(),
        ..st
    }
}

/// One block: a section header closes the passage and becomes the heading
/// at its level (a missing level counts as 1); any other block joins the
/// current passage, which is first closed when it holds text, the block is
/// not a formula, and together they would pass the size limit.
pub open spec fn passage_step(st: PassageScan, b: Block) -> PassageScan {
    if b.label@ == "section_header"@ {
        let f = flushed(st);
        let level: int = match b.level {
            Some(l) => if l >= 1 {
                l as int
            } else {
                1
            },
            None => 1,
        };
        let keep = if level - 1 < st.headings.len() {
            level - 1
        } else {
            st.headings.len() as int
        };
        let h = st.headings.take(keep).push(b.text@);
        PassageScan { passages: f.passages, headings: h, current: BuilderView { headings: h, ..empty_builder() } }
    } else {
        let st1 = if st.current.text.len() > 0 && b.label@ != "formula"@ && st.current.text.len() + b.text@.len()
            + 8 > MAX_PASSAGE_CHARS {
            let f = flushed(st);
            PassageScan { current: BuilderView { headings: st.headings, ..empty_builder() }, ..f }
        } else {
            st
        };
        let cur = if st1.current.headings.len() == 0 {
            BuilderView { headings: st1.headings, ..st1.current }
        } else {
            st1.current
        };
        PassageScan { current: appended(cur, b.label@, b.text@, b.page), ..st1 }
    }
}

pub open spec fn passage_scan(blocks: Seq<Block>, n: int) -> PassageScan
    decreases n,
{
    if n <= 0 {
        PassageScan { passages: Seq::empty(), headings: Seq::empty(), current: empty_builder() }
    } else {
        passage_step(passage_scan(blocks, n - 1), blocks[n - 1])
    }
}

/// The passages of a document's blocks.
pub open spec fn passages_of(blocks: Seq<Block>) -> Seq<PassageView> {
    flushed(passage_scan(blocks, blocks.len() as int)).passages
}

/// A passage stands for its view: same index, text and headings, and its
/// pages and labels sorted without repeats.
pub open spec fn passage_is(p: Passage, v: PassageView) -> bool {
    &&& p.chunk_index == v.chunk_index
    &&& p.text@ == v.text
    &&& text::views(p.headings@) == v.headings
    &&& sorted_set_of(p.page_numbers@, v.pages)
    &&& forall|i: int, j: int|
        0 <= i < j < p.labels@.len() ==> lex_lt(#[trigger] p.labels@[i]@, #[trigger] p.labels@[j]@)
    &&& forall|x: Seq<char>| text::views(p.labels@).contains(x) <==> v.labels.contains(x)
}

/// A passage being gathered.
struct Builder {
    text: String,
    headings: Vec<String>,
    pages: Vec<u32>,
    labels: Vec<String>,
}

spec fn builder_view(b: Builder) -> BuilderView {
    BuilderView { text: b.text@, headings: text::views(b.headings@), pages: b.pages@, labels: text::views(b.labels@) }
}

fn new_builder(headings: Vec<String>) -> (b: Builder)
    ensures
        builder_view(b) == (BuilderView { headings: text::views(headings@), ..empty_builder() }),
{
    let b = Builder { text: String::new(), headings, pages: Vec::new(), labels: Vec::new() };
    proof {
        assert(text::views(b.labels@) =~= Seq::<Seq<char>>::empty());
    }
    b
}

fn copy_headings(h: &Vec<String>) -> (r: Vec<String>)
    ensures
        text::views(r@) == text::views(h@),
{
    let r = crate::model::clone_strings(h);
    r
}

/// Closes the current passage onto `passages`.
fn flush(current: Builder, passages: &mut Vec<Passage>)
    ensures
        final(passages)@.len() == old(passages)@.len() + (if text::trim(current.text@).len() > 0 {
            1int
        } else {
            0
        }),
        forall|k: int| 0 <= k < old(passages)@.len() ==> final(passages)@[k] == old(passages)@[k],
        text::trim(current.text@).len() > 0 ==> passage_is(
            final(passages)@[old(passages)@.len() as int],
            PassageView {
                chunk_index: old(passages)@.len(),
                text: text::trim(current.text@),
                headings: text::views(current.headings@),
                pages: current.pages@,
                labels: text::views(current.labels@),
            },
        ),
{
    let t = trim_str(current.text.as_str());
    if t.as_str().is_empty() {
        return;
    }
    let pages = sorted_unique(&current.pages);
    let labels = sorted_unique_text(&current.labels);
    let p = Passage { chunk_index: passages.len(), text: t, headings: current.headings, page_numbers: pages, labels };
    passages.push(p);
}

fn char_count(s: &str) -> (n: usize)
    ensures
        n == s@.len(),
{
    let v = chars_of(s);
    v.len()
}

fn append(b: &mut Builder, block: &Block)
    ensures
        builder_view(*final(b)) == appended(builder_view(*old(b)), block.label@, block.text@, block.page),
{
    proof {
        reveal_strlit("formula");
        reveal_strlit("code");
        reveal_strlit("list_item");
    }
    if !b.text.as_str().is_empty() {
        push_str(&mut b.text, "\n\n");
    }
    if str_eq(block.label.as_str(), "formula") {
        push_str(&mut b.text, "\\[\n");
        push_str(&mut b.text, block.text.as_str());
        push_str(&mut b.text, "\n\\]");
    } else if str_eq(block.label.as_str(), "code") {
        push_str(&mut b.text, "```\n");
        push_str(&mut b.text, block.text.as_str());
        push_str(&mut b.text, "\n```");
    } else if str_eq(block.label.as_str(), "list_item") {
        push_str(&mut b.text, "- ");
        push_str(&mut b.text, block.text.as_str());
    } else {
        push_str(&mut b.text, block.text.as_str());
    }
    if let Some(page) = block.page {
        b.pages.push(page);
    }
    b.labels.push(block.label.clone());
    proof {
        assert(text::views(b.labels@) =~= text::views(old(b).labels@).push(block.label@));
        let w = wrapped(block.label@, block.text@);
        let base = if old(b).text@.len() > 0 {
            old(b).text@ + "\n\n"@
        } else {
            old(b).text@
        };
        assert(b.text@ =~= base + w);
    }
}

/// The passages of a Docling document's body blocks, in order.
pub fn build_passages(blocks: &Vec<Block>) -> (r: Vec<Passage>)
    ensures
        r@.len() == passages_of(blocks@).len(),
        forall|k: int| 0 <= k < r@.len() ==> passage_is(#[trigger] r@[k], passages_of(blocks@)[k]),
{
    let mut passages: Vec<Passage> = Vec::new();
    let mut headings: Vec<String> = Vec::new();
    let mut current = new_builder(Vec::new());
    let mut i: usize = 0;
    proof {
        reveal_strlit("section_header");
        reveal_strlit("formula");
        assert(text::views(headings@) =~= Seq::<Seq<char>>::empty());
        assert(builder_view(current) =~~= empty_builder());
    }
    while i < blocks.len()
        invariant
            i <= blocks@.len(),
            ({
                let st = passage_scan(blocks@, i as int);
                &&& passages@.len() == st.passages.len()
                &&& forall|k: int| 0 <= k < passages@.len() ==> passage_is(#[trigger] passages@[k], st.passages[k])
                &&& text::views(headings@) == st.headings
                &&& builder_view(current) == st.current
            }),
        decreases blocks@.len() - i,
    {
        let block = &blocks[i];
        let ghost st = passage_scan(blocks@, i as int);
        if str_eq(block.label.as_str(), "section_header") {
            let done = current;
            let ghost before = passages@;
            flush(done, &mut passages);
            let level: usize = match block.level {
                Some(l) => if l >= 1 {
                    l
                } else {
                    1
                },
                None => 1,
            };
            let keep = if level - 1 < headings.len() {
                level - 1
            } else {
                headings.len()
            };
            headings.truncate(keep);
            headings.push(block.text.clone());
            current = new_builder(copy_headings(&headings));
            proof {
                let f = flushed(st);
                assert forall|k: int| 0 <= k < passages@.len() implies passage_is(#[trigger] passages@[k], f.passages[k]) by {
                    if k < before.len() {
                        assert(passages@[k] == before[k]);
                    }
                }
                assert(text::views(headings@) =~= st.headings.take(keep as int).push(block.text@));
            }
        } else {
            let a = char_count(current.text.as_str());
            let c = char_count(block.text.as_str());
            let too_long = a > 1792 || c > 1792 || a + c + 8 > MAX_PASSAGE_CHARS;
            if a > 0 && !str_eq(block.label.as_str(), "formula") && too_long {
                let done = current;
                let ghost before = passages@;
                flush(done, &mut passages);
                current = new_builder(copy_headings(&headings));
                proof {
                    let f = flushed(st);
                    assert forall|k: int| 0 <= k < passages@.len() implies passage_is(#[trigger] passages@[k], f.passages[k]) by {
                        if k < before.len() {
                            assert(passages@[k] == before[k]);
                        }
                    }
                }
            }
            if current.headings.len() == 0 {
                current.headings = copy_headings(&headings);
            }
            append(&mut current, block);
        }
        i += 1;
    }
    let ghost st = passage_scan(blocks@, blocks@.len() as int);
    let ghost before = passages@;
    flush(current, &mut passages);
    proof {
        let f = flushed(st);
        assert forall|k: int| 0 <= k < passages@.len() implies passage_is(#[trigger] passages@[k], f.passages[k]) by {
            if k < before.len() {
                assert(passages@[k] == before[k]);
            }
        }
    }
    passages
}

// ---------------------------------------------------------------------------
// The import
// ---------------------------------------------------------------------------
/// The label standing for a block outside the body (page furniture).
pub open spec fn is_furniture(b: Block) -> bool {
    b.label@ == "__furniture__"@
}

pub open spec fn count_label(blocks: Seq<Block>, label: Seq<char>) -> nat
    decreases blocks.len(),
{
    if blocks.len() == 0 {
        0
    } else {
        count_label(blocks.drop_last(), label) + if blocks.last().label@ == label {
            1nat
        } else {
            0nat
        }
    }
}

pub open spec fn count_not_label(blocks: Seq<Block>, label: Seq<char>) -> nat
    decreases blocks.len(),
{
    if blocks.len() == 0 {
        0
    } else {
        count_not_label(blocks.drop_last(), label) + if blocks.last().label@ != label {
            1nat
        } else {
            0nat
        }
    }
}

/// The body blocks: those that are not page furniture, in order.
pub open spec fn body(blocks: Seq<Block>) -> Seq<Block>
    decreases blocks.len(),
{
    if blocks.len() == 0 {
        blocks
    } else if is_furniture(blocks.last()) {
        body(blocks.drop_last())
    } else {
        body(blocks.drop_last()).push(blocks.last())
    }
}

/// Every page number of the passages, in order.
pub open spec fn all_pages(ps: Seq<Passage>) -> Seq<u32>
    decreases ps.len(),
{
    if ps.len() == 0 {
        Seq::empty()
    } else {
        all_pages(ps.drop_last()) + ps.last().page_numbers@
    }
}

/// An import whose document has no passage of text.
#[derive(Debug, Clone, Copy, PartialEq, Eq, Structural)]
pub enum ImportError {
    NoBodyText,
}

impl ImportError {
    pub fn message(&self) -> (m: &'static str)
        ensures
            m@ == "Docling document has no indexable body text"@,
    {
        "Docling document has no indexable body text"
    }
}

proof fn lemma_counts_bounded(blocks: Seq<Block>, label: Seq<char>)
    ensures
        count_label(blocks, label) <= blocks.len(),
        count_not_label(blocks, label) <= blocks.len(),
    decreases blocks.len(),
{
    if blocks.len() > 0 {
        lemma_counts_bounded(blocks.drop_last(), label);
    }
}

fn count_blocks(blocks: &Vec<Block>, label: &str, equal: bool) -> (n: usize)
    ensures
        n == if equal {
            count_label(blocks@, label@)
        } else {
            count_not_label(blocks@, label@)
        },
{
    let mut n: usize = 0;
    let mut i: usize = 0;
    while i < blocks.len()
        invariant
            i <= blocks@.len(),
            n == if equal {
                count_label(blocks@.take(i as int), label@)
            } else {
                count_not_label(blocks@.take(i as int), label@)
            },
        decreases blocks@.len() - i,
    {
        proof {
            assert(blocks@.take(i + 1).drop_last() =~= blocks@.take(i as int));
            lemma_counts_bounded(blocks@.take(i as int), label@);
        }
        if str_eq(blocks[i].label.as_str(), label) == equal {
            n += 1;
        }
        i += 1;
    }
    assert(blocks@.take(blocks@.len() as int) =~= blocks@);
    n
}

fn copy_block(b: &Block) -> (c: Block)
    ensures
        c == *b,
{
    Block { label: b.label.clone(), text: b.text.clone(), page: b.page, level: b.level }
}

/// Summarizes an import from the blocks collected from the document (page
/// furniture marked by its label) and where the files were written: the
/// passages built from the body blocks, and the counts of passages, body
/// blocks (other than section headers), formulas, distinct pages and
/// skipped furniture. A document without any passage is refused.
pub fn summarize_import(blocks: Vec<Block>, document_path: String, passages_path: String) -> (r: Result<
    (ImportReport, Vec<Passage>),
    ImportError,
>)
    ensures
        ({
            let b = body(blocks@);
            let ps = passages_of(b);
            match r {
                Err(_) => ps.len() == 0,
                Ok((report, passages)) => {
                    &&& ps.len() > 0
                    &&& passages@.len() == ps.len()
                    &&& forall|k: int| 0 <= k < passages@.len() ==> passage_is(#[trigger] passages@[k], ps[k])
                    &&& report.passages == ps.len()
                    &&& report.skipped_furniture == count_label(blocks@, "__furniture__"@)
                    &&& report.body_blocks == count_not_label(b, "section_header"@)
                    &&& report.formulas == count_label(b, "formula"@)
                    &&& exists|u: Seq<u32>| sorted_set_of(u, all_pages(passages@)) && report.pages == u.len()
                    &&& report.document_path == document_path
                    &&& report.passages_path == passages_path
                },
            }
        }),
{
    let skipped = count_blocks(&blocks, "__furniture__", true);
    let mut kept: Vec<Block> = Vec::new();
    let mut i: usize = 0;
    while i < blocks.len()
        invariant
            i <= blocks@.len(),
            kept@ == body(blocks@.take(i as int)),
        decreases blocks@.len() - i,
    {
        assert(blocks@.take(i + 1).drop_last() =~= blocks@.take(i as int));
        if !str_eq(blocks[i].label.as_str(), "__furniture__") {
            kept.push(copy_block(&blocks[i]));
        }
        i += 1;
    }
    assert(blocks@.take(blocks@.len() as int) =~= blocks@);
    let body_blocks = count_blocks(&kept, "section_header", false);
    let formulas = count_blocks(&kept, "formula", true);
    let passages = build_passages(&kept);
    if passages.len() == 0 {
        return Err(ImportError::NoBodyText);
    }
    let mut pages_all: Vec<u32> = Vec::new();
    let mut k: usize = 0;
    while k < passages.len()
        invariant
            k <= passages@.len(),
            pages_all@ == all_pages(passages@.take(k as int)),
        decreases passages@.len() - k,
    {
        assert(passages@.take(k + 1).drop_last() =~= passages@.take(k as int));
        let mut j: usize = 0;
        let ghost before = pages_all@;
        while j < passages[k].page_numbers.len()
            invariant
                k < passages@.len(),
                j <= passages@[k as int].page_numbers@.len(),
                pages_all@ == before + passages@[k as int].page_numbers@.take(j as int),
            decreases passages@[k as int].page_numbers@.len() - j,
        {
            pages_all.push(passages[k].page_numbers[j]);
            assert(passages@[k as int].page_numbers@.take(j + 1) =~= passages@[k as int].page_numbers@.take(
                j as int,
            ).push(passages@[k as int].page_numbers@[j as int]));
            j += 1;
        }
        assert(passages@[k as int].page_numbers@.take(j as int) =~= passages@[k as int].page_numbers@);
        k += 1;
    }
    assert(passages@.take(passages@.len() as int) =~= passages@);
    let distinct = sorted_unique(&pages_all);
    let report = ImportReport {
        passages: passages.len(),
        body_blocks,
        formulas,
        pages: distinct.len(),
        skipped_furniture: skipped,
        document_path,
        passages_path,
    };
    Ok((report, passages))
}

} // verus!
