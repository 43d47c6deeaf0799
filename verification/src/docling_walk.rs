//! The body blocks of a Docling document, in reading order: a depth-first
//! walk from the body's children through `$ref` links, each reference
//! visited once. The document is held as a table of its JSON values, each
//! under its JSON pointer, with the fields the walk reads.
use vstd::prelude::*;

use crate::docling::Block;
use crate::inline_math::{inline_math, normalize_inline_math};
use crate::storage::str_eq;
use crate::text::{self, push_str, str_starts_with, trim_str};

verus! {

/// A JSON field read as a string: missing, a string, or another value.
#[derive(Debug, Clone, PartialEq, Eq)]
pub enum JsonText {
    Absent,
    Str(String),
    Other,
}

/// One JSON value of a Docling document: its JSON pointer (such as
/// `/texts/3`) and the fields the walk reads (`None` where the field is
/// missing or not of the expected type).
#[derive(Debug, Clone)]
pub struct DocItem {
    pub pointer: String,
    pub content_layer: Option<String>,
    pub label: Option<String>,
    pub text: JsonText,
    pub orig: Option<String>,
    /// `prov[0].page_no`, when it is a non-negative integer.
    pub page_no: Option<u64>,
    pub level: Option<u64>,
    /// The `$ref` of each entry of `children` (`None` for an entry without a
    /// string `$ref`); empty when there is no `children` array.
    pub children: Vec<Option<String>>,
}

/// A Docling document: its `schema_name`, the `$ref`s of `body.children`
/// (`None` when there is no such array), and its values.
#[derive(Debug, Clone)]
pub struct DoclingDoc {
    pub schema_name: Option<String>,
    pub body_children: Option<Vec<Option<String>>>,
    pub items: Vec<DocItem>,
}

/// Why a document's blocks cannot be read.
#[derive(Debug, Clone, PartialEq, Eq)]
pub enum DocError {
    NotDocling,
    NoBody,
    ChildWithoutRef,
    NotLocal,
    Unresolved(String),
}

impl DocError {
    pub fn message(&self) -> (m: String)
        ensures
            m@ == match self {
                DocError::NotDocling => "Expected a DoclingDocument JSON file"@,
                DocError::NoBody => "Docling document has no body children"@,
                DocError::ChildWithoutRef => "Docling body child has no $ref"@,
                DocError::NotLocal => "Docling reference must start with #"@,
                DocError::Unresolved(r) => "Docling reference does not resolve: "@ + r@,
            },
    {
        match self {
            DocError::NotDocling => "Expected a DoclingDocument JSON file".to_string(),
            DocError::NoBody => "Docling document has no body children".to_string(),
            DocError::ChildWithoutRef => "Docling body child has no $ref".to_string(),
            DocError::NotLocal => "Docling reference must start with #".to_string(),
            DocError::Unresolved(r) => {
                let mut m = "Docling reference does not resolve: ".to_string();
                push_str(&mut m, r.as_str());
                m
            },
        }
    }
}

/// `DocError` as the contracts speak of it.
pub enum DocFault {
    NotDocling,
    NoBody,
    ChildWithoutRef,
    NotLocal,
    Unresolved(Seq<char>),
}

pub open spec fn fault_of(e: DocError) -> DocFault {
    match e {
        DocError::NotDocling => DocFault::NotDocling,
        DocError::NoBody => DocFault::NoBody,
        DocError::ChildWithoutRef => DocFault::ChildWithoutRef,
        DocError::NotLocal => DocFault::NotLocal,
        DocError::Unresolved(r) => DocFault::Unresolved(r@),
    }
}

pub type BlockView = (Seq<char>, Seq<char>, Option<u32>, Option<usize>);

pub open spec fn block_view(b: Block) -> BlockView {
    (b.label@, b.text@, b.page, b.level)
}

pub open spec fn blocks_view(bs: Seq<Block>) -> Seq<BlockView> {
    bs.map_values(|b: Block| block_view(b))
}

pub open spec fn refs_view(cs: Seq<Option<String>>) -> Seq<Option<Seq<char>>> {
    cs.map_values(|c: Option<String>| text::opt_view(c))
}

/// The reference that names an item: `#` and its pointer.
pub open spec fn item_key(it: DocItem) -> Seq<char> {
    seq!['#'] + it.pointer@
}

/// The first item from `i` on that `r` names.
pub open spec fn find_item(items: Seq<DocItem>, r: Seq<char>, i: int) -> Option<int>
    decreases items.len() - i,
{
    if i < 0 || i >= items.len() {
        None
    } else if item_key(items[i]) == r {
        Some(i)
    } else {
        find_item(items, r, i + 1)
    }
}

/// The block a text item gives: a furniture marker outside the body layer,
/// nothing for page headers and footers or empty text, else its label, its
/// trimmed text (inline mathematics tidied, but for formulas), its page and
/// its level.
pub open spec fn text_blocks(it: DocItem) -> Seq<BlockView> {
    let layer = match it.content_layer {
        Some(s) => s@,
        None => "body"@,
    };
    if layer != "body"@ {
        seq![("__furniture__"@, Seq::<char>::empty(), None::<u32>, None::<usize>)]
    } else {
        let label = label_of(it);
        if label == "page_header"@ || label == "page_footer"@ {
            Seq::empty()
        } else {
            let t = text::trim(raw_text_of(it));
            if t.len() == 0 {
                Seq::empty()
            } else {
                let body = if label == "formula"@ {
                    t
                } else {
                    inline_math(t)
                };
                let page = match it.page_no {
                    Some(p) => if p <= u32::MAX {
                        Some(p as u32)
                    } else {
                        None
                    },
                    None => None,
                };
                let level = match it.level {
                    Some(l) => if l <= usize::MAX {
                        Some(l as usize)
                    } else {
                        None
                    },
                    None => None,
                };
                seq![(label, body, page, level)]
            }
        }
    }
}

/// The item's label, `text` when it has none.
pub open spec fn label_of(it: DocItem) -> Seq<char> {
    match it.label {
        Some(s) => s@,
        None => "text"@,
    }
}

/// The item's `text`, or its `orig` when it has no `text` field at all.
pub open spec fn raw_text_of(it: DocItem) -> Seq<char> {
    let raw = match it.text {
        JsonText::Absent => text::opt_view(it.orig),
        JsonText::Str(s) => Some(s@),
        JsonText::Other => None,
    };
    match raw {
        Some(s) => s,
        None => Seq::empty(),
    }
}

pub open spec fn prepend(b: Seq<BlockView>, r: Result<Seq<BlockView>, DocFault>) -> Result<
    Seq<BlockView>,
    DocFault,
> {
    match r {
        Ok(rest) => Ok(b + rest),
        Err(e) => Err(e),
    }
}

/// Visits reference `r` with the references already `seen`: the blocks it
/// gives and the references seen afterwards. A reference seen before gives
/// nothing; pictures give nothing (their labels are not prose); a text item
/// gives its block; any other value gives the blocks of its children in
/// order. `fuel` bounds the depth: each level down marks one more item seen,
/// so a fuel of at least the number of unseen items is never used up.
pub open spec fn walk(items: Seq<DocItem>, r: Seq<char>, seen: Seq<Seq<char>>, fuel: nat) -> (
    Result<Seq<BlockView>, DocFault>,
    Seq<Seq<char>>,
)
    decreases fuel, 0int,
{
    if seen.contains(r) {
        (Ok(Seq::empty()), seen)
    } else {
        let seen1 = seen.push(r);
        if text::starts_with(r, "#/pictures/"@) {
            (Ok(Seq::empty()), seen1)
        } else if !(r.len() > 0 && r[0] == '#') {
            (Err(DocFault::NotLocal), seen1)
        } else {
            match find_item(items, r, 0) {
                None => (Err(DocFault::Unresolved(r)), seen1),
                Some(i) => if text::starts_with(r, "#/texts/"@) {
                    (Ok(text_blocks(items[i])), seen1)
                } else if fuel == 0 {
                    (Ok(Seq::empty()), seen1)
                } else {
                    walk_children(items, refs_view(items[i].children@), 0, seen1, (fuel - 1) as nat)
                },
            }
        }
    }
}

/// Visits the children `cs[k..]` in order, skipping entries without a
/// reference, and stops at the first error.
pub open spec fn walk_children(
    items: Seq<DocItem>,
    cs: Seq<Option<Seq<char>>>,
    k: int,
    seen: Seq<Seq<char>>,
    fuel: nat,
) -> (Result<Seq<BlockView>, DocFault>, Seq<Seq<char>>)
    decreases fuel, cs.len() - k,
{
    if k < 0 || k >= cs.len() {
        (Ok(Seq::empty()), seen)
    } else {
        match cs[k] {
            None => walk_children(items, cs, k + 1, seen, fuel),
            Some(c) => {
                let (r1, s1) = walk(items, c, seen, fuel);
                match r1 {
                    Err(e) => (Err(e), s1),
                    Ok(b1) => {
                        let (r2, s2) = walk_children(items, cs, k + 1, s1, fuel);
                        (prepend(b1, r2), s2)
                    },
                }
            },
        }
    }
}

/// Visits the body's children `cs[k..]` in order; an entry without a
/// reference is an error.
pub open spec fn walk_body(items: Seq<DocItem>, cs: Seq<Option<Seq<char>>>, k: int, seen: Seq<Seq<char>>) -> (
    Result<Seq<BlockView>, DocFault>,
    Seq<Seq<char>>,
)
    decreases cs.len() - k,
{
    if k < 0 || k >= cs.len() {
        (Ok(Seq::empty()), seen)
    } else {
        match cs[k] {
            None => (Err(DocFault::ChildWithoutRef), seen),
            Some(c) => {
                let (r1, s1) = walk(items, c, seen, items.len());
                match r1 {
                    Err(e) => (Err(e), s1),
                    Ok(b1) => {
                        let (r2, s2) = walk_body(items, cs, k + 1, s1);
                        (prepend(b1, r2), s2)
                    },
                }
            },
        }
    }
}

/// The blocks of a document, or why it cannot be read.
pub open spec fn document_blocks_of(doc: DoclingDoc) -> Result<Seq<BlockView>, DocFault> {
    if text::opt_view(doc.schema_name) != Some("DoclingDocument"@) {
        Err(DocFault::NotDocling)
    } else {
        match doc.body_children {
            None => Err(DocFault::NoBody),
            Some(cs) => walk_body(doc.items@, refs_view(cs@), 0, Seq::empty()).0,
        }
    }
}

// ---------------------------------------------------------------------------
// How many items are still unseen
// ---------------------------------------------------------------------------
pub open spec fn unseen(items: Seq<DocItem>, seen: Seq<Seq<char>>) -> nat
    decreases items.len(),
{
    if items.len() == 0 {
        0
    } else {
        unseen(items.drop_last(), seen) + if seen.contains(item_key(items.last())) {
            0nat
        } else {
            1nat
        }
    }
}

proof fn lemma_unseen_bound(items: Seq<DocItem>, seen: Seq<Seq<char>>)
    ensures
        unseen(items, seen) <= items.len(),
    decreases items.len(),
{
    if items.len() > 0 {
        lemma_unseen_bound(items.drop_last(), seen);
    }
}

proof fn lemma_unseen_mono(items: Seq<DocItem>, s1: Seq<Seq<char>>, s2: Seq<Seq<char>>)
    requires
        forall|x: Seq<char>| s1.contains(x) ==> s2.contains(x),
    ensures
        unseen(items, s2) <= unseen(items, s1),
    decreases items.len(),
{
    if items.len() > 0 {
        lemma_unseen_mono(items.drop_last(), s1, s2);
    }
}

proof fn lemma_find_item(items: Seq<DocItem>, r: Seq<char>, j: int)
    requires
        0 <= j,
    ensures
        find_item(items, r, j) matches Some(i) ==> j <= i < items.len() && item_key(items[i]) == r,
    decreases items.len() - j,
{
    if j < items.len() && item_key(items[j]) != r {
        lemma_find_item(items, r, j + 1);
    }
}

proof fn lemma_unseen_insert(items: Seq<DocItem>, seen: Seq<Seq<char>>, r: Seq<char>, i: int)
    requires
        0 <= i < items.len(),
        item_key(items[i]) == r,
        !seen.contains(r),
    ensures
        unseen(items, seen.push(r)) < unseen(items, seen),
    decreases items.len(),
{
    let s2 = seen.push(r);
    assert forall|x: Seq<char>| seen.contains(x) implies s2.contains(x) by {
        let w = choose|j: int| 0 <= j < seen.len() && seen[j] == x;
        assert(s2[w] == x);
    }
    assert(s2[seen.len() as int] == r);
    if i == items.len() - 1 {
        lemma_unseen_mono(items.drop_last(), seen, s2);
    } else {
        assert(items.drop_last()[i] == items[i]);
        lemma_unseen_insert(items.drop_last(), seen, r, i);
    }
}

// ---------------------------------------------------------------------------
// The walk
// ---------------------------------------------------------------------------
fn opt_copy(o: &Option<String>) -> (r: Option<String>)
    ensures
        r == *o,
{
    match o {
        Some(s) => Some(s.clone()),
        None => None,
    }
}

fn text_block(it: &DocItem) -> (r: Option<Block>)
    ensures
        match r {
            Some(b) => text_blocks(*it) == seq![block_view(b)],
            None => text_blocks(*it).len() == 0,
        },
{
    let layer_is_body = match &it.content_layer {
        Some(s) => str_eq(s.as_str(), "body"),
        None => true,
    };
    if !layer_is_body {
        let b = Block { label: "__furniture__".to_string(), text: String::new(), page: None, level: None };
        return Some(b);
    }
    let label = match &it.label {
        Some(s) => s.clone(),
        None => "text".to_string(),
    };
    if str_eq(label.as_str(), "page_header") || str_eq(label.as_str(), "page_footer") {
        return None;
    }
    let raw = match &it.text {
        JsonText::Absent => opt_copy(&it.orig),
        JsonText::Str(s) => Some(s.clone()),
        JsonText::Other => None,
    };
    let t = match raw {
        Some(s) => trim_str(s.as_str()),
        None => String::new(),
    };
    if t.as_str().is_empty() {
        return None;
    }
    let body = if str_eq(label.as_str(), "formula") {
        t
    } else {
        normalize_inline_math(t.as_str())
    };
    let page = match it.page_no {
        Some(p) => if p <= 0xffff_ffff {
            Some(p as u32)
        } else {
            None
        },
        None => None,
    };
    let level = match it.level {
        Some(l) => if l <= usize::MAX as u64 {
            Some(l as usize)
        } else {
            None
        },
        None => None,
    };
    proof {
        assert(label@ == label_of(*it));
        assert(t@ == text::trim(raw_text_of(*it)));
    }
    Some(Block { label, text: body, page, level })
}

fn key_matches(pointer: &str, rv: &Vec<char>) -> (b: bool)
    ensures
        b == (seq!['#'] + pointer@ == rv@),
{
    let pv = text::chars_of(pointer);
    if rv.len() == 0 || rv.len() - 1 != pv.len() || rv[0] != '#' {
        assert(rv@.len() != (seq!['#'] + pointer@).len() || rv@[0] != (seq!['#'] + pointer@)[0]);
        return false;
    }
    let mut i: usize = 0;
    while i < pv.len()
        invariant
            i <= pv@.len(),
            pv@ == pointer@,
            rv@.len() == pv@.len() + 1,
            rv@[0] == '#',
            forall|j: int| 0 <= j < i ==> rv@[j + 1] == pv@[j],
        decreases pv@.len() - i,
    {
        if rv[i + 1] != pv[i] {
            assert((seq!['#'] + pointer@)[i + 1] == pv@[i as int]);
            return false;
        }
        i += 1;
    }
    assert(seq!['#'] + pointer@ =~= rv@);
    true
}

fn find_index(items: &Vec<DocItem>, rv: &Vec<char>) -> (res: Option<usize>)
    ensures
        match res {
            Some(i) => find_item(items@, rv@, 0) == Some(i as int),
            None => find_item(items@, rv@, 0) is None,
        },
{
    let mut j: usize = 0;
    while j < items.len()
        invariant
            j <= items@.len(),
            find_item(items@, rv@, 0) == find_item(items@, rv@, j as int),
        decreases items@.len() - j,
    {
        if key_matches(items[j].pointer.as_str(), rv) {
            return Some(j);
        }
        j += 1;
    }
    None
}

fn seen_contains(seen: &Vec<String>, r: &str) -> (b: bool)
    ensures
        b == text::views(seen@).contains(r@),
{
    let mut i: usize = 0;
    while i < seen.len()
        invariant
            i <= seen@.len(),
            forall|j: int| 0 <= j < i ==> text::views(seen@)[j] != r@,
        decreases seen@.len() - i,
    {
        if str_eq(seen[i].as_str(), r) {
            assert(text::views(seen@)[i as int] == r@);
            return true;
        }
        i += 1;
    }
    false
}

/// Visits `r`: pushes its blocks onto `blocks` and the references it visits
/// onto `seen`.
fn walk_ref(items: &Vec<DocItem>, r: &str, seen: &mut Vec<String>, blocks: &mut Vec<Block>, Ghost(fuel): Ghost<nat>) -> (res: Result<(), DocError>)
    requires
        fuel >= unseen(items@, text::views(old(seen)@)),
    ensures
        forall|x: Seq<char>| text::views(old(seen)@).contains(x) ==> text::views(final(seen)@).contains(x),
        ({
            let (sr, ss) = walk(items@, r@, text::views(old(seen)@), fuel);
            &&& text::views(final(seen)@) == ss
            &&& match sr {
                Ok(b) => res is Ok && blocks_view(final(blocks)@) == blocks_view(old(blocks)@) + b,
                Err(f) => res matches Err(e) && fault_of(e) == f,
            }
        }),
    decreases fuel, 0int,
{
    let ghost s0 = text::views(seen@);
    let ghost b0 = blocks_view(blocks@);
    if seen_contains(seen, r) {
        assert(b0 + Seq::<BlockView>::empty() =~= b0);
        return Ok(());
    }
    seen.push(r.to_string());
    let ghost s1 = text::views(seen@);
    assert(s1 =~= s0.push(r@));
    assert forall|x: Seq<char>| s0.contains(x) implies s1.contains(x) by {
        let w = choose|j: int| 0 <= j < s0.len() && s0[j] == x;
        assert(s1[w] == x);
    }
    if str_starts_with(r, "#/pictures/") {
        assert(b0 + Seq::<BlockView>::empty() =~= b0);
        return Ok(());
    }
    let rv = text::chars_of(r);
    if !(rv.len() > 0 && rv[0] == '#') {
        return Err(DocError::NotLocal);
    }
    match find_index(items, &rv) {
        None => Err(DocError::Unresolved(r.to_string())),
        Some(i) => {
            proof {
                lemma_find_item(items@, r@, 0);
            }
            if str_starts_with(r, "#/texts/") {
                match text_block(&items[i]) {
                    Some(b) => {
                        blocks.push(b);
                        assert(blocks_view(blocks@) =~= b0 + seq![block_view(b)]);
                    },
                    None => {
                        assert(b0 + text_blocks(items@[i as int]) =~= b0);
                    },
                }
                return Ok(());
            }
            proof {
                lemma_unseen_insert(items@, s0, r@, i as int);
            }
            let ghost f1 = (fuel - 1) as nat;
            let children = &items[i].children;
            let ghost cs = refs_view(children@);
            assert(walk(items@, r@, s0, fuel) == walk_children(items@, cs, 0, s1, f1));
            let ghost mut acc: Seq<BlockView> = Seq::empty();
            let mut k: usize = 0;
            while k < children.len()
                invariant
                    k <= children@.len(),
                    cs == refs_view(children@),
                    f1 >= unseen(items@, text::views(seen@)),
                    f1 + 1 == fuel,
                    s0 == text::views(old(seen)@),
                    b0 == blocks_view(old(blocks)@),
                    walk(items@, r@, s0, fuel) == walk_children(items@, cs, 0, s1, f1),
                    forall|x: Seq<char>| s0.contains(x) ==> text::views(seen@).contains(x),
                    blocks_view(blocks@) == b0 + acc,
                    ({
                        let (rk, sk) = walk_children(items@, cs, k as int, text::views(seen@), f1);
                        walk_children(items@, cs, 0, s1, f1) == (prepend(acc, rk), sk)
                    }),
                decreases children@.len() - k,
            {
                let ghost sb = text::views(seen@);
                let ghost bb = blocks_view(blocks@);
                match &children[k] {
                    None => {
                        assert(cs[k as int] is None);
                    },
                    Some(c) => {
                        assert(cs[k as int] == Some(c@));
                        let res = walk_ref(items, c.as_str(), seen, blocks, Ghost(f1));
                        proof {
                            lemma_unseen_mono(items@, sb, text::views(seen@));
                            assert forall|x: Seq<char>| s0.contains(x) implies text::views(seen@).contains(x) by {
                                assert(sb.contains(x));
                            }
                        }
                        match res {
                            Err(e) => {
                                return Err(e);
                            },
                            Ok(()) => {
                                let ghost b1 = walk(items@, c@, sb, f1).0->Ok_0;
                                proof {
                                    assert(blocks_view(blocks@) == bb + b1);
                                    assert(b0 + acc + b1 =~= b0 + (acc + b1));
                                    let (r2, s2) = walk_children(items@, cs, k + 1, text::views(seen@), f1);
                                    assert(prepend(acc, prepend(b1, r2)) == prepend(acc + b1, r2)) by {
                                        match r2 {
                                            Ok(rest) => {
                                                assert(acc + (b1 + rest) =~= acc + b1 + rest);
                                            },
                                            Err(_) => {},
                                        }
                                    }
                                    acc = acc + b1;
                                }
                            },
                        }
                    },
                }
                k += 1;
            }
            proof {
                assert(acc + Seq::<BlockView>::empty() =~= acc);
            }
            Ok(())
        },
    }
}

/// The blocks of a Docling document's body, in reading order, or why the
/// document cannot be read.
pub fn document_blocks(doc: &DoclingDoc) -> (r: Result<Vec<Block>, DocError>)
    ensures
        match r {
            Ok(v) => document_blocks_of(*doc) == Ok::<Seq<BlockView>, DocFault>(blocks_view(v@)),
            Err(e) => document_blocks_of(*doc) == Err::<Seq<BlockView>, DocFault>(fault_of(e)),
        },
{
    proof {
        reveal_strlit("DoclingDocument");
    }
    let is_docling = match &doc.schema_name {
        Some(s) => str_eq(s.as_str(), "DoclingDocument"),
        None => false,
    };
    if !is_docling {
        return Err(DocError::NotDocling);
    }
    let children = match &doc.body_children {
        Some(cs) => cs,
        None => {
            return Err(DocError::NoBody);
        },
    };
    let items = &doc.items;
    let ghost cs = refs_view(children@);
    let ghost n = items@.len();
    let mut seen: Vec<String> = Vec::new();
    let mut blocks: Vec<Block> = Vec::new();
    let ghost mut acc: Seq<BlockView> = Seq::empty();
    assert(text::views(seen@) =~= Seq::<Seq<char>>::empty());
    assert(text::opt_view(doc.schema_name) == Some("DoclingDocument"@));
    assert(document_blocks_of(*doc) == walk_body(items@, cs, 0, Seq::empty()).0);
    let mut k: usize = 0;
    while k < children.len()
        invariant
            k <= children@.len(),
            cs == refs_view(children@),
            n == items@.len(),
            document_blocks_of(*doc) == walk_body(items@, cs, 0, Seq::empty()).0,
            blocks_view(blocks@) == acc,
            ({
                let (rk, sk) = walk_body(items@, cs, k as int, text::views(seen@));
                walk_body(items@, cs, 0, Seq::empty()) == (prepend(acc, rk), sk)
            }),
        decreases children@.len() - k,
    {
        let ghost sb = text::views(seen@);
        let ghost bb = blocks_view(blocks@);
        match &children[k] {
            None => {
                assert(cs[k as int] is None);
                return Err(DocError::ChildWithoutRef);
            },
            Some(c) => {
                assert(cs[k as int] == Some(c@));
                proof {
                    lemma_unseen_bound(items@, sb);
                }
                let res = walk_ref(items, c.as_str(), &mut seen, &mut blocks, Ghost(n));
                match res {
                    Err(e) => {
                        return Err(e);
                    },
                    Ok(()) => {
                        let ghost b1 = walk(items@, c@, sb, n).0->Ok_0;
                        proof {
                            let (r2, s2) = walk_body(items@, cs, k + 1, text::views(seen@));
                            assert(prepend(acc, prepend(b1, r2)) == prepend(acc + b1, r2)) by {
                                match r2 {
                                    Ok(rest) => {
                                        assert(acc + (b1 + rest) =~= acc + b1 + rest);
                                    },
                                    Err(_) => {},
                                }
                            }
                            acc = acc + b1;
                        }
                    },
                }
            },
        }
        k += 1;
    }
    proof {
        assert(acc + Seq::<BlockView>::empty() =~= acc);
    }
    Ok(blocks)
}

} // verus!
