//! A Docling document's JSON as the table of values the walk reads: every
//! object and array under its JSON pointer, with the fields read from it.
use vstd::prelude::*;

use crate::docling_walk::{DocItem, DoclingDoc, JsonText};
use crate::storage::str_eq;
use crate::text::{self, decimal, push_char, push_str};

verus! {

/// A JSON value. A number keeps its value when it is a non-negative integer
/// that fits a `u64` (what the walk reads of numbers), else nothing. An
/// object keeps its members in order.
#[derive(Debug)]
pub enum JsonTree {
    Null,
    Bool(bool),
    Number(Option<u64>),
    Str(String),
    Array(Vec<JsonTree>),
    Object(Vec<(String, JsonTree)>),
}

/// A field of an item as the contracts speak of it.
pub enum TextView {
    Absent,
    Str(Seq<char>),
    Other,
}

/// A `DocItem` as the contracts speak of it.
pub struct ItemView {
    pub pointer: Seq<char>,
    pub content_layer: Option<Seq<char>>,
    pub label: Option<Seq<char>>,
    pub text: TextView,
    pub orig: Option<Seq<char>>,
    pub page_no: Option<u64>,
    pub level: Option<u64>,
    pub children: Seq<Option<Seq<char>>>,
}

pub open spec fn text_view(t: JsonText) -> TextView {
    match t {
        JsonText::Absent => TextView::Absent,
        JsonText::Str(s) => TextView::Str(s@),
        JsonText::Other => TextView::Other,
    }
}

pub open spec fn item_view(it: DocItem) -> ItemView {
    ItemView {
        pointer: it.pointer@,
        content_layer: text::opt_view(it.content_layer),
        label: text::opt_view(it.label),
        text: text_view(it.text),
        orig: text::opt_view(it.orig),
        page_no: it.page_no,
        level: it.level,
        children: it.children@.map_values(|c: Option<String>| text::opt_view(c)),
    }
}

pub open spec fn items_view(items: Seq<DocItem>) -> Seq<ItemView> {
    items.map_values(|it: DocItem| item_view(it))
}

/// The value of the first member named `key`.
pub open spec fn member(fields: Seq<(String, JsonTree)>, key: Seq<char>) -> Option<JsonTree>
    decreases fields.len(),
{
    if fields.len() == 0 {
        None
    } else if fields[0].0@ == key {
        Some(fields[0].1)
    } else {
        member(fields.drop_first(), key)
    }
}

/// The member `key` of an object (`Value::get`).
pub open spec fn get(t: JsonTree, key: Seq<char>) -> Option<JsonTree> {
    match t {
        JsonTree::Object(fields) => member(fields@, key),
        _ => None,
    }
}

/// The string of a value, when it is one.
pub open spec fn as_str(t: Option<JsonTree>) -> Option<Seq<char>> {
    match t {
        Some(JsonTree::Str(s)) => Some(s@),
        _ => None,
    }
}

/// The value of a number that is a non-negative integer.
pub open spec fn as_u64(t: Option<JsonTree>) -> Option<u64> {
    match t {
        Some(JsonTree::Number(n)) => n,
        _ => None,
    }
}

/// The `text` member read as a string.
pub open spec fn text_member(t: JsonTree) -> TextView {
    match get(t, "text"@) {
        None => TextView::Absent,
        Some(JsonTree::Str(s)) => TextView::Str(s@),
        Some(_) => TextView::Other,
    }
}

/// `prov[0].page_no` (the pointer `/prov/0/page_no`): the `0` step indexes
/// an array and names a member of an object.
pub open spec fn first_page(t: JsonTree) -> Option<u64> {
    match get(t, "prov"@) {
        Some(JsonTree::Array(list)) => if list@.len() > 0 {
            as_u64(get(list@[0], "page_no"@))
        } else {
            None
        },
        Some(JsonTree::Object(fields)) => match member(fields@, "0"@) {
            Some(first) => as_u64(get(first, "page_no"@)),
            None => None,
        },
        _ => None,
    }
}

/// The `$ref` of each entry of the `children` array; empty without one.
pub open spec fn child_refs(t: JsonTree) -> Seq<Option<Seq<char>>> {
    match get(t, "children"@) {
        Some(JsonTree::Array(list)) => list@.map_values(|c: JsonTree| as_str(get(c, "$ref"@))),
        _ => seq![],
    }
}

/// The item of an object under `pointer`.
pub open spec fn object_item(t: JsonTree, pointer: Seq<char>) -> ItemView {
    ItemView {
        pointer,
        content_layer: as_str(get(t, "content_layer"@)),
        label: as_str(get(t, "label"@)),
        text: text_member(t),
        orig: as_str(get(t, "orig"@)),
        page_no: first_page(t),
        level: as_u64(get(t, "level"@)),
        children: child_refs(t),
    }
}

/// The item of an array under `pointer`: no fields.
pub open spec fn array_item(pointer: Seq<char>) -> ItemView {
    ItemView {
        pointer,
        content_layer: None,
        label: None,
        text: TextView::Absent,
        orig: None,
        page_no: None,
        level: None,
        children: seq![],
    }
}

/// A member name as a JSON pointer token: `~` as `~0`, `/` as `~1`.
pub open spec fn escaped(key: Seq<char>) -> Seq<char>
    decreases key.len(),
{
    if key.len() == 0 {
        seq![]
    } else {
        escaped(key.drop_last()) + if key.last() == '~' {
            seq!['~', '0']
        } else if key.last() == '/' {
            seq!['~', '1']
        } else {
            seq![key.last()]
        }
    }
}

/// Every object and array in `t`, depth first, each under its JSON pointer
/// (`t` itself under `pointer`).
pub open spec fn flat_items(t: JsonTree, pointer: Seq<char>) -> Seq<ItemView>
    decreases t, 0nat,
{
    match t {
        JsonTree::Object(fields) => seq![object_item(t, pointer)] + flat_members(fields@, pointer, 0),
        JsonTree::Array(list) => seq![array_item(pointer)] + flat_elements(list@, pointer, 0),
        _ => seq![],
    }
}

/// `flat_items` of the members from `k` on, each under `pointer/name`.
pub open spec fn flat_members(fields: Seq<(String, JsonTree)>, pointer: Seq<char>, k: int) -> Seq<
    ItemView,
>
    decreases fields, fields.len() - k,
{
    if k < 0 || k >= fields.len() {
        seq![]
    } else {
        flat_items(fields[k].1, pointer + seq!['/'] + escaped(fields[k].0@)) + flat_members(
            fields,
            pointer,
            k + 1,
        )
    }
}

/// `flat_items` of the elements from `k` on, each under `pointer/index`.
pub open spec fn flat_elements(list: Seq<JsonTree>, pointer: Seq<char>, k: int) -> Seq<ItemView>
    decreases list, list.len() - k,
{
    if k < 0 || k >= list.len() {
        seq![]
    } else {
        flat_items(list[k], pointer + seq!['/'] + decimal(k as nat)) + flat_elements(list, pointer, k + 1)
    }
}

/// The value a reference points at, as the contracts speak of it.
pub open spec fn opt_ref(r: Option<&JsonTree>) -> Option<JsonTree> {
    match r {
        Some(v) => Some(*v),
        None => None,
    }
}

/// `get` after a step that may have found nothing.
pub open spec fn get_opt(t: Option<JsonTree>, key: Seq<char>) -> Option<JsonTree> {
    match t {
        Some(v) => get(v, key),
        None => None,
    }
}

/// The `$ref` of each entry of `body.children` (the pointer
/// `/body/children`), when that is an array.
pub open spec fn body_refs(t: JsonTree) -> Option<Seq<Option<Seq<char>>>> {
    match get_opt(get(t, "body"@), "children"@) {
        Some(JsonTree::Array(list)) => Some(list@.map_values(|c: JsonTree| as_str(get(c, "$ref"@)))),
        _ => None,
    }
}

fn member_of<'a>(fields: &'a Vec<(String, JsonTree)>, key: &str) -> (r: Option<&'a JsonTree>)
    ensures
        opt_ref(r) == member(fields@, key@),
{
    let mut i: usize = 0;
    assert(fields@.skip(0) =~= fields@);
    while i < fields.len()
        invariant
            i <= fields@.len(),
            member(fields@, key@) == member(fields@.skip(i as int), key@),
        decreases fields@.len() - i,
    {
        assert(fields@.skip(i as int)[0] == fields@[i as int]);
        assert(fields@.skip(i as int).drop_first() =~= fields@.skip(i + 1));
        if str_eq(fields[i].0.as_str(), key) {
            return Some(&fields[i].1);
        }
        i += 1;
    }
    None
}

fn get_of<'a>(t: &'a JsonTree, key: &str) -> (r: Option<&'a JsonTree>)
    ensures
        opt_ref(r) == get(*t, key@),
{
    match t {
        JsonTree::Object(fields) => member_of(fields, key),
        _ => None,
    }
}

fn get_opt_of<'a>(t: Option<&'a JsonTree>, key: &str) -> (r: Option<&'a JsonTree>)
    ensures
        opt_ref(r) == get_opt(opt_ref(t), key@),
{
    match t {
        Some(v) => get_of(v, key),
        None => None,
    }
}

fn str_of(t: Option<&JsonTree>) -> (r: Option<String>)
    ensures
        text::opt_view(r) == as_str(opt_ref(t)),
{
    match t {
        Some(JsonTree::Str(s)) => Some(s.clone()),
        _ => None,
    }
}

fn u64_of(t: Option<&JsonTree>) -> (r: Option<u64>)
    ensures
        r == as_u64(opt_ref(t)),
{
    match t {
        Some(JsonTree::Number(n)) => *n,
        _ => None,
    }
}

fn text_field(t: &JsonTree) -> (r: JsonText)
    ensures
        text_view(r) == text_member(*t),
{
    proof {
        reveal_strlit("text");
    }
    match get_of(t, "text") {
        None => JsonText::Absent,
        Some(JsonTree::Str(s)) => JsonText::Str(s.clone()),
        Some(_) => JsonText::Other,
    }
}

fn first_page_of(t: &JsonTree) -> (r: Option<u64>)
    ensures
        r == first_page(*t),
{
    match get_of(t, "prov") {
        Some(JsonTree::Array(list)) => if list.len() > 0 {
            u64_of(get_of(&list[0], "page_no"))
        } else {
            None
        },
        Some(JsonTree::Object(fields)) => match member_of(fields, "0") {
            Some(first) => u64_of(get_of(first, "page_no")),
            None => None,
        },
        _ => None,
    }
}

fn refs_of(list: &Vec<JsonTree>) -> (r: Vec<Option<String>>)
    ensures
        r@.map_values(|c: Option<String>| text::opt_view(c)) == list@.map_values(
            |c: JsonTree| as_str(get(c, "$ref"@)),
        ),
{
    let mut r: Vec<Option<String>> = Vec::new();
    let mut i: usize = 0;
    while i < list.len()
        invariant
            i <= list@.len(),
            r@.len() == i,
            forall|j: int| 0 <= j < i ==> #[trigger] text::opt_view(r@[j]) == as_str(get(list@[j], "$ref"@)),
        decreases list@.len() - i,
    {
        r.push(str_of(get_of(&list[i], "$ref")));
        i += 1;
    }
    assert(r@.map_values(|c: Option<String>| text::opt_view(c)) =~= list@.map_values(
        |c: JsonTree| as_str(get(c, "$ref"@)),
    ));
    r
}

fn child_refs_of(t: &JsonTree) -> (r: Vec<Option<String>>)
    ensures
        r@.map_values(|c: Option<String>| text::opt_view(c)) == child_refs(*t),
{
    match get_of(t, "children") {
        Some(JsonTree::Array(list)) => refs_of(list),
        _ => {
            let r: Vec<Option<String>> = Vec::new();
            assert(r@.map_values(|c: Option<String>| text::opt_view(c)) =~= Seq::<Option<Seq<char>>>::empty());
            r
        },
    }
}

/// `key` as a JSON pointer token.
pub fn escape_key(key: &str) -> (s: String)
    ensures
        s@ == escaped(key@),
{
    let v = text::chars_of(key);
    let mut s = String::new();
    let mut i: usize = 0;
    while i < v.len()
        invariant
            v@ == key@,
            i <= v@.len(),
            s@ == escaped(v@.take(i as int)),
        decreases v@.len() - i,
    {
        proof {
            assert(v@.take(i + 1).drop_last() =~= v@.take(i as int));
            assert(v@.take(i + 1).last() == v@[i as int]);
        }
        let c = v[i];
        if c == '~' {
            push_char(&mut s, '~');
            push_char(&mut s, '0');
        } else if c == '/' {
            push_char(&mut s, '~');
            push_char(&mut s, '1');
        } else {
            push_char(&mut s, c);
        }
        i += 1;
        assert(s@ =~= escaped(v@.take(i as int)));
    }
    assert(v@.take(v@.len() as int) =~= v@);
    s
}

fn object_item_of(t: &JsonTree, pointer: &str) -> (it: DocItem)
    ensures
        item_view(it) == object_item(*t, pointer@),
{
    DocItem {
        pointer: pointer.to_owned(),
        content_layer: str_of(get_of(t, "content_layer")),
        label: str_of(get_of(t, "label")),
        text: text_field(t),
        orig: str_of(get_of(t, "orig")),
        page_no: first_page_of(t),
        level: u64_of(get_of(t, "level")),
        children: child_refs_of(t),
    }
}

fn array_item_of(pointer: &str) -> (it: DocItem)
    ensures
        item_view(it) == array_item(pointer@),
{
    let children: Vec<Option<String>> = Vec::new();
    assert(children@.map_values(|c: Option<String>| text::opt_view(c)) =~= Seq::<Option<Seq<char>>>::empty());
    DocItem {
        pointer: pointer.to_owned(),
        content_layer: None,
        label: None,
        text: JsonText::Absent,
        orig: None,
        page_no: None,
        level: None,
        children,
    }
}

fn child_pointer(pointer: &str, token: &str) -> (p: String)
    ensures
        p@ == pointer@ + seq!['/'] + token@,
{
    let mut p = pointer.to_owned();
    push_char(&mut p, '/');
    push_str(&mut p, token);
    p
}

fn flatten_into(t: &JsonTree, pointer: &str, items: &mut Vec<DocItem>)
    ensures
        items_view(final(items)@) == items_view(old(items)@) + flat_items(*t, pointer@),
    decreases t,
{
    let ghost start = items_view(items@);
    match t {
        JsonTree::Object(fields) => {
            items.push(object_item_of(t, pointer));
            let ghost head = start + seq![object_item(*t, pointer@)];
            assert(items_view(items@) =~= head);
            let mut k: usize = 0;
            assert(*t is Object && (*t)->Object_0 == *fields);
            while k < fields.len()
                invariant
                    *t is Object && (*t)->Object_0 == *fields,
                    k <= fields@.len(),
                    items_view(items@) + flat_members(fields@, pointer@, k as int) == head
                        + flat_members(fields@, pointer@, 0),
                decreases fields@.len() - k,
            {
                let child = child_pointer(pointer, escape_key(fields[k].0.as_str()).as_str());
                let ghost before = items_view(items@);
                proof {
                    assert(decreases_to!(*t => (*t)->Object_0));
                    assert(decreases_to!(*fields => fields@));
                    assert(decreases_to!(fields@ => fields@[k as int]));
                    assert(decreases_to!(fields@[k as int] => fields@[k as int].1));
                    assert(decreases_to!(*t => fields@[k as int].1));
                }
                flatten_into(&fields[k].1, child.as_str(), items);
                proof {
                    let rest = flat_members(fields@, pointer@, k + 1);
                    assert(flat_members(fields@, pointer@, k as int) == flat_items(
                        fields@[k as int].1,
                        child@,
                    ) + rest);
                    assert(items_view(items@) + rest =~= before + flat_members(fields@, pointer@, k as int));
                }
                k += 1;
            }
            proof {
                assert(flat_members(fields@, pointer@, k as int) =~= Seq::<ItemView>::empty());
                assert(items_view(items@) =~= items_view(items@) + Seq::<ItemView>::empty());
                assert(head + flat_members(fields@, pointer@, 0) =~= start + flat_items(*t, pointer@));
            }
        },
        JsonTree::Array(list) => {
            items.push(array_item_of(pointer));
            let ghost head = start + seq![array_item(pointer@)];
            assert(items_view(items@) =~= head);
            let mut k: usize = 0;
            assert(*t is Array && (*t)->Array_0 == *list);
            while k < list.len()
                invariant
                    *t is Array && (*t)->Array_0 == *list,
                    k <= list@.len(),
                    items_view(items@) + flat_elements(list@, pointer@, k as int) == head
                        + flat_elements(list@, pointer@, 0),
                decreases list@.len() - k,
            {
                let index = text::decimal_string(k as u64);
                let child = child_pointer(pointer, index.as_str());
                let ghost before = items_view(items@);
                proof {
                    assert(decreases_to!(*t => (*t)->Array_0));
                    assert(decreases_to!(*list => list@));
                    assert(decreases_to!(list@ => list@[k as int]));
                    assert(decreases_to!(*t => list@[k as int]));
                }
                flatten_into(&list[k], child.as_str(), items);
                proof {
                    let rest = flat_elements(list@, pointer@, k + 1);
                    assert(flat_elements(list@, pointer@, k as int) == flat_items(list@[k as int], child@)
                        + rest);
                    assert(items_view(items@) + rest =~= before + flat_elements(list@, pointer@, k as int));
                }
                k += 1;
            }
            proof {
                assert(flat_elements(list@, pointer@, k as int) =~= Seq::<ItemView>::empty());
                assert(items_view(items@) =~= items_view(items@) + Seq::<ItemView>::empty());
                assert(head + flat_elements(list@, pointer@, 0) =~= start + flat_items(*t, pointer@));
            }
        },
        _ => {
            assert(items_view(items@) =~= start + flat_items(*t, pointer@));
        },
    }
}

/// Every object and array of a document, each under its JSON pointer, with
/// the fields the walk reads.
pub fn doc_items(tree: &JsonTree) -> (items: Vec<DocItem>)
    ensures
        items_view(items@) == flat_items(*tree, ""@),
{
    let mut items: Vec<DocItem> = Vec::new();
    assert(items_view(items@) =~= Seq::<ItemView>::empty());
    flatten_into(tree, "", &mut items);
    assert(items_view(items@) =~= flat_items(*tree, ""@));
    items
}

/// The Docling document a JSON value holds: its `schema_name`, the `$ref`s
/// of `body.children`, and the table of its values.
pub fn docling_doc(tree: &JsonTree) -> (d: DoclingDoc)
    ensures
        text::opt_view(d.schema_name) == as_str(get(*tree, "schema_name"@)),
        match d.body_children {
            Some(cs) => body_refs(*tree) == Some(cs@.map_values(|c: Option<String>| text::opt_view(c))),
            None => body_refs(*tree) is None,
        },
        items_view(d.items@) == flat_items(*tree, ""@),
{
    let body_children = match get_opt_of(get_of(tree, "body"), "children") {
        Some(JsonTree::Array(list)) => Some(refs_of(list)),
        _ => None,
    };
    DoclingDoc { schema_name: str_of(get_of(tree, "schema_name")), body_children, items: doc_items(tree) }
}

} // verus!
