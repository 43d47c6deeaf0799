//! Finding library entries that describe the same work, and choosing which
//! copy to keep.
use vstd::prelude::*;

use crate::model::Reference;
use crate::storage::str_eq;
use crate::text::{self, sort_strings, to_lowercase, trim_str};

verus! {

/// What two entries are compared by: the normalized title and DOI, each
/// `None` when the entry has none (or could not be read).
#[derive(Debug, Clone, PartialEq)]
pub struct DedupKey {
    pub title: Option<String>,
    pub doi: Option<String>,
}

/// Both values are present and equal.
pub open spec fn same_value(a: Option<Seq<char>>, b: Option<Seq<char>>) -> bool {
    a is Some && a == b
}

/// The compared values of each key, as characters.
pub open spec fn key_views(keys: Seq<DedupKey>) -> Seq<(Option<Seq<char>>, Option<Seq<char>>)> {
    keys.map_values(|k: DedupKey| (text::opt_view(k.title), text::opt_view(k.doi)))
}

/// Entries `i` and `j` (distinct) share a title or a DOI.
pub open spec fn linked(keys: Seq<(Option<Seq<char>>, Option<Seq<char>>)>, i: int, j: int) -> bool {
    &&& 0 <= i < keys.len()
    &&& 0 <= j < keys.len()
    &&& i != j
    &&& (same_value(keys[i].0, keys[j].0) || same_value(keys[i].1, keys[j].1))
}

/// `p` walks from entry to entry along shared titles or DOIs.
pub open spec fn is_path(keys: Seq<(Option<Seq<char>>, Option<Seq<char>>)>, p: Seq<int>) -> bool {
    &&& p.len() >= 1
    &&& forall|k: int| 0 <= k < p.len() ==> 0 <= #[trigger] p[k] < keys.len()
    &&& forall|k: int| 0 <= k < p.len() - 1 ==> #[trigger] linked(keys, p[k], p[k + 1])
}

/// Entries `a` and `b` are duplicates of one another, directly or through
/// other entries.
pub open spec fn connected(keys: Seq<(Option<Seq<char>>, Option<Seq<char>>)>, a: int, b: int) -> bool {
    exists|p: Seq<int>| #[trigger] is_path(keys, p) && p[0] == a && p.last() == b
}

pub proof fn lemma_connected_refl(keys: Seq<(Option<Seq<char>>, Option<Seq<char>>)>, a: int)
    requires
        0 <= a < keys.len(),
    ensures
        connected(keys, a, a),
{
    let p = seq![a];
    assert(is_path(keys, p));
}

pub proof fn lemma_connected_edge(keys: Seq<(Option<Seq<char>>, Option<Seq<char>>)>, a: int, b: int)
    requires
        linked(keys, a, b),
    ensures
        connected(keys, a, b),
{
    let p = seq![a, b];
    assert(is_path(keys, p)) by {
        assert forall|k: int| 0 <= k < p.len() - 1 implies #[trigger] linked(keys, p[k], p[k + 1]) by {
            assert(k == 0);
        }
    }
}

pub proof fn lemma_linked_sym(keys: Seq<(Option<Seq<char>>, Option<Seq<char>>)>, a: int, b: int)
    requires
        linked(keys, a, b),
    ensures
        linked(keys, b, a),
{
}

pub proof fn lemma_connected_sym(keys: Seq<(Option<Seq<char>>, Option<Seq<char>>)>, a: int, b: int)
    requires
        connected(keys, a, b),
    ensures
        connected(keys, b, a),
{
    let p = choose|p: Seq<int>| #[trigger] is_path(keys, p) && p[0] == a && p.last() == b;
    let q = p.reverse();
    assert forall|k: int| 0 <= k < q.len() - 1 implies #[trigger] linked(keys, q[k], q[k + 1]) by {
        let m = p.len() - 2 - k;
        assert(linked(keys, p[m], p[m + 1]));
        assert(q[k] == p[m + 1]);
        assert(q[k + 1] == p[m]);
        lemma_linked_sym(keys, p[m], p[m + 1]);
    }
    assert forall|k: int| 0 <= k < q.len() implies 0 <= #[trigger] q[k] < keys.len() by {
        assert(q[k] == p[p.len() - 1 - k]);
    }
    assert(is_path(keys, q));
}

pub proof fn lemma_connected_trans(keys: Seq<(Option<Seq<char>>, Option<Seq<char>>)>, a: int, b: int, c: int)
    requires
        connected(keys, a, b),
        connected(keys, b, c),
    ensures
        connected(keys, a, c),
{
    let p = choose|p: Seq<int>| #[trigger] is_path(keys, p) && p[0] == a && p.last() == b;
    let q = choose|q: Seq<int>| #[trigger] is_path(keys, q) && q[0] == b && q.last() == c;
    let r = p + q.drop_first();
    assert forall|k: int| 0 <= k < r.len() implies 0 <= #[trigger] r[k] < keys.len() by {
        if k < p.len() {
            assert(r[k] == p[k]);
        } else {
            assert(r[k] == q[k - p.len() + 1]);
        }
    }
    assert forall|k: int| 0 <= k < r.len() - 1 implies #[trigger] linked(keys, r[k], r[k + 1]) by {
        if k < p.len() - 1 {
            assert(r[k] == p[k]);
            assert(r[k + 1] == p[k + 1]);
        } else if k == p.len() - 1 {
            assert(r[k] == b);
            assert(r[k] == q[0]);
            assert(r[k + 1] == q[1]);
            assert(linked(keys, q[0], q[1]));
        } else {
            assert(r[k] == q[k - p.len() + 1]);
            assert(r[k + 1] == q[k - p.len() + 2]);
            assert(linked(keys, q[k - p.len() + 1], q[k - p.len() + 1 + 1]));
        }
    }
    if q.len() == 1 {
        assert(r =~= p);
    } else {
        assert(r.last() == q.last());
    }
    assert(is_path(keys, r));
}

/// Along a path every step keeps the label, so both ends share it.
proof fn lemma_path_keeps_label(keys: Seq<(Option<Seq<char>>, Option<Seq<char>>)>, comp: Seq<usize>, p: Seq<int>)
    requires
        comp.len() == keys.len(),
        is_path(keys, p),
        forall|a: int, b: int| #[trigger] linked(keys, a, b) ==> comp[a] == comp[b],
    ensures
        comp[p[0]] == comp[p.last()],
    decreases p.len(),
{
    if p.len() > 1 {
        let q = p.drop_last();
        assert forall|k: int| 0 <= k < q.len() - 1 implies #[trigger] linked(keys, q[k], q[k + 1]) by {
            assert(linked(keys, p[k], p[k + 1]));
        }
        assert forall|k: int| 0 <= k < q.len() implies 0 <= #[trigger] q[k] < keys.len() by {
            assert(q[k] == p[k]);
        }
        assert(is_path(keys, q));
        lemma_path_keeps_label(keys, comp, q);
        assert(linked(keys, p[p.len() - 2], p[p.len() - 2 + 1]));
    }
}

fn same_opt(a: &Option<String>, b: &Option<String>) -> (r: bool)
    ensures
        r == same_value(text::opt_view(*a), text::opt_view(*b)),
{
    match (a, b) {
        (Some(x), Some(y)) => str_eq(x.as_str(), y.as_str()),
        _ => false,
    }
}

fn is_linked(keys: &Vec<DedupKey>, i: usize, j: usize) -> (r: bool)
    requires
        i < keys@.len(),
        j < keys@.len(),
    ensures
        r == linked(key_views(keys@), i as int, j as int),
{
    i != j && (same_opt(&keys[i].title, &keys[j].title) || same_opt(&keys[i].doi, &keys[j].doi))
}

/// `s` with every label `from` replaced by `to`.
pub open spec fn relabel(s: Seq<usize>, from: usize, to: usize) -> Seq<usize> {
    s.map_values(|x: usize| if x == from {
        to
    } else {
        x
    })
}

fn relabel_in(comp: &mut Vec<usize>, from: usize, to: usize)
    ensures
        final(comp)@ == relabel(old(comp)@, from, to),
{
    let n = comp.len();
    let mut k: usize = 0;
    while k < n
        invariant
            n == comp@.len(),
            n == old(comp)@.len(),
            k <= n,
            forall|m: int| 0 <= m < k ==> comp@[m] == (if old(comp)@[m] == from {
                to
            } else {
                old(comp)@[m]
            }),
            forall|m: int| k <= m < n ==> comp@[m] == old(comp)@[m],
        decreases n - k,
    {
        if comp[k] == from {
            comp.set(k, to);
        }
        k += 1;
    }
    assert(comp@ =~= relabel(old(comp)@, from, to));
}

/// A label per entry such that two entries share a label exactly when they
/// are duplicates of one another.
pub fn component_labels(keys: &Vec<DedupKey>) -> (comp: Vec<usize>)
    ensures
        comp@.len() == keys@.len(),
        forall|a: int, b: int|
            0 <= a < keys@.len() && 0 <= b < keys@.len() ==> (comp@[a] == comp@[b] <==> connected(
                key_views(keys@),
                a,
                b,
            )),
{
    let n = keys.len();
    let mut comp: Vec<usize> = Vec::new();
    let mut k: usize = 0;
    while k < n
        invariant
            n == keys@.len(),
            k <= n,
            comp@.len() == k,
            forall|m: int| 0 <= m < k ==> comp@[m] == m,
        decreases n - k,
    {
        comp.push(k);
        k += 1;
    }
    proof {
        assert forall|a: int, b: int|
            0 <= a < n && 0 <= b < n && comp@[a] == comp@[b] implies connected(key_views(keys@), a, b) by {
            lemma_connected_refl(key_views(keys@), a);
        }
    }
    let mut i: usize = 0;
    while i < n
        invariant
            n == keys@.len(),
            comp@.len() == n,
            i <= n,
            forall|a: int, b: int|
                0 <= a < n && 0 <= b < n && comp@[a] == comp@[b] ==> connected(key_views(keys@), a, b),
            forall|a: int, b: int|
                0 <= b < a < i && #[trigger] linked(key_views(keys@), a, b) ==> comp@[a] == comp@[b],
        decreases n - i,
    {
        let mut j: usize = 0;
        while j < i
            invariant
                n == keys@.len(),
                comp@.len() == n,
                j <= i < n,
                forall|a: int, b: int|
                    0 <= a < n && 0 <= b < n && comp@[a] == comp@[b] ==> connected(key_views(keys@), a, b),
                forall|a: int, b: int|
                    0 <= b < a < i && #[trigger] linked(key_views(keys@), a, b) ==> comp@[a] == comp@[b],
                forall|b: int| 0 <= b < j && #[trigger] linked(key_views(keys@), i as int, b) ==> comp@[i as int] == comp@[b],
            decreases i - j,
        {
            if is_linked(keys, i, j) && comp[i] != comp[j] {
                let from = comp[i];
                let to = comp[j];
                let ghost before = comp@;
                relabel_in(&mut comp, from, to);
                proof {
                    lemma_connected_edge(key_views(keys@), i as int, j as int);
                    assert forall|a: int, b: int|
                        0 <= a < n && 0 <= b < n && comp@[a] == comp@[b] implies connected(key_views(keys@), a, b) by {
                        let ii = i as int;
                        let jj = j as int;
                        if before[a] == from && before[b] != from {
                            assert(before[b] == to);
                            assert(connected(key_views(keys@), a, ii));
                            assert(connected(key_views(keys@), jj, b));
                            lemma_connected_trans(key_views(keys@), a, ii, jj);
                            lemma_connected_trans(key_views(keys@), a, jj, b);
                        } else if before[a] != from && before[b] == from {
                            assert(before[a] == to);
                            assert(connected(key_views(keys@), a, jj));
                            assert(connected(key_views(keys@), ii, b));
                            lemma_connected_sym(key_views(keys@), ii, jj);
                            lemma_connected_trans(key_views(keys@), a, jj, ii);
                            lemma_connected_trans(key_views(keys@), a, ii, b);
                        } else {
                            assert(before[a] == before[b]);
                        }
                    }
                    assert forall|a: int, b: int|
                        0 <= b < a < i && #[trigger] linked(key_views(keys@), a, b) implies comp@[a] == comp@[b] by {
                        assert(before[a] == before[b]);
                    }
                    assert forall|b: int|
                        0 <= b <= j && #[trigger] linked(key_views(keys@), i as int, b) implies comp@[i as int] == comp@[b] by {
                        if b < j {
                            assert(before[i as int] == before[b]);
                        }
                    }
                }
            }
            j += 1;
        }
        i += 1;
    }
    proof {
        assert forall|a: int, b: int| #[trigger] linked(key_views(keys@), a, b) implies comp@[a] == comp@[b] by {
            if b < a {
            } else {
                lemma_linked_sym(key_views(keys@), a, b);
                assert(linked(key_views(keys@), b, a));
            }
        }
        assert forall|a: int, b: int|
            0 <= a < n && 0 <= b < n && connected(key_views(keys@), a, b) implies comp@[a] == comp@[b] by {
            let p = choose|p: Seq<int>| #[trigger] is_path(key_views(keys@), p) && p[0] == a && p.last() == b;
            lemma_path_keeps_label(key_views(keys@), comp@, p);
        }
    }
    comp
}

/// Whether `x` occurs in `v`.
fn contains_index(v: &Vec<usize>, x: usize) -> (r: bool)
    ensures
        r == v@.contains(x),
{
    let mut i: usize = 0;
    while i < v.len()
        invariant
            i <= v@.len(),
            forall|m: int| 0 <= m < i ==> v@[m] != x,
        decreases v@.len() - i,
    {
        if v[i] == x {
            return true;
        }
        i += 1;
    }
    false
}

/// The groups of duplicate entries, by index: each group holds every entry
/// that is a duplicate of its members, in ascending order, and only groups
/// of two or more are reported, ordered by their first entry.
pub fn duplicate_groups(keys: &Vec<DedupKey>) -> (groups: Vec<Vec<usize>>)
    ensures
        forall|g: int| 0 <= g < groups@.len() ==> #[trigger] groups@[g]@.len() >= 2,
        forall|g: int, x: int, y: int|
            0 <= g < groups@.len() && 0 <= x < y < groups@[g]@.len() ==> #[trigger] groups@[g]@[x]
                < #[trigger] groups@[g]@[y],
        forall|g: int, x: int|
            0 <= g < groups@.len() && 0 <= x < groups@[g]@.len() ==> #[trigger] groups@[g]@[x]
                < keys@.len(),
        forall|g: int, h: int|
            0 <= g < h < groups@.len() ==> #[trigger] groups@[g]@[0] < #[trigger] groups@[h]@[0],
        forall|g: int, x: int, b: int|
            #![trigger groups@[g]@.contains(b as usize), groups@[g]@[x]]
            #![trigger connected(key_views(keys@), groups@[g]@[x] as int, b)]
            0 <= g < groups@.len() && 0 <= x < groups@[g]@.len() && 0 <= b < keys@.len() ==> (
            groups@[g]@.contains(b as usize) <==> connected(key_views(keys@), groups@[g]@[x] as int, b)),
        forall|a: int, b: int|
            #[trigger] linked(key_views(keys@), a, b) ==> exists|g: int|
                0 <= g < groups@.len() && #[trigger] groups@[g]@.contains(a as usize),
{
    let n = keys.len();
    let comp = component_labels(keys);
    let mut groups: Vec<Vec<usize>> = Vec::new();
    let mut seen: Vec<usize> = Vec::new();
    let mut i: usize = 0;
    while i < n
        invariant
            n == keys@.len(),
            comp@.len() == n,
            i <= n,
            forall|a: int, b: int|
                0 <= a < n && 0 <= b < n ==> (comp@[a] == comp@[b] <==> connected(key_views(keys@), a, b)),
            forall|l: usize| #[trigger] seen@.contains(l) <==> exists|m: int| 0 <= m < i && comp@[m] == l,
            forall|g: int| 0 <= g < groups@.len() ==> #[trigger] groups@[g]@.len() >= 2,
            forall|g: int, x: int, y: int|
                0 <= g < groups@.len() && 0 <= x < y < groups@[g]@.len() ==> #[trigger] groups@[g]@[x]
                    < #[trigger] groups@[g]@[y],
            forall|g: int, x: int|
                0 <= g < groups@.len() && 0 <= x < groups@[g]@.len() ==> #[trigger] groups@[g]@[x] < n,
            forall|g: int| 0 <= g < groups@.len() ==> #[trigger] groups@[g]@[0] < i,
            forall|g: int, h: int|
                0 <= g < h < groups@.len() ==> #[trigger] groups@[g]@[0] < #[trigger] groups@[h]@[0],
            forall|g: int, b: int|
                0 <= g < groups@.len() && 0 <= b < n ==> (#[trigger] groups@[g]@.contains(b as usize)
                    <==> comp@[b] == comp@[groups@[g]@[0] as int]),
            forall|a: int, b: int|
                0 <= a < n && 0 <= b < n && a != b && comp@[a] == comp@[b] && seen@.contains(comp@[a])
                    ==> exists|g: int| 0 <= g < groups@.len() && #[trigger] groups@[g]@.contains(a as usize),
        decreases n - i,
    {
        let label = comp[i];
        if !contains_index(&seen, label) {
            let mut members: Vec<usize> = Vec::new();
            let mut k: usize = i;
            while k < n
                invariant
                    n == keys@.len(),
                    comp@.len() == n,
                    i <= k <= n,
                    label == comp@[i as int],
                    members@.len() > 0 ==> members@[0] == i,
                    k > i ==> members@.len() > 0,
                    forall|x: int| 0 <= x < members@.len() ==> i <= #[trigger] members@[x] < k,
                    forall|x: int, y: int|
                        0 <= x < y < members@.len() ==> #[trigger] members@[x] < #[trigger] members@[y],
                    forall|b: int| i <= b < k ==> (#[trigger] members@.contains(b as usize) <==> comp@[b] == label),
                    forall|x: int| 0 <= x < members@.len() ==> comp@[#[trigger] members@[x] as int] == label,
                decreases n - k,
            {
                if comp[k] == label {
                    let ghost om = members@;
                    members.push(k);
                    proof {
                        assert(members@ == om.push(k));
                        assert forall|b: int| i <= b < k + 1 implies (#[trigger] members@.contains(b as usize)
                            <==> comp@[b] == label) by {
                            if b < k {
                                if members@.contains(b as usize) {
                                    let x = choose|x: int| 0 <= x < members@.len() && members@[x] == b as usize;
                                    assert(x < om.len());
                                    assert(om[x] == b as usize);
                                    assert(om.contains(b as usize));
                                }
                                if om.contains(b as usize) {
                                    let x = choose|x: int| 0 <= x < om.len() && om[x] == b as usize;
                                    assert(members@[x] == b as usize);
                                }
                            } else {
                                assert(members@[members@.len() - 1] == b as usize);
                            }
                        }
                    }
                } else {
                    proof {
                        assert(!members@.contains(k));
                    }
                }
                k += 1;
            }
            proof {
                // every entry with this label lies at or after `i`
                assert forall|b: int| 0 <= b < n && comp@[b] == label implies i <= b by {
                    if b < i {
                        assert(seen@.contains(label));
                    }
                }
            }
            let count = members.len();
            let ghost old_groups = groups@;
            if count >= 2 {
                groups.push(members);
            }
            let ghost old_seen = seen@;
            seen.push(label);
            proof {
                assert forall|l: usize| #[trigger] seen@.contains(l) <==> exists|m: int|
                    0 <= m < i + 1 && comp@[m] == l by {
                    if seen@.contains(l) {
                        if l != label {
                            let x = choose|x: int| 0 <= x < seen@.len() && seen@[x] == l;
                            assert(old_seen[x] == l);
                            assert(old_seen.contains(l));
                        }
                    }
                    if exists|m: int| 0 <= m < i + 1 && comp@[m] == l {
                        let m = choose|m: int| 0 <= m < i + 1 && comp@[m] == l;
                        if m < i {
                            assert(old_seen.contains(l));
                            let x = choose|x: int| 0 <= x < old_seen.len() && old_seen[x] == l;
                            assert(seen@[x] == l);
                        } else {
                            assert(seen@[seen@.len() - 1] == l);
                        }
                    }
                }
                let ng = groups@.len() as int;
                assert forall|a: int, b: int|
                    0 <= a < n && 0 <= b < n && a != b && comp@[a] == comp@[b] && seen@.contains(comp@[a])
                        implies exists|g: int| 0 <= g < groups@.len() && #[trigger] groups@[g]@.contains(a as usize) by {
                    if comp@[a] == label {
                        assert(i <= a && i <= b);
                        assert(members@.contains(a as usize));
                        assert(members@.contains(b as usize));
                        if count < 2 {
                            let xa = choose|x: int| 0 <= x < members@.len() && members@[x] == a as usize;
                            let xb = choose|x: int| 0 <= x < members@.len() && members@[x] == b as usize;
                            assert(xa != xb);
                        }
                        assert(groups@[ng - 1] == members);
                        assert(groups@[ng - 1]@.contains(a as usize));
                    } else {
                        assert(old_seen.contains(comp@[a])) by {
                            let x = choose|x: int| 0 <= x < seen@.len() && seen@[x] == comp@[a];
                            assert(x < old_seen.len());
                            assert(old_seen[x] == comp@[a]);
                        }
                        let g = choose|g: int| 0 <= g < old_groups.len() && #[trigger] old_groups[g]@.contains(a as usize);
                        assert(groups@[g] == old_groups[g]);
                        assert(groups@[g]@.contains(a as usize));
                    }
                }
            }
        } else {
            proof {
                assert forall|l: usize| #[trigger] seen@.contains(l) <==> exists|m: int|
                    0 <= m < i + 1 && comp@[m] == l by {
                    if exists|m: int| 0 <= m < i + 1 && comp@[m] == l {
                        let m = choose|m: int| 0 <= m < i + 1 && comp@[m] == l;
                        if m == i {
                            assert(seen@.contains(label));
                        }
                    }
                }
            }
        }
        i += 1;
    }
    proof {
        assert forall|g: int, x: int, b: int|
            #![trigger groups@[g]@.contains(b as usize), groups@[g]@[x]]
            #![trigger connected(key_views(keys@), groups@[g]@[x] as int, b)]
            0 <= g < groups@.len() && 0 <= x < groups@[g]@.len() && 0 <= b < keys@.len() implies (
            groups@[g]@.contains(b as usize) <==> connected(key_views(keys@), groups@[g]@[x] as int, b)) by {
            let y = groups@[g]@[x] as int;
            assert(groups@[g]@.contains(y as usize));
        }
        assert forall|a: int, b: int| #[trigger] linked(key_views(keys@), a, b) implies exists|g: int|
            0 <= g < groups@.len() && #[trigger] groups@[g]@.contains(a as usize) by {
            lemma_connected_edge(key_views(keys@), a, b);
            assert(seen@.contains(comp@[a])) by {
                assert(0 <= a < n && comp@[a] == comp@[a]);
            }
        }
    }
    groups
}

/// A value as it is compared: trimmed and lower-cased, and `None` when
/// nothing is left.
pub open spec fn normalized_value(s: Seq<char>) -> Option<Seq<char>> {
    let v = text::lowercase(text::trim(s));
    if v.len() > 0 {
        Some(v)
    } else {
        None
    }
}

/// Trims and lower-cases `value`; `None` when it is blank.
pub fn normalized(value: &str) -> (r: Option<String>)
    ensures
        text::opt_view(r) == normalized_value(value@),
{
    let t = trim_str(value);
    let v = to_lowercase(t.as_str());
    if v.as_str().is_empty() {
        None
    } else {
        Some(v)
    }
}

/// The compared values of a library entry; an entry that could not be read
/// has none.
pub open spec fn entry_key(e: Option<Reference>) -> (Option<Seq<char>>, Option<Seq<char>>) {
    match e {
        Some(r) => (
            normalized_value(r.title@),
            match r.doi {
                Some(d) => normalized_value(d@),
                None => None,
            },
        ),
        None => (None, None),
    }
}

pub open spec fn entry_keys(entries: Seq<Option<Reference>>) -> Seq<(Option<Seq<char>>, Option<Seq<char>>)> {
    entries.map_values(|e: Option<Reference>| entry_key(e))
}

/// The key an entry is compared by.
pub fn dedup_key(entry: &Option<Reference>) -> (k: DedupKey)
    ensures
        (text::opt_view(k.title), text::opt_view(k.doi)) == entry_key(*entry),
{
    match entry {
        Some(r) => {
            let title = normalized(r.title.as_str());
            let doi = match &r.doi {
                Some(d) => normalized(d.as_str()),
                None => None,
            };
            DedupKey { title, doi }
        },
        None => DedupKey { title: None, doi: None },
    }
}

/// The groups of duplicate entries among the library's entries (in
/// directory order; `None` for one whose `info.toml` could not be read), by
/// index. Two entries are duplicates when their trimmed, lower-cased titles
/// or DOIs are equal, and duplication carries over through shared entries.
/// Each group lists every duplicate of its members in ascending order; only
/// groups of two or more are reported, ordered by their first entry.
pub fn find_duplicate_groups(entries: &Vec<Option<Reference>>) -> (groups: Vec<Vec<usize>>)
    ensures
        forall|g: int| 0 <= g < groups@.len() ==> #[trigger] groups@[g]@.len() >= 2,
        forall|g: int, x: int, y: int|
            0 <= g < groups@.len() && 0 <= x < y < groups@[g]@.len() ==> #[trigger] groups@[g]@[x]
                < #[trigger] groups@[g]@[y],
        forall|g: int, x: int|
            0 <= g < groups@.len() && 0 <= x < groups@[g]@.len() ==> #[trigger] groups@[g]@[x]
                < entries@.len(),
        forall|g: int, h: int|
            0 <= g < h < groups@.len() ==> #[trigger] groups@[g]@[0] < #[trigger] groups@[h]@[0],
        forall|g: int, x: int, b: int|
            #![trigger groups@[g]@.contains(b as usize), groups@[g]@[x]]
            #![trigger connected(entry_keys(entries@), groups@[g]@[x] as int, b)]
            0 <= g < groups@.len() && 0 <= x < groups@[g]@.len() && 0 <= b < entries@.len() ==> (
            groups@[g]@.contains(b as usize) <==> connected(entry_keys(entries@), groups@[g]@[x] as int, b)),
        forall|a: int, b: int|
            #[trigger] linked(entry_keys(entries@), a, b) ==> exists|g: int|
                0 <= g < groups@.len() && #[trigger] groups@[g]@.contains(a as usize),
{
    let mut keys: Vec<DedupKey> = Vec::new();
    let mut i: usize = 0;
    while i < entries.len()
        invariant
            i <= entries@.len(),
            keys@.len() == i,
            forall|k: int| 0 <= k < i ==> #[trigger] key_views(keys@)[k] == entry_key(entries@[k]),
        decreases entries@.len() - i,
    {
        let k = dedup_key(&entries[i]);
        let ghost before = keys@;
        keys.push(k);
        proof {
            assert forall|m: int| 0 <= m < i + 1 implies #[trigger] key_views(keys@)[m] == entry_key(entries@[m]) by {
                if m < i {
                    assert(keys@[m] == before[m]);
                    assert(key_views(before)[m] == entry_key(entries@[m]));
                } else {
                    assert(keys@[m] == k);
                }
            }
        }
        i += 1;
    }
    assert(key_views(keys@) =~= entry_keys(entries@));
    duplicate_groups(&keys)
}

/// 1 for a field that is filled in, 0 for one that is not.
#[verifier::opaque]
pub open spec fn filled(b: bool) -> nat {
    if b {
        1
    } else {
        0
    }
}

/// How many of the entry's metadata fields are filled in (a zero year counts
/// as missing).
pub open spec fn score(r: Reference) -> nat {
    filled(r.title@.len() > 0) + filled(r.authors@.len() > 0) + filled(
        r.year is Some && r.year != Some(0u16),
    ) + filled(r.doi is Some) + filled(r.arxiv is Some) + filled(r.journal is Some) + filled(
        r.publisher is Some,
    ) + filled(r.edition is Some) + filled(r.series is Some) + filled(r.isbn@.len() > 0) + filled(
        r.tags@.len() > 0,
    ) + filled(r.files@.len() > 0) + filled(r.abstract_text is Some)
}

/// Each of the thirteen metadata fields counts once: filling in any one
/// missing field (title, authors, a non-zero year, DOI, arXiv ID, journal,
/// publisher, edition, series, ISBNs, tags, files, abstract) raises the
/// score by exactly one, and an entry with all of them missing scores zero.
pub proof fn each_field_counts_once(r: Reference, s: String, v: Vec<String>, y: u16)
    requires
        s@.len() > 0,
        v@.len() > 0,
        y != 0,
    ensures
        r.title@.len() == 0 ==> score(Reference { title: s, ..r }) == score(r) + 1,
        r.authors@.len() == 0 ==> score(Reference { authors: v, ..r }) == score(r) + 1,
        r.year is None ==> score(Reference { year: Some(y), ..r }) == score(r) + 1,
        r.doi is None ==> score(Reference { doi: Some(s), ..r }) == score(r) + 1,
        r.arxiv is None ==> score(Reference { arxiv: Some(s), ..r }) == score(r) + 1,
        r.journal is None ==> score(Reference { journal: Some(s), ..r }) == score(r) + 1,
        r.publisher is None ==> score(Reference { publisher: Some(s), ..r }) == score(r) + 1,
        r.edition is None ==> score(Reference { edition: Some(s), ..r }) == score(r) + 1,
        r.series is None ==> score(Reference { series: Some(s), ..r }) == score(r) + 1,
        r.isbn@.len() == 0 ==> score(Reference { isbn: v, ..r }) == score(r) + 1,
        r.tags@.len() == 0 ==> score(Reference { tags: v, ..r }) == score(r) + 1,
        r.files@.len() == 0 ==> score(Reference { files: v, ..r }) == score(r) + 1,
        r.abstract_text is None ==> score(Reference { abstract_text: Some(s), ..r }) == score(r) + 1,
        (r.title@.len() == 0 && r.authors@.len() == 0 && r.year is None && r.doi is None && r.arxiv is None
            && r.journal is None && r.publisher is None && r.edition is None && r.series is None
            && r.isbn@.len() == 0 && r.tags@.len() == 0 && r.files@.len() == 0 && r.abstract_text is None)
            ==> score(r) == 0,
{
    reveal(filled);
}

fn one_if(b: bool) -> (n: u32)
    ensures
        n == filled(b),
        n <= 1,
{
    reveal(filled);
    if b {
        1
    } else {
        0
    }
}

/// The number of filled-in metadata fields, used to pick the copy to keep.
pub fn metadata_score(reference: &Reference) -> (n: u32)
    ensures
        n == score(*reference),
{
    let r = reference;
    let mut n: u32 = one_if(!r.title.as_str().is_empty());
    n = n + one_if(r.authors.len() > 0);
    n = n + one_if(r.year.is_some() && r.year != Some(0u16));
    n = n + one_if(r.doi.is_some());
    n = n + one_if(r.arxiv.is_some());
    n = n + one_if(r.journal.is_some());
    n = n + one_if(r.publisher.is_some());
    n = n + one_if(r.edition.is_some());
    n = n + one_if(r.series.is_some());
    n = n + one_if(r.isbn.len() > 0);
    n = n + one_if(r.tags.len() > 0);
    n = n + one_if(r.files.len() > 0);
    n = n + one_if(r.abstract_text.is_some());
    n
}

/// One copy within a duplicate group.
#[derive(Debug, Clone)]
pub struct Candidate {
    pub key: String,
    pub title: String,
    pub doi: Option<String>,
    pub metadata_score: u32,
    pub has_pdf: bool,
    /// The copy suggested for keeping.
    pub recommended: bool,
}

/// The copies of one work.
#[derive(Debug, Clone)]
pub struct DuplicateGroup {
    pub candidates: Vec<Candidate>,
}

/// Copy `a` ranks at least as high as copy `b`: a PDF first, then the
/// metadata score.
pub open spec fn ranks_at_least(a_pdf: bool, a_score: nat, b_pdf: bool, b_score: nat) -> bool {
    (a_pdf && !b_pdf) || (a_pdf == b_pdf && a_score >= b_score)
}

/// The copy recommended among the first `n`: the last of the highest-ranked.
pub open spec fn best_of(pdf: Seq<bool>, scores: Seq<nat>, n: int) -> int
    decreases n,
{
    if n <= 1 {
        0
    } else {
        let b = best_of(pdf, scores, n - 1);
        if ranks_at_least(pdf[n - 1], scores[n - 1], pdf[b], scores[b]) {
            n - 1
        } else {
            b
        }
    }
}

proof fn lemma_best_of_range(pdf: Seq<bool>, scores: Seq<nat>, n: int)
    requires
        n >= 1,
    ensures
        0 <= best_of(pdf, scores, n) < n,
    decreases n,
{
    if n > 1 {
        lemma_best_of_range(pdf, scores, n - 1);
    }
}

/// The PDF flags of a group's candidates.
pub open spec fn candidate_pdfs(c: Seq<Candidate>) -> Seq<bool> {
    c.map_values(|x: Candidate| x.has_pdf)
}

/// The metadata scores of a group's candidates.
pub open spec fn candidate_scores(c: Seq<Candidate>) -> Seq<nat> {
    c.map_values(|x: Candidate| x.metadata_score as nat)
}

/// Describes a duplicate group from its entries' keys, metadata and whether
/// each directory holds a PDF. Exactly one candidate is recommended: the
/// last of those with a PDF and the highest score.
#[verifier::rlimit(50)]
pub fn describe(keys: &Vec<String>, references: &Vec<Reference>, has_pdf: &Vec<bool>) -> (g: DuplicateGroup)
    requires
        keys@.len() == references@.len(),
        keys@.len() == has_pdf@.len(),
    ensures
        g.candidates@.len() == keys@.len(),
        forall|i: int| 0 <= i < keys@.len() ==> {
            let c = #[trigger] g.candidates@[i];
            &&& c.key@ == keys@[i]@
            &&& c.title@ == references@[i].title@
            &&& text::opt_view(c.doi) == text::opt_view(references@[i].doi)
            &&& c.metadata_score == score(references@[i])
            &&& c.has_pdf == has_pdf@[i]
            &&& c.recommended == (i == best_of(
                candidate_pdfs(g.candidates@),
                candidate_scores(g.candidates@),
                keys@.len() as int,
            ))
        },
{
    let n = keys.len();
    let mut candidates: Vec<Candidate> = Vec::new();
    let mut best: usize = 0;
    let mut i: usize = 0;
    while i < n
        invariant
            n == keys@.len(),
            n == references@.len(),
            n == has_pdf@.len(),
            i <= n,
            candidates@.len() == i,
            i > 0 ==> best < i,
            i > 0 ==> best == best_of(candidate_pdfs(candidates@), candidate_scores(candidates@), i as int),
            forall|k: int| 0 <= k < i ==> {
                let c = #[trigger] candidates@[k];
                &&& c.key@ == keys@[k]@
                &&& c.title@ == references@[k].title@
                &&& text::opt_view(c.doi) == text::opt_view(references@[k].doi)
                &&& c.metadata_score == score(references@[k])
                &&& c.has_pdf == has_pdf@[k]
                &&& !c.recommended
            },
        decreases n - i,
    {
        let r = &references[i];
        let c = Candidate {
            key: keys[i].clone(),
            title: r.title.clone(),
            doi: text::clone_opt(&r.doi),
            metadata_score: metadata_score(r),
            has_pdf: has_pdf[i],
            recommended: false,
        };
        let ghost before = candidates@;
        let pick = if i == 0 {
            true
        } else {
            let b = &candidates[best];
            (c.has_pdf && !b.has_pdf) || (c.has_pdf == b.has_pdf && c.metadata_score >= b.metadata_score)
        };
        candidates.push(c);
        proof {
            let pdfs = candidate_pdfs(candidates@);
            let scores = candidate_scores(candidates@);
            assert(candidate_pdfs(before) =~= pdfs.take(i as int));
            assert(candidate_scores(before) =~= scores.take(i as int));
            assert(pdfs[i as int] == c.has_pdf);
            assert(scores[i as int] == c.metadata_score);
            if i > 0 {
                lemma_best_of_prefix(pdfs, scores, i as int, i as int);
                assert(best_of(pdfs, scores, i as int) == best as int);
                assert(pdfs[best as int] == before[best as int].has_pdf);
                assert(scores[best as int] == before[best as int].metadata_score);
            }
        }
        if pick {
            best = i;
        }
        i += 1;
    }
    if n > 0 {
        let ghost before = candidates@;
        let mut chosen = candidates.remove(best);
        chosen.recommended = true;
        candidates.insert(best, chosen);
        proof {
            assert(candidate_pdfs(candidates@) =~= candidate_pdfs(before));
            assert(candidate_scores(candidates@) =~= candidate_scores(before));
        }
    }
    DuplicateGroup { candidates }
}

proof fn lemma_best_of_prefix(pdf: Seq<bool>, scores: Seq<nat>, len: int, m: int)
    requires
        0 <= m <= len <= pdf.len(),
        len <= scores.len(),
    ensures
        best_of(pdf.take(len), scores.take(len), m) == best_of(pdf, scores, m),
    decreases m,
{
    if m > 1 {
        lemma_best_of_prefix(pdf, scores, len, m - 1);
        lemma_best_of_range(pdf, scores, m - 1);
    }
}

/// Why a `dedup` request was refused.
#[derive(Debug, Clone, PartialEq)]
pub enum DedupError {
    /// `--keep` was given without `--apply`.
    KeepRequiresApply,
    /// `--apply` was given without any `--keep`.
    ApplyRequiresKeep,
    /// The key belongs to no duplicate group.
    NotInGroup(String),
    /// A second key was chosen in a group that already has one.
    SecondKeepInGroup(String),
}

impl DedupError {
    pub fn message(&self) -> (m: String)
        ensures
            m@ == match self {
                DedupError::KeepRequiresApply => "--keep requires --apply"@,
                DedupError::ApplyRequiresKeep => "--apply requires at least one --keep key"@,
                DedupError::NotInGroup(key) => key@ + " is not in a duplicate group"@,
                DedupError::SecondKeepInGroup(_) => "Only one --keep key may be selected per duplicate group"@,
            },
    {
        match self {
            DedupError::KeepRequiresApply => "--keep requires --apply".to_string(),
            DedupError::ApplyRequiresKeep => "--apply requires at least one --keep key".to_string(),
            DedupError::NotInGroup(key) => {
                let mut m = key.clone();
                text::push_str(&mut m, " is not in a duplicate group");
                m
            },
            DedupError::SecondKeepInGroup(_) => "Only one --keep key may be selected per duplicate group".to_string(),
        }
    }
}

/// The member keys of each group, as characters.
pub open spec fn group_keys(groups: Seq<Vec<String>>) -> Seq<Seq<Seq<char>>> {
    groups.map_values(|g: Vec<String>| text::views(g@))
}

/// The first group, at `g` or later, that has `key` as a member.
pub open spec fn first_group_from(groups: Seq<Seq<Seq<char>>>, key: Seq<char>, g: int) -> Option<int>
    decreases groups.len() - g,
{
    if g < 0 || g >= groups.len() {
        None
    } else if groups[g].contains(key) {
        Some(g)
    } else {
        first_group_from(groups, key, g + 1)
    }
}

/// The copy chosen per group after the `keep` keys are taken in order, or
/// the first key that fails: `(true, key)` when it is in no group, `(false,
/// key)` when its group already has a chosen copy.
pub open spec fn selection(groups: Seq<Seq<Seq<char>>>, keep: Seq<Seq<char>>) -> Result<
    Seq<Option<Seq<char>>>,
    (bool, Seq<char>),
>
    decreases keep.len(),
{
    if keep.len() == 0 {
        Ok(Seq::new(groups.len(), |g: int| None))
    } else {
        match selection(groups, keep.drop_last()) {
            Err(e) => Err(e),
            Ok(sel) => {
                let k = keep.last();
                match first_group_from(groups, k, 0) {
                    None => Err((true, k)),
                    Some(g) => if sel[g] is Some {
                        Err((false, k))
                    } else {
                        Ok(sel.update(g, Some(k)))
                    },
                }
            },
        }
    }
}

proof fn lemma_first_group_range(groups: Seq<Seq<Seq<char>>>, key: Seq<char>, g: int)
    ensures
        first_group_from(groups, key, g) matches Some(h) ==> g <= h < groups.len() && groups[h].contains(key),
    decreases groups.len() - g,
{
    if 0 <= g < groups.len() && !groups[g].contains(key) {
        lemma_first_group_range(groups, key, g + 1);
    }
}

proof fn lemma_selection_len(groups: Seq<Seq<Seq<char>>>, keep: Seq<Seq<char>>)
    ensures
        selection(groups, keep) matches Ok(sel) ==> sel.len() == groups.len(),
    decreases keep.len(),
{
    if keep.len() > 0 {
        lemma_selection_len(groups, keep.drop_last());
        lemma_first_group_range(groups, keep.last(), 0);
    }
}

/// The option views of a selection.
pub open spec fn chosen_views(sel: Seq<Option<String>>) -> Seq<Option<Seq<char>>> {
    sel.map_values(|o: Option<String>| text::opt_view(o))
}

fn group_of(groups: &Vec<Vec<String>>, key: &str) -> (r: Option<usize>)
    ensures
        match r {
            Some(g) => first_group_from(group_keys(groups@), key@, 0) == Some(g as int),
            None => first_group_from(group_keys(groups@), key@, 0) is None,
        },
{
    let ghost gk = group_keys(groups@);
    let mut g: usize = 0;
    while g < groups.len()
        invariant
            gk == group_keys(groups@),
            g <= groups@.len(),
            first_group_from(gk, key@, 0) == first_group_from(gk, key@, g as int),
        decreases groups@.len() - g,
    {
        let members = &groups[g];
        let mut x: usize = 0;
        let mut found = false;
        while x < members.len()
            invariant
                x <= members@.len(),
                found ==> text::views(members@).contains(key@),
                !found ==> forall|y: int| 0 <= y < x ==> members@[y]@ != key@,
            decreases members@.len() - x,
        {
            if str_eq(members[x].as_str(), key) {
                found = true;
                assert(text::views(members@)[x as int] == key@);
            }
            x += 1;
        }
        assert(gk[g as int] == text::views(members@));
        if found {
            return Some(g);
        }
        proof {
            if text::views(members@).contains(key@) {
                let y = choose|y: int| 0 <= y < text::views(members@).len() && text::views(members@)[y] == key@;
                assert(members@[y]@ == key@);
            }
        }
        g += 1;
    }
    None
}

/// Checks a `dedup` request and picks the copy to keep in each group
/// (`None` where none is kept). Without `--apply` no key may be given and
/// nothing is kept; with it at least one must be, each in a group of its
/// own.
pub fn select_kept(groups: &Vec<Vec<String>>, keep: &Vec<String>, apply: bool) -> (r: Result<Vec<Option<String>>, DedupError>)
    ensures
        match r {
            Err(DedupError::KeepRequiresApply) => !apply && keep@.len() > 0,
            Err(DedupError::ApplyRequiresKeep) => apply && keep@.len() == 0,
            Err(DedupError::NotInGroup(k)) => apply && keep@.len() > 0 && selection(
                group_keys(groups@),
                text::views(keep@),
            ) == Err::<Seq<Option<Seq<char>>>, (bool, Seq<char>)>((true, k@)),
            Err(DedupError::SecondKeepInGroup(k)) => apply && keep@.len() > 0 && selection(
                group_keys(groups@),
                text::views(keep@),
            ) == Err::<Seq<Option<Seq<char>>>, (bool, Seq<char>)>((false, k@)),
            Ok(sel) => (apply == (keep@.len() > 0)) && selection(group_keys(groups@), text::views(keep@))
                == Ok::<Seq<Option<Seq<char>>>, (bool, Seq<char>)>(chosen_views(sel@)),
        },
{
    if !apply && keep.len() > 0 {
        return Err(DedupError::KeepRequiresApply);
    }
    if apply && keep.len() == 0 {
        return Err(DedupError::ApplyRequiresKeep);
    }
    let ghost gk = group_keys(groups@);
    let mut sel: Vec<Option<String>> = Vec::new();
    let mut g: usize = 0;
    while g < groups.len()
        invariant
            g <= groups@.len(),
            sel@.len() == g,
            forall|h: int| 0 <= h < g ==> sel@[h] is None,
        decreases groups@.len() - g,
    {
        sel.push(None);
        g += 1;
    }
    proof {
        assert(text::views(keep@).take(0) =~= Seq::<Seq<char>>::empty());
        assert(chosen_views(sel@) =~= Seq::new(gk.len(), |g: int| None::<Seq<char>>));
    }
    let mut i: usize = 0;
    while i < keep.len()
        invariant
            gk == group_keys(groups@),
            apply == (keep@.len() > 0),
            i <= keep@.len(),
            sel@.len() == groups@.len(),
            selection(gk, text::views(keep@).take(i as int)) == Ok::<Seq<Option<Seq<char>>>, (bool, Seq<char>)>(
                chosen_views(sel@),
            ),
        decreases keep@.len() - i,
    {
        let key = &keep[i];
        let ghost pre = text::views(keep@).take(i as int);
        let ghost next = text::views(keep@).take(i + 1);
        proof {
            assert(next.drop_last() =~= pre);
            assert(next.last() == key@);
        }
        match group_of(groups, key.as_str()) {
            None => {
                proof {
                    lemma_selection_prefix_err(gk, text::views(keep@), i as int + 1, (true, key@));
                }
                return Err(DedupError::NotInGroup(key.clone()));
            },
            Some(gi) => {
                proof {
                    lemma_first_group_range(gk, key@, 0);
                }
                if sel[gi].is_some() {
                    proof {
                        assert(chosen_views(sel@)[gi as int] is Some);
                        lemma_selection_prefix_err(gk, text::views(keep@), i as int + 1, (false, key@));
                    }
                    return Err(DedupError::SecondKeepInGroup(key.clone()));
                }
                let ghost before = sel@;
                sel.set(gi, Some(key.clone()));
                proof {
                    assert(chosen_views(sel@) =~= chosen_views(before).update(gi as int, Some(key@)));
                }
            },
        }
        i += 1;
    }
    assert(text::views(keep@).take(keep@.len() as int) =~= text::views(keep@));
    Ok(sel)
}

/// Once a prefix of the keep list fails, the whole list fails the same way.
proof fn lemma_selection_prefix_err(
    groups: Seq<Seq<Seq<char>>>,
    keep: Seq<Seq<char>>,
    n: int,
    e: (bool, Seq<char>),
)
    requires
        0 <= n <= keep.len(),
        selection(groups, keep.take(n)) == Err::<Seq<Option<Seq<char>>>, (bool, Seq<char>)>(e),
    ensures
        selection(groups, keep) == Err::<Seq<Option<Seq<char>>>, (bool, Seq<char>)>(e),
    decreases keep.len() - n,
{
    if n < keep.len() {
        let t = keep.take(n + 1);
        assert(t.drop_last() =~= keep.take(n));
        lemma_selection_prefix_err(groups, keep, n + 1, e);
    } else {
        assert(keep.take(n) =~= keep);
    }
}

/// The members of a group other than the kept one, in order.
pub open spec fn others(members: Seq<String>, kept: Seq<char>) -> Seq<String>
    decreases members.len(),
{
    if members.len() == 0 {
        members
    } else if members.last()@ == kept {
        others(members.drop_last(), kept)
    } else {
        others(members.drop_last(), kept).push(members.last())
    }
}

/// Every entry to be removed: the members of each group with a kept copy,
/// other than that copy, group by group.
pub open spec fn doomed(groups: Seq<Vec<String>>, sel: Seq<Option<String>>, n: int) -> Seq<String>
    decreases n,
{
    if n <= 0 {
        Seq::empty()
    } else {
        doomed(groups, sel, n - 1) + match sel[n - 1] {
            Some(kept) => others(groups[n - 1]@, kept@),
            None => Seq::empty(),
        }
    }
}

/// A directory to move out of the library, and the copy kept in its place.
#[derive(Debug, Clone)]
pub struct Removal {
    pub key: String,
    pub kept: String,
}

/// The keys of a list of removals.
pub open spec fn removal_keys(s: Seq<Removal>) -> Seq<String> {
    s.map_values(|m: Removal| m.key)
}

fn others_of(members: &Vec<String>, kept: &str, out: &mut Vec<String>)
    ensures
        final(out)@ == old(out)@ + others(members@, kept@),
{
    let mut x: usize = 0;
    while x < members.len()
        invariant
            x <= members@.len(),
            out@ == old(out)@ + others(members@.take(x as int), kept@),
        decreases members@.len() - x,
    {
        proof {
            assert(members@.take(x + 1).drop_last() =~= members@.take(x as int));
            assert(members@.take(x + 1).last() == members@[x as int]);
        }
        if !str_eq(members[x].as_str(), kept) {
            out.push(members[x].clone());
            assert(out@ =~= old(out)@ + others(members@.take(x + 1), kept@));
        }
        x += 1;
    }
    assert(members@.take(members@.len() as int) =~= members@);
}

/// The copy kept in the group holding `key`, for the first group with a
/// kept copy that has it.
fn kept_for(groups: &Vec<Vec<String>>, sel: &Vec<Option<String>>, key: &str) -> (r: Option<String>)
    requires
        sel@.len() == groups@.len(),
    ensures
        r matches Some(k) ==> exists|g: int|
            0 <= g < groups@.len() && sel@[g] == Some(k) && #[trigger] text::views(groups@[g]@).contains(key@),
        r is None ==> forall|g: int|
            0 <= g < groups@.len() && sel@[g] is Some ==> !#[trigger] text::views(groups@[g]@).contains(key@),
{
    let mut g: usize = 0;
    while g < groups.len()
        invariant
            sel@.len() == groups@.len(),
            g <= groups@.len(),
            forall|h: int|
                0 <= h < g && sel@[h] is Some ==> !#[trigger] text::views(groups@[h]@).contains(key@),
        decreases groups@.len() - g,
    {
        if let Some(kept) = &sel[g] {
            let members = &groups[g];
            let mut x: usize = 0;
            while x < members.len()
                invariant
                    x <= members@.len(),
                    g < groups@.len(),
                    sel@.len() == groups@.len(),
                    *members == groups@[g as int],
                    sel@[g as int] == Some(*kept),
                    forall|y: int| 0 <= y < x ==> members@[y]@ != key@,
                decreases members@.len() - x,
            {
                if str_eq(members[x].as_str(), key) {
                    assert(text::views(members@)[x as int] == key@);
                    assert(text::views(groups@[g as int]@).contains(key@));
                    return Some(kept.clone());
                }
                x += 1;
            }
            proof {
                if text::views(members@).contains(key@) {
                    let y = choose|y: int| 0 <= y < text::views(members@).len() && text::views(members@)[y] == key@;
                    assert(members@[y]@ == key@);
                }
            }
        }
        g += 1;
    }
    None
}

proof fn lemma_others_subset(members: Seq<String>, kept: Seq<char>, x: String)
    requires
        others(members, kept).contains(x),
    ensures
        text::views(members).contains(x@),
    decreases members.len(),
{
    if members.len() > 0 {
        let rest = others(members.drop_last(), kept);
        if members.last()@ != kept && x == members.last() {
            assert(text::views(members)[members.len() - 1] == x@);
        } else {
            if members.last()@ != kept {
                let k = choose|k: int| 0 <= k < others(members, kept).len() && others(members, kept)[k] == x;
                assert(k < rest.len());
                assert(rest[k] == x);
            }
            lemma_others_subset(members.drop_last(), kept, x);
            let k = choose|k: int| 0 <= k < text::views(members.drop_last()).len() && text::views(members.drop_last())[k] == x@;
            assert(text::views(members)[k] == x@);
        }
    }
}

proof fn lemma_doomed_has_group(groups: Seq<Vec<String>>, sel: Seq<Option<String>>, n: int, x: String)
    requires
        0 <= n <= groups.len(),
        n <= sel.len(),
        doomed(groups, sel, n).contains(x),
    ensures
        exists|g: int| 0 <= g < n && sel[g] is Some && #[trigger] text::views(groups[g]@).contains(x@),
    decreases n,
{
    if n > 0 {
        let a = doomed(groups, sel, n - 1);
        let b = match sel[n - 1] {
            Some(kept) => others(groups[n - 1]@, kept@),
            None => Seq::empty(),
        };
        let k = choose|k: int| 0 <= k < (a + b).len() && (a + b)[k] == x;
        if k < a.len() {
            assert(a[k] == x);
            lemma_doomed_has_group(groups, sel, n - 1, x);
        } else {
            assert(b[k - a.len()] == x);
            assert(b.contains(x));
            lemma_others_subset(groups[n - 1]@, sel[n - 1]->0@, x);
            assert(text::views(groups[n - 1]@).contains(x@));
        }
    }
}

/// The entries to move out once the kept copies are chosen, sorted by key,
/// each with the copy kept in its group.
pub fn removals(groups: &Vec<Vec<String>>, sel: &Vec<Option<String>>) -> (r: Vec<Removal>)
    requires
        sel@.len() == groups@.len(),
    ensures
        removal_keys(r@).to_multiset() == doomed(groups@, sel@, groups@.len() as int).to_multiset(),
        text::sorted_strings(removal_keys(r@)),
        forall|i: int| 0 <= i < r@.len() ==> exists|g: int|
            0 <= g < groups@.len() && sel@[g] == Some(#[trigger] r@[i].kept)
                && text::views(groups@[g]@).contains(r@[i].key@),
{
    let mut keys: Vec<String> = Vec::new();
    let mut g: usize = 0;
    while g < groups.len()
        invariant
            sel@.len() == groups@.len(),
            g <= groups@.len(),
            keys@ == doomed(groups@, sel@, g as int),
        decreases groups@.len() - g,
    {
        if let Some(kept) = &sel[g] {
            others_of(&groups[g], kept.as_str(), &mut keys);
        } else {
            assert(keys@ =~= doomed(groups@, sel@, g + 1));
        }
        g += 1;
    }
    let sorted = sort_strings(keys);
    let mut out: Vec<Removal> = Vec::new();
    let mut i: usize = 0;
    while i < sorted.len()
        invariant
            sel@.len() == groups@.len(),
            i <= sorted@.len(),
            out@.len() == i,
            sorted@.to_multiset() == doomed(groups@, sel@, groups@.len() as int).to_multiset(),
            text::sorted_strings(sorted@),
            removal_keys(out@) == sorted@.take(i as int),
            forall|k: int| 0 <= k < out@.len() ==> exists|g: int|
                0 <= g < groups@.len() && sel@[g] == Some(#[trigger] out@[k].kept)
                    && text::views(groups@[g]@).contains(out@[k].key@),
        decreases sorted@.len() - i,
    {
        let key = sorted[i].clone();
        match kept_for(groups, sel, key.as_str()) {
            Some(kept) => {
                let ghost before = out@;
                out.push(Removal { key, kept });
                proof {
                    assert(out@[i as int].key == sorted@[i as int]);
                    assert forall|k: int| 0 <= k < i + 1 implies #[trigger] removal_keys(out@)[k]
                        == sorted@.take(i + 1)[k] by {
                        if k < i {
                            assert(out@[k] == before[k]);
                            assert(removal_keys(before)[k] == sorted@.take(i as int)[k]);
                        }
                    }
                    assert(removal_keys(out@) =~= sorted@.take(i + 1));
                }
            },
            None => {
                proof {
                    let d = doomed(groups@, sel@, groups@.len() as int);
                    sorted@.to_multiset_ensures();
                    d.to_multiset_ensures();
                    assert(sorted@.contains(sorted@[i as int]));
                    assert(sorted@.to_multiset().count(key) > 0);
                    assert(d.to_multiset().count(key) > 0);
                    assert(d.contains(key));
                    lemma_doomed_has_group(groups@, sel@, groups@.len() as int, key);
                }
            },
        }
        i += 1;
    }
    assert(sorted@.take(sorted@.len() as int) =~= sorted@);
    out
}

/// An entry moved to the library's trash.
#[derive(Debug, Clone)]
pub struct RemovedReference {
    pub key: String,
    /// The copy kept in its place.
    pub kept: String,
    /// Where the directory now lies.
    pub trash_path: String,
}

/// The outcome of a `dedup` run: the groups found and, when applied, what
/// was moved to the trash.
#[derive(Debug, Clone)]
pub struct DedupReport {
    pub groups: Vec<DuplicateGroup>,
    pub applied: bool,
    pub removed: Vec<RemovedReference>,
}

/// The name tried for `key` in the trash on the given attempt: the key
/// itself first, then the key with `-1`, `-2`, ... appended.
pub fn trash_name(key: &str, attempt: u64) -> (s: String)
    ensures
        s@ == (if attempt == 0 {
            key@
        } else {
            key@ + "-"@ + text::decimal(attempt as nat)
        }),
{
    let mut s = key.to_string();
    if attempt > 0 {
        text::push_str(&mut s, "-");
        text::push_decimal(&mut s, attempt);
    }
    s
}

} // verus!
