//! The non-interactive commands: listing, key validation and citations.
use vstd::prelude::*;

use crate::model::Reference;
use crate::storage::str_eq;
use crate::text::{
    self, chars_of, contains_chars, eq_ignore_ascii_case, join_strings, push_str, to_lowercase,
    trim_str,
};

verus! {

/// One library entry as the commands report it.
#[derive(Debug, Clone, PartialEq)]
pub struct ReferenceRecord {
    /// The directory name, which is also the citation key.
    pub key: String,
    pub directory: String,
    pub pdf: Option<String>,
    pub reference: Reference,
}

pub open spec fn or_empty(o: Option<Seq<char>>) -> Seq<char> {
    match o {
        Some(s) => s,
        None => seq![],
    }
}

/// The text a query is matched against: key, title, authors, tags, DOI,
/// arXiv ID, publisher, series, edition and ISBNs, separated by spaces.
pub open spec fn searchable(rec: ReferenceRecord) -> Seq<char> {
    let r = rec.reference@;
    text::join(
        seq![
            rec.key@,
            r.title,
            text::join(r.authors, " "@),
            text::join(r.tags, " "@),
            or_empty(r.doi),
            or_empty(r.arxiv),
            or_empty(r.publisher),
            or_empty(r.series),
            or_empty(r.edition),
            text::join(r.isbn, " "@),
        ],
        " "@,
    )
}

/// The query that filters: the trimmed text when it is not blank.
pub open spec fn effective_query(q: Option<Seq<char>>) -> Option<Seq<char>> {
    match q {
        Some(s) => if text::trim(s).len() > 0 {
            Some(text::trim(s))
        } else {
            None
        },
        None => None,
    }
}

/// `rec` carries one of `tags`, compared ignoring ASCII case.
pub open spec fn has_wanted_tag(rec: ReferenceRecord, tags: Seq<Seq<char>>) -> bool {
    exists|i: int, j: int|
        0 <= i < rec.reference.tags@.len() && 0 <= j < tags.len() && text::eq_ascii_ci(
            #[trigger] rec.reference.tags@[i]@,
            #[trigger] tags[j],
        )
}

/// `rec` passes the query (case-insensitive substring of `searchable`) and
/// the tag filter (any wanted tag, or no tags wanted).
pub open spec fn record_matches(
    rec: ReferenceRecord,
    query: Option<Seq<char>>,
    tags: Seq<Seq<char>>,
) -> bool {
    &&& (query is None || text::contains(
        text::lowercase(searchable(rec)),
        text::lowercase(query->0),
    ))
    &&& (tags.len() == 0 || has_wanted_tag(rec, tags))
}

/// The records that match, in library order.
pub open spec fn matching(
    recs: Seq<ReferenceRecord>,
    query: Option<Seq<char>>,
    tags: Seq<Seq<char>>,
) -> Seq<ReferenceRecord>
    decreases recs.len(),
{
    if recs.len() == 0 {
        seq![]
    } else {
        let kept = matching(recs.drop_last(), query, tags);
        if record_matches(recs.last(), query, tags) {
            kept.push(recs.last())
        } else {
            kept
        }
    }
}

/// At most `limit` leading elements of `s`.
pub open spec fn limited<T>(s: Seq<T>, limit: Option<usize>) -> Seq<T> {
    match limit {
        Some(n) => if n < s.len() {
            s.take(n as int)
        } else {
            s
        },
        None => s,
    }
}

fn searchable_text(rec: &ReferenceRecord) -> (s: String)
    ensures
        s@ == searchable(*rec),
{
    let r = &rec.reference;
    let empty = String::new();
    let mut pieces: Vec<String> = Vec::new();
    pieces.push(rec.key.clone());
    pieces.push(r.title.clone());
    pieces.push(join_strings(&r.authors, " "));
    pieces.push(join_strings(&r.tags, " "));
    pieces.push(
        match &r.doi {
            Some(d) => d.clone(),
            None => empty.clone(),
        },
    );
    pieces.push(
        match &r.arxiv {
            Some(d) => d.clone(),
            None => empty.clone(),
        },
    );
    pieces.push(
        match &r.publisher {
            Some(d) => d.clone(),
            None => empty.clone(),
        },
    );
    pieces.push(
        match &r.series {
            Some(d) => d.clone(),
            None => empty.clone(),
        },
    );
    pieces.push(
        match &r.edition {
            Some(d) => d.clone(),
            None => empty.clone(),
        },
    );
    pieces.push(join_strings(&r.isbn, " "));
    let ghost v = rec.reference@;
    assert(text::views(pieces@) =~= seq![
        rec.key@,
        v.title,
        text::join(v.authors, " "@),
        text::join(v.tags, " "@),
        or_empty(v.doi),
        or_empty(v.arxiv),
        or_empty(v.publisher),
        or_empty(v.series),
        or_empty(v.edition),
        text::join(v.isbn, " "@),
    ]);
    join_strings(&pieces, " ")
}

fn wanted_tag(rec: &ReferenceRecord, tags: &[String]) -> (b: bool)
    ensures
        b == has_wanted_tag(*rec, text::views(tags@)),
{
    let own = &rec.reference.tags;
    let mut i: usize = 0;
    while i < own.len()
        invariant
            own@ == rec.reference.tags@,
            i <= own@.len(),
            forall|a: int, b: int|
                0 <= a < i && 0 <= b < tags@.len() ==> !text::eq_ascii_ci(
                    #[trigger] own@[a]@,
                    #[trigger] tags@[b]@,
                ),
        decreases own@.len() - i,
    {
        let mut j: usize = 0;
        while j < tags.len()
            invariant
                own@ == rec.reference.tags@,
                i < own@.len(),
                j <= tags@.len(),
                forall|a: int, b: int|
                    0 <= a < i && 0 <= b < tags@.len() ==> !text::eq_ascii_ci(
                        #[trigger] own@[a]@,
                        #[trigger] tags@[b]@,
                    ),
                forall|b: int| 0 <= b < j ==> !text::eq_ascii_ci(own@[i as int]@, #[trigger] tags@[b]@),
            decreases tags@.len() - j,
        {
            if eq_ignore_ascii_case(own[i].as_str(), tags[j].as_str()) {
                assert(text::views(tags@)[j as int] == tags@[j as int]@);
                assert(text::eq_ascii_ci(rec.reference.tags@[i as int]@, text::views(tags@)[j as int]));
                return true;
            }
            j += 1;
        }
        i += 1;
    }
    assert forall|a: int, b: int|
        0 <= a < own@.len() && 0 <= b < text::views(tags@).len() implies !text::eq_ascii_ci(
        own@[a]@,
        text::views(tags@)[b],
    ) by {
        assert(text::views(tags@)[b] == tags@[b]@);
    }
    false
}

/// Filters `records` (the readable entries of the library, in directory
/// order) by a case-insensitive substring `query` over key and metadata and by
/// `tags` (any of them, ignoring ASCII case), keeping at most `limit`.
pub fn list(
    records: Vec<ReferenceRecord>,
    query: Option<&str>,
    tags: &[String],
    limit: Option<usize>,
) -> (r: Vec<ReferenceRecord>)
    ensures
        r@ == limited(
            matching(
                records@,
                effective_query(
                    match query {
                        Some(q) => Some(q@),
                        None => None,
                    },
                ),
                text::views(tags@),
            ),
            limit,
        ),
{
    let ghost q = effective_query(
        match query {
            Some(q) => Some(q@),
            None => None,
        },
    );
    let wanted: Option<String> = match query {
        Some(q) => {
            let t = trim_str(q);
            if t.as_str().is_empty() {
                None
            } else {
                Some(t)
            }
        },
        None => None,
    };
    assert(text::opt_view(wanted) == q);
    let needle: Vec<char> = match &wanted {
        Some(w) => chars_of(to_lowercase(w.as_str()).as_str()),
        None => Vec::new(),
    };
    let ghost tv = text::views(tags@);
    let mut kept: Vec<ReferenceRecord> = Vec::new();
    let ghost all = records@;
    for rec in it: records.into_iter()
        invariant
            all == it.seq(),
            text::opt_view(wanted) == q,
            wanted is Some ==> needle@ == text::lowercase(q->0),
            tv == text::views(tags@),
            kept@ == matching(it.seq().take(it.index() as int), q, tv),
    {
        let ghost prefix = it.seq().take(it.index() as int);
        let query_ok = match &wanted {
            Some(_) => {
                let hay = chars_of(to_lowercase(searchable_text(&rec).as_str()).as_str());
                contains_chars(&hay, &needle)
            },
            None => true,
        };
        let tag_ok = tags.len() == 0 || wanted_tag(&rec, tags);
        proof {
            let next = it.seq().take(it.index() + 1);
            assert(next.drop_last() =~= prefix);
            assert(next.last() == rec);
            assert((query_ok && tag_ok) == record_matches(rec, q, tv));
        }
        if query_ok && tag_ok {
            kept.push(rec);
        }
    }
    assert(all.take(all.len() as int) =~= all);
    if let Some(n) = limit {
        if n < kept.len() {
            kept.truncate(n);
            assert(kept@ =~= limited(matching(all, q, tv), limit));
        }
    }
    kept
}

/// A malformed reference key.
#[derive(Debug, Clone, Copy, PartialEq, Eq, Structural)]
pub enum KeyError {
    /// The key is empty, absolute, or names more than one path component.
    NotOneComponent,
}

/// Length of the run of non-`/` characters that starts `s`.
pub open spec fn segment_len(s: Seq<char>) -> nat
    decreases s.len(),
{
    if s.len() == 0 || s[0] == '/' {
        0
    } else {
        1 + segment_len(s.drop_first())
    }
}

/// The number of non-empty `/`-separated segments of `s` other than `.`.
pub open spec fn named_segments(s: Seq<char>) -> nat
    decreases s.len(),
{
    if s.len() == 0 {
        0
    } else if s[0] == '/' {
        named_segments(s.drop_first())
    } else {
        proof {
            lemma_segment_len_bound(s);
        }
        let n = segment_len(s);
        if n < 1 {
            0
        } else {
            (if s.take(n as int) == seq!['.'] {
                0nat
            } else {
                1nat
            }) + named_segments(s.skip(n as int))
        }
    }
}

/// The number of components `Path::components` yields for a relative path
/// on Unix: a leading `.` segment counts as the current directory, and every
/// other non-empty segment except `.` counts once.
pub open spec fn component_count(s: Seq<char>) -> nat {
    named_segments(s) + if s.len() > 0 && s[0] == '.' && (s.len() == 1 || s[1] == '/') {
        1nat
    } else {
        0nat
    }
}

/// `s` starts with a `.` segment (the current directory).
pub open spec fn leads_with_dot(s: Seq<char>) -> bool {
    s.len() > 0 && s[0] == '.' && (s.len() == 1 || s[1] == '/')
}

/// A key names exactly one library directory: one component, which is a
/// normal name, not `.` or `..` (so the directory lies inside the library).
pub open spec fn valid_key(key: Seq<char>) -> bool {
    &&& key.len() > 0
    &&& key[0] != '/'
    &&& component_count(key) == 1
    &&& !leads_with_dot(key)
    &&& !crate::semantic::has_parent_segment(key)
}

pub proof fn lemma_segment_len_bound(s: Seq<char>)
    ensures
        segment_len(s) <= s.len(),
    decreases s.len(),
{
    if s.len() > 0 && s[0] != '/' {
        lemma_segment_len_bound(s.drop_first());
    }
}

pub proof fn lemma_segment_len(s: Seq<char>, k: int)
    requires
        0 <= k <= s.len(),
        forall|j: int| 0 <= j < k ==> #[trigger] s[j] != '/',
        k == s.len() || s[k] == '/',
    ensures
        segment_len(s) == k,
    decreases k,
{
    if k > 0 {
        assert forall|j: int| 0 <= j < k - 1 implies #[trigger] s.drop_first()[j] != '/' by {
            assert(s.drop_first()[j] == s[j + 1]);
        }
        lemma_segment_len(s.drop_first(), k - 1);
    }
}

/// `named_segments` of `v`.
fn count_named_segments(v: &[char]) -> (n: usize)
    ensures
        n == named_segments(v@),
{
    let len = v.len();
    let mut i: usize = 0;
    let mut n: usize = 0;
    assert(v@.skip(0) =~= v@);
    while i < len
        invariant
            len == v@.len(),
            i <= len,
            n <= i,
            named_segments(v@) == n + named_segments(v@.skip(i as int)),
        decreases len - i,
    {
        let ghost rest = v@.skip(i as int);
        if v[i] == '/' {
            assert(rest.drop_first() =~= v@.skip(i + 1));
            i += 1;
        } else {
            let mut j = i;
            while j < len && v[j] != '/'
                invariant
                    len == v@.len(),
                    i <= j <= len,
                    forall|k: int| i <= k < j ==> #[trigger] v@[k] != '/',
                decreases len - j,
            {
                j += 1;
            }
            proof {
                assert forall|k: int| 0 <= k < j - i implies #[trigger] rest[k] != '/' by {
                    assert(rest[k] == v@[i + k]);
                }
                lemma_segment_len(rest, j - i);
                assert(rest.skip(j - i) =~= v@.skip(j as int));
            }
            let dot = j == i + 1 && v[i] == '.';
            proof {
                if dot {
                    assert(rest.take(1) =~= seq!['.']);
                } else if j - i == 1 {
                    assert(rest.take(1)[0] != '.');
                } else {
                    assert(rest.take(j - i).len() != 1);
                }
            }
            if !dot {
                n += 1;
            }
            i = j;
        }
    }
    assert(v@.skip(len as int) =~= Seq::<char>::empty());
    n
}

/// Checks that `key` is one library directory name (not empty, not absolute,
/// one path component, neither `.` nor `..`).
pub fn check_key(key: &str) -> (r: Result<(), KeyError>)
    ensures
        r is Ok <==> valid_key(key@),
{
    let v = chars_of(key);
    if v.len() == 0 || v[0] == '/' {
        return Err(KeyError::NotOneComponent);
    }
    let lead = v[0] == '.' && (v.len() == 1 || v[1] == '/');
    if lead || !crate::semantic::check_path(&v) {
        return Err(KeyError::NotOneComponent);
    }
    let n = count_named_segments(&v);
    if n == 1 {
        Ok(())
    } else {
        Err(KeyError::NotOneComponent)
    }
}

/// `base` joined with the relative path `rel` (`Path::join`).
pub open spec fn joined(base: Seq<char>, rel: Seq<char>) -> Seq<char> {
    if base.len() == 0 {
        rel
    } else if base.last() == '/' {
        base + rel
    } else {
        base + "/"@ + rel
    }
}

/// The directory of the reference `key` inside `library`, once `key` is one
/// directory name. Whether that directory holds an `info.toml` is for the
/// caller to check on disk.
pub fn reference_dir(library: &str, key: &str) -> (r: Result<String, KeyError>)
    ensures
        match r {
            Ok(p) => valid_key(key@) && p@ == joined(library@, key@),
            Err(_) => !valid_key(key@),
        },
{
    check_key(key)?;
    Ok(join_path(library, key))
}

/// `rel` inside the directory `base`.
pub fn join_path(base: &str, rel: &str) -> (p: String)
    ensures
        p@ == joined(base@, rel@),
{
    let b = chars_of(base);
    let mut p = base.to_owned();
    if b.len() > 0 && b[b.len() - 1] != '/' {
        push_str(&mut p, "/");
    }
    push_str(&mut p, rel);
    p
}

/// An unknown citation format.
#[derive(Debug, Clone, PartialEq)]
pub enum CitationError {
    UnknownFormat(String),
}

impl CitationError {
    /// The message shown to the user.
    pub fn message(&self) -> (m: String)
        ensures
            m@ == match self {
                CitationError::UnknownFormat(f) => "Unknown citation format: "@ + f@
                    + " (expected plain, latex, or typst)"@,
            },
    {
        match self {
            CitationError::UnknownFormat(f) => {
                let mut m = "Unknown citation format: ".to_owned();
                push_str(&mut m, f.as_str());
                push_str(&mut m, " (expected plain, latex, or typst)");
                m
            },
        }
    }
}

/// The citation of `key` in `format`: `plain` gives the key, `latex` gives
/// `\cite{key}`, `typst` gives `@key`; any other format is an error.
pub fn citation(key: &str, format: &str) -> (r: Result<String, CitationError>)
    ensures
        format@ == "plain"@ ==> (r matches Ok(c) && c@ == key@),
        format@ == "latex"@ ==> (r matches Ok(c) && c@ == "\\cite{"@ + key@ + "}"@),
        format@ == "typst"@ ==> (r matches Ok(c) && c@ == "@"@ + key@),
        format@ != "plain"@ && format@ != "latex"@ && format@ != "typst"@ ==> (r matches Err(
            CitationError::UnknownFormat(f),
        ) && f@ == format@),
{
    proof {
        reveal_strlit("plain");
        reveal_strlit("latex");
        reveal_strlit("typst");
        assert("plain"@ =~= seq!['p', 'l', 'a', 'i', 'n']);
        assert("latex"@ =~= seq!['l', 'a', 't', 'e', 'x']);
        assert("typst"@ =~= seq!['t', 'y', 'p', 's', 't']);
    }
    if str_eq(format, "plain") {
        Ok(key.to_owned())
    } else if str_eq(format, "latex") {
        let mut c = "\\cite{".to_owned();
        push_str(&mut c, key);
        push_str(&mut c, "}");
        Ok(c)
    } else if str_eq(format, "typst") {
        let mut c = "@".to_owned();
        push_str(&mut c, key);
        Ok(c)
    } else {
        Err(CitationError::UnknownFormat(format.to_owned()))
    }
}

/// A library directory as found on disk: its name, its path, what reading
/// its `info.toml` gave (the reference, or the error's text) and the PDF
/// found in it.
#[derive(Debug)]
pub struct DirListing {
    pub key: String,
    pub directory: String,
    pub info: Result<Reference, String>,
    pub pdf: Option<String>,
}

/// The records of the readable directories, in order.
pub open spec fn readable(listing: Seq<DirListing>) -> Seq<DirListing>
    decreases listing.len(),
{
    if listing.len() == 0 {
        listing
    } else if listing.last().info is Ok {
        readable(listing.drop_last()).push(listing.last())
    } else {
        readable(listing.drop_last())
    }
}

/// The warnings for the unreadable directories, in order.
pub open spec fn skipped(listing: Seq<DirListing>) -> Seq<Seq<char>>
    decreases listing.len(),
{
    if listing.len() == 0 {
        Seq::empty()
    } else {
        match listing.last().info {
            Err(e) => skipped(listing.drop_last()).push("Skipping "@ + listing.last().key@ + ": "@ + e@),
            Ok(_) => skipped(listing.drop_last()),
        }
    }
}

/// A record stands for a readable directory.
pub open spec fn record_of(rec: ReferenceRecord, d: DirListing) -> bool {
    &&& rec.key == d.key
    &&& rec.directory == d.directory
    &&& rec.pdf == d.pdf
    &&& d.info == Ok::<Reference, String>(rec.reference)
}

/// Every entry of the library: a record per readable directory, and a
/// warning per directory whose `info.toml` could not be read.
pub fn records(listing: Vec<DirListing>) -> (r: (Vec<ReferenceRecord>, Vec<String>))
    ensures
        r.0@.len() == readable(listing@).len(),
        forall|i: int| 0 <= i < r.0@.len() ==> record_of(#[trigger] r.0@[i], readable(listing@)[i]),
        text::views(r.1@) == skipped(listing@),
{
    let mut recs: Vec<ReferenceRecord> = Vec::new();
    let mut warnings: Vec<String> = Vec::new();
    let n = listing.len();
    let ghost all = listing@;
    let mut i: usize = 0;
    for d in it: listing.into_iter()
        invariant
            it.seq() == all,
            i == it.index(),
            i <= n,
            n == all.len(),
            recs@.len() == readable(all.take(i as int)).len(),
            forall|k: int| 0 <= k < recs@.len() ==> record_of(#[trigger] recs@[k], readable(all.take(i as int))[k]),
            text::views(warnings@) == skipped(all.take(i as int)),
    {
        let ghost pre = all.take(i as int);
        proof {
            assert(all.take(i + 1).drop_last() =~= pre);
            assert(all.take(i + 1).last() == d);
        }
        match d.info {
            Ok(reference) => {
                let ghost before = recs@;
                recs.push(ReferenceRecord { key: d.key, directory: d.directory, pdf: d.pdf, reference });
                proof {
                    assert forall|k: int| 0 <= k < recs@.len() implies record_of(
                        #[trigger] recs@[k],
                        readable(all.take(i + 1))[k],
                    ) by {
                        if k < before.len() {
                            assert(recs@[k] == before[k]);
                        }
                    }
                }
            },
            Err(e) => {
                let mut w = "Skipping ".to_string();
                push_str(&mut w, d.key.as_str());
                push_str(&mut w, ": ");
                push_str(&mut w, e.as_str());
                warnings.push(w);
                assert(text::views(warnings@) =~= skipped(all.take(i + 1)));
            },
        }
        i += 1;
    }
    assert(all.take(n as int) =~= all);
    (recs, warnings)
}

/// The record of one entry, once `key` names one directory of the library;
/// `reference` and `pdf` are what was read from that directory.
pub fn show(library: &str, key: &str, reference: Reference, pdf: Option<String>) -> (r: Result<ReferenceRecord, KeyError>)
    ensures
        match r {
            Ok(rec) => valid_key(key@) && rec.key@ == key@ && rec.directory@ == joined(library@, key@)
                && rec.pdf == pdf && rec.reference == reference,
            Err(_) => !valid_key(key@),
        },
{
    let directory = reference_dir(library, key)?;
    Ok(ReferenceRecord { key: key.to_string(), directory, pdf, reference })
}

/// What the citation picker prints for the chosen entry: `\cite{key}` for
/// `latex`, `@key` for `typst`, and the bare key for any other format.
pub fn cite(key: &str, format: &str) -> (c: String)
    ensures
        c@ == (if format@ == "latex"@ {
            "\\cite{"@ + key@ + "}"@
        } else if format@ == "typst"@ {
            "@"@ + key@
        } else {
            key@
        }),
{
    if str_eq(format, "latex") {
        let mut c = "\\cite{".to_owned();
        push_str(&mut c, key);
        push_str(&mut c, "}");
        c
    } else if str_eq(format, "typst") {
        let mut c = "@".to_owned();
        push_str(&mut c, key);
        c
    } else {
        key.to_owned()
    }
}

/// The query filter searches the authors: every author name of a record
/// occurs in the text its query is matched against (as do its key and
/// title).
pub proof fn authors_are_searched(rec: ReferenceRecord)
    ensures
        forall|i: int|
            0 <= i < rec.reference@.authors.len() ==> text::contains(
                searchable(rec),
                #[trigger] rec.reference@.authors[i],
            ),
        text::contains(searchable(rec), rec.key@),
        text::contains(searchable(rec), rec.reference@.title),
{
    let r = rec.reference@;
    let pieces = seq![
        rec.key@,
        r.title,
        text::join(r.authors, " "@),
        text::join(r.tags, " "@),
        or_empty(r.doi),
        or_empty(r.arxiv),
        or_empty(r.publisher),
        or_empty(r.series),
        or_empty(r.edition),
        text::join(r.isbn, " "@),
    ];
    assert(searchable(rec) == text::join(pieces, " "@));
    text::lemma_join_contains(pieces, " "@, 0);
    text::lemma_join_contains(pieces, " "@, 1);
    text::lemma_join_contains(pieces, " "@, 2);
    assert forall|i: int| 0 <= i < r.authors.len() implies text::contains(
        searchable(rec),
        #[trigger] r.authors[i],
    ) by {
        text::lemma_join_contains(r.authors, " "@, i);
        text::lemma_contains_trans(searchable(rec), pieces[2], r.authors[i]);
    }
}

} // verus!
