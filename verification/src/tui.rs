//! The decisions of the interactive browser that do not touch the terminal:
//! layouts, sorting, the picker's geometry, semantic-result paging and
//! text, the enrich preview, and the reader command.
use vstd::prelude::*;

use crate::fetch;
use nucleo_matcher::pattern::{CaseMatching, Normalization, Pattern};
use crate::formula::split_lines;
use crate::model::Reference;
use crate::storage::str_eq;
use crate::text::{self, chars_of, contains_chars, decimal_string, join_strings, push_str, to_lowercase, trim_str};

verus! {

// ---------------------------------------------------------------------------
// Sorting
// ---------------------------------------------------------------------------
/// The field the list is sorted by.
#[derive(Debug, Clone, Copy, PartialEq, Eq, Structural)]
pub enum SortMode {
    Name,
    Author,
    Year,
    Title,
}

impl SortMode {
    /// The next field in the cycle name → author → year → title → name.
    pub fn next(self) -> (m: SortMode)
        ensures
            m == match self {
                SortMode::Name => SortMode::Author,
                SortMode::Author => SortMode::Year,
                SortMode::Year => SortMode::Title,
                SortMode::Title => SortMode::Name,
            },
    {
        match self {
            SortMode::Name => SortMode::Author,
            SortMode::Author => SortMode::Year,
            SortMode::Year => SortMode::Title,
            SortMode::Title => SortMode::Name,
        }
    }

    pub fn label(self) -> (s: &'static str)
        ensures
            s@ == match self {
                SortMode::Name => "name"@,
                SortMode::Author => "author"@,
                SortMode::Year => "year"@,
                SortMode::Title => "title"@,
            },
    {
        match self {
            SortMode::Name => "name",
            SortMode::Author => "author",
            SortMode::Year => "year",
            SortMode::Title => "title",
        }
    }

    /// Years read best newest-first; the text fields A to Z.
    pub fn defaults_descending(self) -> (b: bool)
        ensures
            b == (self == SortMode::Year),
    {
        self == SortMode::Year
    }
}

/// Four steps of the sort cycle come back to the start.
pub proof fn lemma_sort_cycle(m: SortMode)
    ensures
        ({
            let next = |x: SortMode| match x {
                SortMode::Name => SortMode::Author,
                SortMode::Author => SortMode::Year,
                SortMode::Year => SortMode::Title,
                SortMode::Title => SortMode::Name,
            };
            next(next(next(next(m)))) == m
        }),
{
}

// ---------------------------------------------------------------------------
// Layouts
// ---------------------------------------------------------------------------
/// How the list and the preview share the screen.
#[derive(Debug, Clone, Copy, PartialEq, Eq, Structural)]
pub enum LayoutMode {
    Wide,
    Tall,
    Auto,
    FullList,
}

/// The arrangement drawn.
#[derive(Debug, Clone, Copy, PartialEq, Eq, Structural)]
pub enum ResolvedLayout {
    Wide,
    Tall,
    FullList,
    FullPreview,
}

/// A terminal wide enough for side-by-side panes: character cells are about
/// twice as tall as wide.
pub open spec fn is_wide(width: u16, height: u16) -> bool {
    width as int >= height as int * 2
}

/// The layout a mode stands for on a terminal of the given size.
pub open spec fn concrete(m: LayoutMode, width: u16, height: u16) -> LayoutMode {
    match m {
        LayoutMode::Auto => if is_wide(width, height) {
            LayoutMode::Wide
        } else {
            LayoutMode::Tall
        },
        other => other,
    }
}

/// The layout after the `L` key: wide → tall → full list → wide, starting
/// from what `Auto` resolves to.
pub open spec fn next_layout(m: LayoutMode, width: u16, height: u16) -> LayoutMode {
    match concrete(m, width, height) {
        LayoutMode::Wide => LayoutMode::Tall,
        LayoutMode::Tall => LayoutMode::FullList,
        _ => LayoutMode::Wide,
    }
}

impl LayoutMode {
    /// The layout named in the configuration: `wide`, `tall`, `auto`, or
    /// (for `full`, the older `list`, anything else and nothing) the full
    /// list.
    pub fn from_config(s: Option<&str>) -> (m: LayoutMode)
        ensures
            m == match s {
                Some(x) => if x@ == "wide"@ {
                    LayoutMode::Wide
                } else if x@ == "tall"@ {
                    LayoutMode::Tall
                } else if x@ == "auto"@ {
                    LayoutMode::Auto
                } else {
                    LayoutMode::FullList
                },
                None => LayoutMode::FullList,
            },
    {
        match s {
            Some(x) => if str_eq(x, "wide") {
                LayoutMode::Wide
            } else if str_eq(x, "tall") {
                LayoutMode::Tall
            } else if str_eq(x, "auto") {
                LayoutMode::Auto
            } else {
                LayoutMode::FullList
            },
            None => LayoutMode::FullList,
        }
    }

    /// The next layout in the cycle.
    pub fn next(self, width: u16, height: u16) -> (m: LayoutMode)
        ensures
            m == next_layout(self, width, height),
    {
        let current = match self {
            LayoutMode::Auto => if (width as u32) >= (height as u32) * 2 {
                LayoutMode::Wide
            } else {
                LayoutMode::Tall
            },
            other => other,
        };
        match current {
            LayoutMode::Wide => LayoutMode::Tall,
            LayoutMode::Tall => LayoutMode::FullList,
            _ => LayoutMode::Wide,
        }
    }

    pub fn label(self) -> (s: &'static str)
        ensures
            s@ == match self {
                LayoutMode::Wide => "wide"@,
                LayoutMode::Tall => "tall"@,
                LayoutMode::Auto => "auto"@,
                LayoutMode::FullList => "full"@,
            },
    {
        match self {
            LayoutMode::Wide => "wide",
            LayoutMode::Tall => "tall",
            LayoutMode::Auto => "auto",
            LayoutMode::FullList => "full",
        }
    }

    /// The arrangement drawn for this mode on a terminal of the given size.
    pub fn resolve(self, width: u16, height: u16) -> (r: ResolvedLayout)
        ensures
            r == match concrete(self, width, height) {
                LayoutMode::Wide => ResolvedLayout::Wide,
                LayoutMode::Tall => ResolvedLayout::Tall,
                _ => ResolvedLayout::FullList,
            },
    {
        match self {
            LayoutMode::Wide => ResolvedLayout::Wide,
            LayoutMode::Tall => ResolvedLayout::Tall,
            LayoutMode::FullList => ResolvedLayout::FullList,
            LayoutMode::Auto => if (width as u32) >= (height as u32) * 2 {
                ResolvedLayout::Wide
            } else {
                ResolvedLayout::Tall
            },
        }
    }
}

/// The layout key visits the three concrete layouts in turn: three presses
/// from any of them come back to it, and `Auto` never comes back.
pub proof fn lemma_layout_cycle(m: LayoutMode, width: u16, height: u16)
    ensures
        m != LayoutMode::Auto ==> next_layout(next_layout(next_layout(m, width, height), width, height), width, height)
            == m,
        next_layout(m, width, height) != LayoutMode::Auto,
{
}

// ---------------------------------------------------------------------------
// The picker
// ---------------------------------------------------------------------------
/// A rectangle of terminal cells.
#[derive(Debug, Clone, Copy, PartialEq, Eq, Structural)]
pub struct Rect {
    pub x: u16,
    pub y: u16,
    pub width: u16,
    pub height: u16,
}

pub open spec fn clamp(v: int, lo: int, hi: int) -> int {
    let a = if v > lo {
        v
    } else {
        lo
    };
    if a < hi {
        a
    } else {
        hi
    }
}

/// The picker's size in one dimension: three quarters of the screen, at
/// least `min` and leaving `margin` cells; the whole screen (at least one
/// cell) when it is four cells or less.
pub open spec fn picker_extent(total: u16, min: int, margin: int) -> int {
    if total > 4 {
        clamp(total * 3 / 4, min, total - margin)
    } else if total >= 1 {
        total as int
    } else {
        1
    }
}

/// A centered popup covering about three quarters of `area`.
pub fn picker_rect(area: Rect) -> (r: Rect)
    requires
        area.x + area.width <= u16::MAX,
        area.y + area.height <= u16::MAX,
    ensures
        r.width == picker_extent(area.width, 50, 4),
        r.height == picker_extent(area.height, 6, 2),
        r.x == area.x + (if area.width >= r.width {
            (area.width - r.width) as int
        } else {
            0
        }) / 2,
        r.y == area.y + (if area.height >= r.height {
            (area.height - r.height) as int
        } else {
            0
        }) / 2,
{
    let width: u16 = if area.width > 4 {
        let w = ((area.width as u32) * 3 / 4) as u16;
        let w = if w > 50 {
            w
        } else {
            50
        };
        if w < area.width - 4 {
            w
        } else {
            area.width - 4
        }
    } else if area.width >= 1 {
        area.width
    } else {
        1
    };
    let height: u16 = if area.height > 4 {
        let h = ((area.height as u32) * 3 / 4) as u16;
        let h = if h > 6 {
            h
        } else {
            6
        };
        if h < area.height - 2 {
            h
        } else {
            area.height - 2
        }
    } else if area.height >= 1 {
        area.height
    } else {
        1
    };
    let dx = if area.width >= width {
        area.width - width
    } else {
        0
    };
    let dy = if area.height >= height {
        area.height - height
    } else {
        0
    };
    Rect { x: area.x + dx / 2, y: area.y + dy / 2, width, height }
}

// ---------------------------------------------------------------------------
// Semantic results
// ---------------------------------------------------------------------------
/// More results are fetched once the selection comes within ten of the end
/// of those loaded, while any remain.
pub fn should_load_more_semantic(selected: usize, loaded: usize, total: usize) -> (b: bool)
    ensures
        b == (loaded < total && selected + 10 >= loaded),
{
    loaded < total && selected.saturating_add(10) >= loaded
}

/// The heading trail shown above a passage, with space before the text.
pub fn semantic_heading_text(headings: &Vec<String>) -> (s: String)
    ensures
        s@ == text::join(text::views(headings@), " › "@) + "  "@,
{
    let mut s = join_strings(headings.as_slice(), " › ");
    push_str(&mut s, "  ");
    s
}

/// `line`, trimmed, equals one of the headings, trimmed, ignoring ASCII case.
pub open spec fn is_heading_line(line: Seq<char>, headings: Seq<String>) -> bool {
    exists|k: int| 0 <= k < headings.len() && text::eq_ascii_ci(text::trim(line), text::trim(#[trigger] headings[k]@))
}

/// The number of leading heading lines.
pub open spec fn heading_lines(ls: Seq<Seq<char>>, headings: Seq<String>, i: int) -> int
    decreases ls.len() - i,
{
    if i < 0 || i >= ls.len() || !is_heading_line(ls[i], headings) {
        i
    } else {
        heading_lines(ls, headings, i + 1)
    }
}

/// The end of the blank lines from `i` on.
pub open spec fn blank_lines(ls: Seq<Seq<char>>, i: int) -> int
    decreases ls.len() - i,
{
    if i < 0 || i >= ls.len() || text::trim(ls[i]).len() != 0 {
        i
    } else {
        blank_lines(ls, i + 1)
    }
}

proof fn lemma_heading_lines(ls: Seq<Seq<char>>, headings: Seq<String>, i: int)
    requires
        0 <= i <= ls.len(),
    ensures
        i <= heading_lines(ls, headings, i) <= ls.len(),
    decreases ls.len() - i,
{
    if i < ls.len() && is_heading_line(ls[i], headings) {
        lemma_heading_lines(ls, headings, i + 1);
    }
}

proof fn lemma_blank_lines(ls: Seq<Seq<char>>, i: int)
    requires
        0 <= i <= ls.len(),
    ensures
        i <= blank_lines(ls, i) <= ls.len(),
    decreases ls.len() - i,
{
    if i < ls.len() && text::trim(ls[i]).len() == 0 {
        lemma_blank_lines(ls, i + 1);
    }
}

fn heading_match(line: &str, headings: &Vec<String>) -> (b: bool)
    ensures
        b == is_heading_line(line@, headings@),
{
    let t = trim_str(line);
    let mut k: usize = 0;
    while k < headings.len()
        invariant
            t@ == text::trim(line@),
            k <= headings@.len(),
            forall|j: int| 0 <= j < k ==> !text::eq_ascii_ci(text::trim(line@), text::trim(#[trigger] headings@[j]@)),
        decreases headings@.len() - k,
    {
        let h = trim_str(headings[k].as_str());
        if text::eq_ignore_ascii_case(t.as_str(), h.as_str()) {
            return true;
        }
        k += 1;
    }
    false
}

/// A passage's lines, without the heading lines it starts with (which the
/// heading trail already shows) and the blank lines after them.
pub fn semantic_passage_lines(passage: &str, headings: &Vec<String>) -> (r: Vec<String>)
    ensures
        ({
            let ls = crate::formula::lines(passage@);
            text::views(r@) == ls.skip(blank_lines(ls, heading_lines(ls, headings@, 0)))
        }),
{
    let ls = split_lines(passage);
    let ghost lv = text::views(ls@);
    let mut start: usize = 0;
    while start < ls.len() && heading_match(ls[start].as_str(), headings)
        invariant
            lv == text::views(ls@),
            start <= ls@.len(),
            heading_lines(lv, headings@, 0) == heading_lines(lv, headings@, start as int),
        decreases ls@.len() - start,
    {
        start += 1;
    }
    let ghost h = start as int;
    while start < ls.len() && trim_str(ls[start].as_str()).as_str().is_empty()
        invariant
            lv == text::views(ls@),
            h <= start <= ls@.len(),
            blank_lines(lv, h) == blank_lines(lv, start as int),
        decreases ls@.len() - start,
    {
        start += 1;
    }
    let mut r: Vec<String> = Vec::new();
    let mut i = start;
    while i < ls.len()
        invariant
            lv == text::views(ls@),
            start <= i <= ls@.len(),
            r@.len() == i - start,
            forall|k: int| 0 <= k < r@.len() ==> #[trigger] r@[k]@ == lv[start + k],
        decreases ls@.len() - i,
    {
        r.push(ls[i].clone());
        i += 1;
    }
    assert(text::views(r@) =~= lv.skip(start as int));
    r
}

/// The message shown when a semantic search fails (given the error's full
/// text): an index built with another model gets a short hint.
pub fn semantic_error_message(detail: &str) -> (m: String)
    ensures
        m@ == if text::contains(detail@, "Semantic index uses model"@) {
            "Semantic index was built with an older model; run `grimoire semantic-index`"@
        } else {
            "Semantic search: "@ + detail@
        },
{
    if text::str_contains(detail, "Semantic index uses model") {
        "Semantic index was built with an older model; run `grimoire semantic-index`".to_string()
    } else {
        let mut m = "Semantic search: ".to_string();
        push_str(&mut m, detail);
        m
    }
}

// ---------------------------------------------------------------------------
// Enrichment
// ---------------------------------------------------------------------------
/// An entry is worth enriching when its year is missing or zero, or it has
/// no authors, abstract or DOI.
pub fn needs_enrich(r: &Reference) -> (b: bool)
    ensures
        b == (r.year is None || r.year == Some(0u16) || r.authors@.len() == 0 || r.abstract_text is None
            || r.doi is None),
{
    r.year.is_none() || r.year == Some(0u16) || r.authors.len() == 0 || r.abstract_text.is_none()
        || r.doi.is_none()
}

pub open spec fn text_or_empty(o: Option<Seq<char>>) -> Seq<char> {
    match o {
        Some(s) => s,
        None => Seq::empty(),
    }
}

pub open spec fn year_text(y: Option<u16>) -> Seq<char> {
    match y {
        Some(v) => text::decimal(v as nat),
        None => Seq::empty(),
    }
}

/// One changed field: its name, the old value and the new one.
pub open spec fn diff(name: Seq<char>, old: Seq<char>, new: Seq<char>) -> (Seq<char>, Seq<char>, Seq<char>) {
    (name, old, new)
}

/// The changes an enrichment would make, as shown before it is applied:
/// year, authors, DOI, arXiv ID and journal when they differ, and a fetched
/// abstract where there was none.
pub open spec fn diffs(old: crate::model::RefView, new: crate::model::RefView) -> Seq<(Seq<char>, Seq<char>, Seq<char>)> {
    let a = if old.year != new.year {
        seq![diff("year"@, year_text(old.year), year_text(new.year))]
    } else {
        seq![]
    };
    let b = if old.authors != new.authors {
        seq![diff("authors"@, text::join(old.authors, ", "@), text::join(new.authors, ", "@))]
    } else {
        seq![]
    };
    let c = if old.doi != new.doi {
        seq![diff("doi"@, text_or_empty(old.doi), text_or_empty(new.doi))]
    } else {
        seq![]
    };
    let d = if old.arxiv != new.arxiv {
        seq![diff("arxiv"@, text_or_empty(old.arxiv), text_or_empty(new.arxiv))]
    } else {
        seq![]
    };
    let e = if old.journal != new.journal {
        seq![diff("journal"@, text_or_empty(old.journal), text_or_empty(new.journal))]
    } else {
        seq![]
    };
    let f = if old.abstract_text != new.abstract_text && old.abstract_text is None {
        seq![diff("abstract"@, seq![], "(fetched)"@)]
    } else {
        seq![]
    };
    a + b + c + d + e + f
}

pub open spec fn diff_views(v: Seq<(String, String, String)>) -> Seq<(Seq<char>, Seq<char>, Seq<char>)> {
    v.map_values(|d: (String, String, String)| (d.0@, d.1@, d.2@))
}

fn opt_text(o: &Option<String>) -> (s: String)
    ensures
        s@ == text_or_empty(text::opt_view(*o)),
{
    match o {
        Some(x) => x.clone(),
        None => String::new(),
    }
}

fn year_string(y: Option<u16>) -> (s: String)
    ensures
        s@ == year_text(y),
{
    match y {
        Some(v) => decimal_string(v as u64),
        None => String::new(),
    }
}

fn same_opt_text(a: &Option<String>, b: &Option<String>) -> (r: bool)
    ensures
        r == (text::opt_view(*a) == text::opt_view(*b)),
{
    match (a, b) {
        (Some(x), Some(y)) => str_eq(x.as_str(), y.as_str()),
        (None, None) => true,
        _ => false,
    }
}

fn same_list(a: &Vec<String>, b: &Vec<String>) -> (r: bool)
    ensures
        r == (text::views(a@) == text::views(b@)),
{
    if a.len() != b.len() {
        assert(text::views(a@).len() != text::views(b@).len());
        return false;
    }
    let mut i: usize = 0;
    while i < a.len()
        invariant
            a@.len() == b@.len(),
            i <= a@.len(),
            forall|k: int| 0 <= k < i ==> a@[k]@ == b@[k]@,
        decreases a@.len() - i,
    {
        if !str_eq(a[i].as_str(), b[i].as_str()) {
            assert(text::views(a@)[i as int] != text::views(b@)[i as int]);
            return false;
        }
        i += 1;
    }
    assert(text::views(a@) =~= text::views(b@));
    true
}

/// The changes between an entry and its enriched form.
pub fn compute_diffs(old: &Reference, new: &Reference) -> (r: Vec<(String, String, String)>)
    ensures
        diff_views(r@) == diffs(old@, new@),
{
    let mut r: Vec<(String, String, String)> = Vec::new();
    proof {
        reveal_strlit(", ");
    }
    if old.year != new.year {
        r.push(("year".to_string(), year_string(old.year), year_string(new.year)));
    }
    let ghost a = diff_views(r@);
    if !same_list(&old.authors, &new.authors) {
        r.push(("authors".to_string(), join_strings(old.authors.as_slice(), ", "), join_strings(new.authors.as_slice(), ", ")));
    }
    let ghost b = diff_views(r@);
    if !same_opt_text(&old.doi, &new.doi) {
        r.push(("doi".to_string(), opt_text(&old.doi), opt_text(&new.doi)));
    }
    let ghost c = diff_views(r@);
    if !same_opt_text(&old.arxiv, &new.arxiv) {
        r.push(("arxiv".to_string(), opt_text(&old.arxiv), opt_text(&new.arxiv)));
    }
    let ghost d = diff_views(r@);
    if !same_opt_text(&old.journal, &new.journal) {
        r.push(("journal".to_string(), opt_text(&old.journal), opt_text(&new.journal)));
    }
    let ghost e = diff_views(r@);
    if !same_opt_text(&old.abstract_text, &new.abstract_text) && old.abstract_text.is_none() {
        r.push(("abstract".to_string(), String::new(), "(fetched)".to_string()));
    }
    proof {
        let o = old@;
        let n = new@;
        let a0 = if o.year != n.year {
            seq![diff("year"@, year_text(o.year), year_text(n.year))]
        } else {
            seq![]
        };
        let b0 = if o.authors != n.authors {
            seq![diff("authors"@, text::join(o.authors, ", "@), text::join(n.authors, ", "@))]
        } else {
            seq![]
        };
        let c0 = if o.doi != n.doi {
            seq![diff("doi"@, text_or_empty(o.doi), text_or_empty(n.doi))]
        } else {
            seq![]
        };
        let d0 = if o.arxiv != n.arxiv {
            seq![diff("arxiv"@, text_or_empty(o.arxiv), text_or_empty(n.arxiv))]
        } else {
            seq![]
        };
        let e0 = if o.journal != n.journal {
            seq![diff("journal"@, text_or_empty(o.journal), text_or_empty(n.journal))]
        } else {
            seq![]
        };
        let f0 = if o.abstract_text != n.abstract_text && o.abstract_text is None {
            seq![diff("abstract"@, seq![], "(fetched)"@)]
        } else {
            seq![]
        };
        assert(""@ =~= Seq::<char>::empty()) by {
            reveal_strlit("");
        }
        assert(a =~= a0);
        assert(b =~= a0 + b0);
        assert(c =~= a0 + b0 + c0);
        assert(d =~= a0 + b0 + c0 + d0);
        assert(e =~= a0 + b0 + c0 + d0 + e0);
        assert(diff_views(r@) =~= a0 + b0 + c0 + d0 + e0 + f0);
    }
    r
}

// ---------------------------------------------------------------------------
// Adding from the browser
// ---------------------------------------------------------------------------
/// Whether the add prompt's input can be imported: once trimmed it is not
/// empty, and it is an arXiv ID, contains a DOI, is a web address, or names
/// an existing path (`exists_on_disk`, for the trimmed input).
pub fn is_importable(input: &str, exists_on_disk: bool) -> (b: bool)
    ensures
        b == ({
            let t = text::trim(input@);
            t.len() > 0 && (fetch::arxiv_id(t) is Some || fetch::doi_in(t) is Some || text::starts_with(
                t,
                "http://"@,
            ) || text::starts_with(t, "https://"@) || exists_on_disk)
        }),
{
    let t = trim_str(input);
    if t.as_str().is_empty() {
        return false;
    }
    fetch::detect_arxiv_id(t.as_str()).is_some() || fetch::detect_doi(t.as_str()).is_some()
        || text::str_starts_with(t.as_str(), "http://") || text::str_starts_with(t.as_str(), "https://")
        || exists_on_disk
}

// ---------------------------------------------------------------------------
// The reader
// ---------------------------------------------------------------------------
/// One reader argument once filled in: `{path}` becomes the file, `{page}`
/// the page (1 when none is known).
pub open spec fn reader_arg(a: Seq<char>, target: Seq<char>, page: Option<u32>) -> Seq<char> {
    if a == "{path}"@ {
        target
    } else if a == "{page}"@ {
        match page {
            Some(p) => text::decimal(p as nat),
            None => "1"@,
        }
    } else {
        a
    }
}

/// The reader's arguments for opening `target` at `page`: each filled in,
/// and the file appended when no argument places it.
pub open spec fn reader_args(args: Seq<Seq<char>>, target: Seq<char>, page: Option<u32>) -> Seq<Seq<char>> {
    let filled = args.map_values(|a: Seq<char>| reader_arg(a, target, page));
    if args.contains("{path}"@) {
        filled
    } else {
        filled.push(target)
    }
}

/// The arguments to run the configured reader with.
pub fn prepare_reader_args(args: &Vec<String>, target: &str, page: Option<u32>) -> (r: Vec<String>)
    ensures
        text::views(r@) == reader_args(text::views(args@), target@, page),
{
    let mut r: Vec<String> = Vec::new();
    let mut has_path = false;
    let mut i: usize = 0;
    proof {
        reveal_strlit("1");
    }
    while i < args.len()
        invariant
            i <= args@.len(),
            r@.len() == i,
            has_path == exists|k: int| 0 <= k < i && #[trigger] args@[k]@ == "{path}"@,
            forall|k: int| 0 <= k < i ==> #[trigger] r@[k]@ == reader_arg(args@[k]@, target@, page),
        decreases args@.len() - i,
    {
        let a = args[i].as_str();
        let item = if str_eq(a, "{path}") {
            has_path = true;
            target.to_string()
        } else if str_eq(a, "{page}") {
            match page {
                Some(p) => decimal_string(p as u64),
                None => "1".to_string(),
            }
        } else {
            a.to_string()
        };
        r.push(item);
        i += 1;
    }
    let ghost av = text::views(args@);
    proof {
        if av.contains("{path}"@) {
            let k = choose|k: int| 0 <= k < av.len() && av[k] == "{path}"@;
            assert(args@[k]@ == "{path}"@);
        }
        if has_path {
            let k = choose|k: int| 0 <= k < args@.len() && #[trigger] args@[k]@ == "{path}"@;
            assert(av[k] == "{path}"@);
        }
    }
    if !has_path {
        r.push(target.to_string());
    }
    assert(text::views(r@) =~= reader_args(av, target@, page));
    r
}

// ---------------------------------------------------------------------------
// The tag picker
// ---------------------------------------------------------------------------
/// The first row of the tag picker, which clears the tag filter.
pub open spec fn all_row() -> Seq<char> {
    "(all)"@
}

/// The rows of `tags` whose lower-case form contains `needle`.
pub open spec fn narrowed(tags: Seq<Seq<char>>, needle: Seq<char>) -> Seq<Seq<char>>
    decreases tags.len(),
{
    if tags.len() == 0 {
        tags
    } else if text::contains(text::lowercase(tags.last()), needle) {
        narrowed(tags.drop_last(), needle).push(tags.last())
    } else {
        narrowed(tags.drop_last(), needle)
    }
}

/// The picker's rows: `(all)` and the library's tags, narrowed to those
/// whose lower-case form contains the lower-case filter.
pub open spec fn picker_rows(all_tags: Seq<Seq<char>>, filter: Seq<char>) -> Seq<Seq<char>> {
    let rows = seq![all_row()] + all_tags;
    if filter.len() == 0 {
        rows
    } else {
        narrowed(rows, text::lowercase(filter))
    }
}

/// How many times `tag` occurs in `occurrences`.
pub open spec fn occurrences_of(occurrences: Seq<Seq<char>>, tag: Seq<char>) -> nat
    decreases occurrences.len(),
{
    if occurrences.len() == 0 {
        0
    } else {
        occurrences_of(occurrences.drop_last(), tag) + if occurrences.last() == tag {
            1nat
        } else {
            0nat
        }
    }
}

/// All the tags of all the entries, entry by entry.
pub open spec fn flattened(lists: Seq<Vec<String>>) -> Seq<Seq<char>>
    decreases lists.len(),
{
    if lists.len() == 0 {
        Seq::empty()
    } else {
        flattened(lists.drop_last()) + text::views(lists.last()@)
    }
}

/// The tag picker: its filter, the rows it shows, the row selected and the
/// first row in view, the tag filter it was opened with, and what it needs
/// to count the entries of each tag.
#[derive(Debug, Clone)]
pub struct TagPicker {
    pub filter: String,
    pub rows: Vec<String>,
    pub selected: usize,
    pub scroll: usize,
    pub previous: Option<String>,
    pub total: usize,
    pub occurrences: Vec<String>,
}

fn all_rows(all_tags: &Vec<String>) -> (r: Vec<String>)
    ensures
        text::views(r@) == seq![all_row()] + text::views(all_tags@),
{
    let mut r: Vec<String> = Vec::new();
    r.push("(all)".to_string());
    let mut i: usize = 0;
    while i < all_tags.len()
        invariant
            i <= all_tags@.len(),
            text::views(r@) == seq![all_row()] + text::views(all_tags@).take(i as int),
        decreases all_tags@.len() - i,
    {
        let ghost before = text::views(r@);
        let t = all_tags[i].clone();
        assert(t@ == all_tags@[i as int]@);
        r.push(t);
        assert(text::views(r@) =~= before.push(all_tags@[i as int]@));
        i += 1;
        assert(text::views(all_tags@).take(i as int) =~= text::views(all_tags@).take(i - 1).push(all_tags@[i - 1]@));
        assert(text::views(r@) =~= seq![all_row()] + text::views(all_tags@).take(i as int));
    }
    assert(text::views(all_tags@).take(all_tags@.len() as int) =~= text::views(all_tags@));
    r
}

impl TagPicker {
    /// Opens the picker on all rows, with the tag filter in force kept to
    /// restore on cancel.
    pub fn new(all_tags: &Vec<String>, entry_tags: &Vec<Vec<String>>, current: &Option<String>) -> (p: TagPicker)
        ensures
            p.filter@.len() == 0,
            text::views(p.rows@) == seq![all_row()] + text::views(all_tags@),
            p.selected == 0,
            p.scroll == 0,
            p.previous == *current,
            p.total == entry_tags@.len(),
            text::views(p.occurrences@) == flattened(entry_tags@),
    {
        let mut occurrences: Vec<String> = Vec::new();
        let mut e: usize = 0;
        while e < entry_tags.len()
            invariant
                e <= entry_tags@.len(),
                text::views(occurrences@) == flattened(entry_tags@.take(e as int)),
            decreases entry_tags@.len() - e,
        {
            proof {
                assert(entry_tags@.take(e + 1).drop_last() =~= entry_tags@.take(e as int));
            }
            let tags = &entry_tags[e];
            let ghost before = text::views(occurrences@);
            let mut t: usize = 0;
            while t < tags.len()
                invariant
                    t <= tags@.len(),
                    text::views(occurrences@) == before + text::views(tags@).take(t as int),
                decreases tags@.len() - t,
            {
                let ghost so_far = text::views(occurrences@);
                let x = tags[t].clone();
                assert(x@ == tags@[t as int]@);
                occurrences.push(x);
                assert(text::views(occurrences@) =~= so_far.push(tags@[t as int]@));
                t += 1;
                assert(text::views(tags@).take(t as int) =~= text::views(tags@).take(t - 1).push(tags@[t - 1]@));
                assert(text::views(occurrences@) =~= before + text::views(tags@).take(t as int));
            }
            assert(text::views(tags@).take(tags@.len() as int) =~= text::views(tags@));
            e += 1;
        }
        assert(entry_tags@.take(entry_tags@.len() as int) =~= entry_tags@);
        TagPicker {
            filter: String::new(),
            rows: all_rows(all_tags),
            selected: 0,
            scroll: 0,
            previous: text::clone_opt(current),
            total: entry_tags.len(),
            occurrences,
        }
    }

    /// Recomputes the rows from the filter, keeping the selection on a row.
    pub fn rebuild(&mut self, all_tags: &Vec<String>)
        ensures
            text::views(final(self).rows@) == picker_rows(text::views(all_tags@), old(self).filter@),
            final(self).selected == if old(self).selected >= final(self).rows@.len() {
                if final(self).rows@.len() == 0 {
                    0
                } else {
                    (final(self).rows@.len() - 1) as usize
                }
            } else {
                old(self).selected
            },
            final(self).filter == old(self).filter,
            final(self).scroll == old(self).scroll,
            final(self).previous == old(self).previous,
            final(self).total == old(self).total,
            final(self).occurrences == old(self).occurrences,
    {
        let rows = all_rows(all_tags);
        if self.filter.as_str().is_empty() {
            self.rows = rows;
        } else {
            let f = chars_of(to_lowercase(self.filter.as_str()).as_str());
            let mut kept: Vec<String> = Vec::new();
            let mut i: usize = 0;
            while i < rows.len()
                invariant
                    i <= rows@.len(),
                    text::views(kept@) == narrowed(text::views(rows@).take(i as int), f@),
                decreases rows@.len() - i,
            {
                proof {
                    assert(text::views(rows@).take(i + 1).drop_last() =~= text::views(rows@).take(i as int));
                }
                let lower = chars_of(to_lowercase(rows[i].as_str()).as_str());
                if contains_chars(&lower, &f) {
                    kept.push(rows[i].clone());
                    assert(text::views(kept@) =~= narrowed(text::views(rows@).take(i + 1), f@));
                }
                i += 1;
            }
            assert(text::views(rows@).take(rows@.len() as int) =~= text::views(rows@));
            self.rows = kept;
        }
        if self.selected >= self.rows.len() {
            self.selected = if self.rows.len() == 0 {
                0
            } else {
                self.rows.len() - 1
            };
        }
    }

    /// The number of entries under `tag`: all of them for `(all)`.
    pub fn count_for(&self, tag: &str) -> (n: usize)
        ensures
            n == if tag@ == all_row() {
                self.total as nat
            } else {
                occurrences_of(text::views(self.occurrences@), tag@)
            },
    {
        if str_eq(tag, "(all)") {
            return self.total;
        }
        let mut n: usize = 0;
        let mut i: usize = 0;
        while i < self.occurrences.len()
            invariant
                i <= self.occurrences@.len(),
                n == occurrences_of(text::views(self.occurrences@).take(i as int), tag@),
                n <= i,
            decreases self.occurrences@.len() - i,
        {
            proof {
                assert(text::views(self.occurrences@).take(i + 1).drop_last() =~= text::views(self.occurrences@).take(i as int));
            }
            if str_eq(self.occurrences[i].as_str(), tag) {
                n += 1;
            }
            i += 1;
        }
        assert(text::views(self.occurrences@).take(self.occurrences@.len() as int) =~= text::views(self.occurrences@));
        n
    }

    /// The tag filter the selected row stands for: none for `(all)` or when
    /// no row is selected.
    pub fn selected_as_filter(&self) -> (r: Option<String>)
        ensures
            match r {
                Some(t) => self.selected < self.rows@.len() && t@ == self.rows@[self.selected as int]@ && t@ != all_row(),
                None => self.selected >= self.rows@.len() || self.rows@[self.selected as int]@ == all_row(),
            },
    {
        if self.selected >= self.rows.len() {
            return None;
        }
        let t = &self.rows[self.selected];
        if str_eq(t.as_str(), "(all)") {
            None
        } else {
            Some(t.clone())
        }
    }

    pub fn move_up(&mut self)
        ensures
            final(self).selected == if old(self).selected == 0 { 0 } else { (old(self).selected - 1) as usize },
            final(self).rows == old(self).rows,
    {
        if self.selected > 0 {
            self.selected = self.selected - 1;
        }
    }

    pub fn move_down(&mut self)
        ensures
            final(self).selected == if old(self).rows@.len() == 0 {
                old(self).selected as int
            } else {
                crate::keymap::min_nat(old(self).selected + 1, old(self).rows@.len() - 1)
            },
            final(self).rows == old(self).rows,
    {
        if self.rows.len() > 0 {
            let last = self.rows.len() - 1;
            self.selected = if self.selected >= last { last } else { self.selected + 1 };
        }
    }

    /// Down by twenty rows, stopping at the last.
    pub fn page_down(&mut self)
        ensures
            final(self).selected == if old(self).rows@.len() == 0 {
                old(self).selected as int
            } else {
                crate::keymap::min_nat(old(self).selected + 20, old(self).rows@.len() - 1)
            },
            final(self).rows == old(self).rows,
    {
        if self.rows.len() > 0 {
            let last = self.rows.len() - 1;
            self.selected = if self.selected >= last || last - self.selected <= 20 { last } else { self.selected + 20 };
        }
    }

    /// Up by twenty rows, stopping at the first.
    pub fn page_up(&mut self)
        ensures
            final(self).selected == crate::keymap::minus(old(self).selected as int, 20),
            final(self).rows == old(self).rows,
    {
        self.selected = if self.selected < 20 { 0 } else { self.selected - 20 };
    }

    /// Scrolls just enough to keep the selected row among `visible` rows.
    pub fn clamp_scroll(&mut self, visible: usize)
        requires
            visible > 0 || old(self).selected < usize::MAX,
        ensures
            final(self).scroll == if old(self).selected < old(self).scroll {
                old(self).selected as int
            } else if old(self).selected >= old(self).scroll + visible {
                old(self).selected - visible + 1
            } else {
                old(self).scroll as int
            },
            final(self).selected == old(self).selected,
    {
        if self.selected < self.scroll {
            self.scroll = self.selected;
        } else if self.selected - self.scroll >= visible {
            self.scroll = if visible == 0 { self.selected + 1 } else { self.selected - (visible - 1) };
        }
    }
}

// ---------------------------------------------------------------------------
// The order of the list
// ---------------------------------------------------------------------------
/// The order of sort keys: by number, then by text.
pub open spec fn key_le(a: (u64, Seq<char>), b: (u64, Seq<char>)) -> bool {
    a.0 < b.0 || (a.0 == b.0 && text::lex_le(a.1, b.1))
}

pub open spec fn key_views(keys: Seq<(u64, String)>) -> Seq<(u64, Seq<char>)> {
    keys.map_values(|k: (u64, String)| (k.0, k.1@))
}

/// Key order, turned around when `reverse`.
pub open spec fn key_order(keys: Seq<(u64, Seq<char>)>, reverse: bool, a: usize, b: usize) -> bool {
    if reverse {
        key_le(keys[b as int], keys[a as int])
    } else {
        key_le(keys[a as int], keys[b as int])
    }
}

/// Entry `a` is listed before entry `b`: its key comes first, or the keys
/// tie and `a` comes first in the library (the sort is stable).
pub open spec fn goes_before(keys: Seq<(u64, Seq<char>)>, reverse: bool, a: usize, b: usize) -> bool {
    key_order(keys, reverse, a, b) && (!key_order(keys, reverse, b, a) || a < b)
}

/// `r` is in list order.
pub open spec fn listed_in_order(keys: Seq<(u64, Seq<char>)>, reverse: bool, r: Seq<usize>) -> bool {
    forall|i: int, j: int| 0 <= i < j < r.len() ==> goes_before(keys, reverse, #[trigger] r[i], #[trigger] r[j])
}

proof fn lemma_key_total(a: (u64, Seq<char>), b: (u64, Seq<char>))
    ensures
        key_le(a, b) || key_le(b, a),
{
    text::lemma_lex_total(a.1, b.1);
}

proof fn lemma_key_trans(a: (u64, Seq<char>), b: (u64, Seq<char>), c: (u64, Seq<char>))
    requires
        key_le(a, b),
        key_le(b, c),
    ensures
        key_le(a, c),
{
    if a.0 == b.0 && b.0 == c.0 {
        text::lemma_lex_trans(a.1, b.1, c.1);
    }
}

proof fn lemma_order_trans(keys: Seq<(u64, Seq<char>)>, reverse: bool, a: usize, b: usize, c: usize)
    requires
        key_order(keys, reverse, a, b),
        key_order(keys, reverse, b, c),
    ensures
        key_order(keys, reverse, a, c),
{
    if reverse {
        lemma_key_trans(keys[c as int], keys[b as int], keys[a as int]);
    } else {
        lemma_key_trans(keys[a as int], keys[b as int], keys[c as int]);
    }
}

/// Of two different entries, exactly one goes before the other.
proof fn lemma_before_total(keys: Seq<(u64, Seq<char>)>, reverse: bool, a: usize, b: usize)
    requires
        a != b,
    ensures
        goes_before(keys, reverse, a, b) != goes_before(keys, reverse, b, a),
{
    lemma_key_total(keys[a as int], keys[b as int]);
}

proof fn lemma_before_trans(keys: Seq<(u64, Seq<char>)>, reverse: bool, a: usize, b: usize, c: usize)
    requires
        goes_before(keys, reverse, a, b),
        goes_before(keys, reverse, b, c),
    ensures
        goes_before(keys, reverse, a, c),
{
    lemma_order_trans(keys, reverse, a, b, c);
    if key_order(keys, reverse, c, a) {
        lemma_order_trans(keys, reverse, c, a, b);
        lemma_order_trans(keys, reverse, b, c, a);
    }
}

fn key_le_exec(a: &(u64, String), b: &(u64, String)) -> (r: bool)
    ensures
        r == key_le((a.0, a.1@), (b.0, b.1@)),
{
    a.0 < b.0 || (a.0 == b.0 && text::str_le(a.1.as_str(), b.1.as_str()))
}

fn goes_before_exec(keys: &Vec<(u64, String)>, reverse: bool, a: usize, b: usize) -> (r: bool)
    requires
        a < keys@.len(),
        b < keys@.len(),
    ensures
        r == goes_before(key_views(keys@), reverse, a, b),
{
    let (ab, ba) = if reverse {
        (key_le_exec(&keys[b], &keys[a]), key_le_exec(&keys[a], &keys[b]))
    } else {
        (key_le_exec(&keys[a], &keys[b]), key_le_exec(&keys[b], &keys[a]))
    };
    ab && (!ba || a < b)
}

/// Sorts the entries `idx` (in library order) by their keys, in reverse
/// key order when `reverse`; entries with equal keys keep library order.
pub fn sort_indices(idx: &Vec<usize>, keys: &Vec<(u64, String)>, reverse: bool) -> (r: Vec<usize>)
    requires
        forall|i: int| 0 <= i < idx@.len() ==> idx@[i] < keys@.len(),
        forall|i: int, j: int| 0 <= i < j < idx@.len() ==> idx@[i] < idx@[j],
    ensures
        r@.len() == idx@.len(),
        forall|x: usize| r@.contains(x) <==> idx@.contains(x),
        listed_in_order(key_views(keys@), reverse, r@),
{
    let ghost kv = key_views(keys@);
    let mut r: Vec<usize> = Vec::new();
    let mut t: usize = 0;
    while t < idx.len()
        invariant
            t <= idx@.len(),
            kv == key_views(keys@),
            forall|i: int| 0 <= i < idx@.len() ==> idx@[i] < keys@.len(),
            forall|i: int, j: int| 0 <= i < j < idx@.len() ==> idx@[i] < idx@[j],
            r@.len() == t,
            forall|x: usize| r@.contains(x) <==> idx@.take(t as int).contains(x),
            listed_in_order(kv, reverse, r@),
        decreases idx@.len() - t,
    {
        let x = idx[t];
        assert forall|k: int| 0 <= k < r@.len() implies r@[k] < x by {
            assert(r@.contains(r@[k]));
            assert(idx@.take(t as int).contains(r@[k]));
            let w = choose|j: int| 0 <= j < t && idx@.take(t as int)[j] == r@[k];
            assert(idx@[w] == r@[k]);
        }
        let mut p: usize = 0;
        while p < r.len() && !goes_before_exec(keys, reverse, x, r[p])
            invariant
                p <= r@.len(),
                kv == key_views(keys@),
                x < keys@.len(),
                forall|k: int| 0 <= k < r@.len() ==> r@[k] < keys@.len(),
                forall|k: int| 0 <= k < p ==> !goes_before(kv, reverse, x, #[trigger] r@[k]),
            decreases r@.len() - p,
        {
            p += 1;
        }
        let ghost old_r = r@;
        r.insert(p, x);
        proof {
            assert(r@ == old_r.insert(p as int, x));
            assert forall|i: int, j: int| 0 <= i < j < r@.len() implies goes_before(kv, reverse, #[trigger] r@[i], #[trigger] r@[j]) by {
                if j < p {
                    assert(r@[i] == old_r[i] && r@[j] == old_r[j]);
                } else if i > p {
                    assert(r@[i] == old_r[i - 1] && r@[j] == old_r[j - 1]);
                } else if i < p && j > p {
                    assert(r@[i] == old_r[i] && r@[j] == old_r[j - 1]);
                } else if j == p {
                    assert(r@[i] == old_r[i] && r@[j] == x);
                    assert(!goes_before(kv, reverse, x, old_r[i]));
                    lemma_before_total(kv, reverse, x, old_r[i]);
                } else {
                    assert(i == p && r@[i] == x && r@[j] == old_r[j - 1]);
                    assert(goes_before(kv, reverse, x, old_r[p as int]));
                    if j - 1 > p {
                        assert(goes_before(kv, reverse, old_r[p as int], old_r[j - 1]));
                        lemma_before_trans(kv, reverse, x, old_r[p as int], old_r[j - 1]);
                    }
                }
            }
            let before = idx@.take(t as int);
            let after = idx@.take(t + 1);
            assert(after =~= before.push(x));
            assert forall|y: usize| r@.contains(y) implies after.contains(y) by {
                let w = choose|k: int| 0 <= k < r@.len() && r@[k] == y;
                if y == x {
                    assert(after[t as int] == x);
                } else {
                    let v = if w < p { w } else { w - 1 };
                    assert(old_r[v] == y);
                    assert(old_r.contains(y));
                    assert(before.contains(y));
                    let u = choose|k: int| 0 <= k < before.len() && before[k] == y;
                    assert(after[u] == y);
                }
            }
            assert forall|y: usize| after.contains(y) implies r@.contains(y) by {
                if y == x {
                    assert(r@[p as int] == x);
                } else {
                    let u = choose|k: int| 0 <= k < after.len() && after[k] == y;
                    assert(u < t);
                    assert(before[u] == y);
                    assert(before.contains(y));
                    assert(old_r.contains(y));
                    let w = choose|k: int| 0 <= k < old_r.len() && old_r[k] == y;
                    if w < p {
                        assert(r@[w] == y);
                    } else {
                        assert(r@[w + 1] == y);
                    }
                }
            }
        }
        t += 1;
    }
    assert(idx@.take(idx@.len() as int) =~= idx@);
    r
}

/// Index of the first `c` in `s`, or its length.
pub open spec fn first_of(s: Seq<char>, c: char) -> nat
    decreases s.len(),
{
    if s.len() == 0 || s[0] == c {
        0
    } else {
        1 + first_of(s.drop_first(), c)
    }
}

proof fn lemma_first_of(s: Seq<char>, c: char, j: int)
    requires
        0 <= j <= s.len(),
        forall|k: int| 0 <= k < j ==> s[k] != c,
    ensures
        first_of(s, c) == j + first_of(s.skip(j), c),
    decreases j,
{
    if j == 0 {
        assert(s.skip(0) =~= s);
    } else {
        assert(s.drop_first().skip(j - 1) =~= s.skip(j));
        lemma_first_of(s.drop_first(), c, j - 1);
    }
}

/// Index just past the last space of `s`, or 0.
pub open spec fn last_space_end(s: Seq<char>) -> nat
    decreases s.len(),
{
    if s.len() == 0 {
        0
    } else if s.last() == ' ' {
        s.len()
    } else {
        last_space_end(s.drop_last())
    }
}

proof fn lemma_last_space_end(s: Seq<char>, k: int, j: int)
    requires
        0 <= k <= j <= s.len(),
        forall|i: int| k <= i < j ==> s[i] != ' ',
    ensures
        last_space_end(s.take(j)) == last_space_end(s.take(k)),
    decreases j - k,
{
    if j > k {
        assert(s.take(j).drop_last() =~= s.take(j - 1));
        lemma_last_space_end(s, k, j - 1);
    }
}

/// The name an author is sorted by: the part before a comma, trimmed
/// (`Curie, Marie`), else the part after the last space (`Marie Curie`);
/// lower-cased.
pub open spec fn author_sort_name(a: Seq<char>) -> Seq<char> {
    if text::has_char(a, ',') {
        text::lowercase(text::trim(a.take(first_of(a, ',') as int)))
    } else {
        text::lowercase(a.skip(last_space_end(a) as int))
    }
}

/// What the list shows of an entry, and sorts and filters it by.
#[derive(Debug, Clone)]
pub struct ListEntry {
    pub dir_name: String,
    /// The line the list shows, which the text filter searches.
    pub display: String,
    pub first_author: Option<String>,
    pub year: Option<u16>,
    pub title: String,
    pub tags: Vec<String>,
}

/// Where the browser opens a reference: its DOI at `https://doi.org/`, else
/// its arXiv abstract page; nothing without either.
pub fn web_url(r: &Reference) -> (u: Option<String>)
    ensures
        match r@.doi {
            Some(d) => u matches Some(s) && s@ == "https://doi.org/"@ + d,
            None => match r@.arxiv {
                Some(a) => u matches Some(s) && s@ == "https://arxiv.org/abs/"@ + a,
                None => u is None,
            },
        },
{
    match &r.doi {
        Some(d) => {
            let mut s = "https://doi.org/".to_owned();
            push_str(&mut s, d.as_str());
            Some(s)
        },
        None => match &r.arxiv {
            Some(a) => {
                let mut s = "https://arxiv.org/abs/".to_owned();
                push_str(&mut s, a.as_str());
                Some(s)
            },
            None => None,
        },
    }
}

/// The index of the last `c` in `s`, or -1.
pub open spec fn last_index_of(s: Seq<char>, c: char) -> int
    decreases s.len(),
{
    if s.len() == 0 {
        -1
    } else if s.last() == c {
        s.len() - 1
    } else {
        last_index_of(s.drop_last(), c)
    }
}

/// The name a list row shows for an author: what comes before the last comma
/// ("Last, First"), trimmed; else the last word; else the text itself.
pub open spec fn row_name(a: Seq<char>) -> Seq<char> {
    let i = last_index_of(a, ',');
    if i >= 0 {
        text::trim(a.take(i))
    } else if text::words(a).len() > 0 {
        text::words(a).last()
    } else {
        a
    }
}

/// `n` spaces.
pub open spec fn spaces(n: nat) -> Seq<char> {
    Seq::new(n, |i: int| ' ')
}

/// The author column of a list row: the first author's row name, cut to
/// twelve bytes and right-aligned in twelve columns, then two spaces; blank
/// without authors.
pub open spec fn author_cell(authors: Seq<Seq<char>>) -> Seq<char> {
    if authors.len() == 0 {
        spaces(14)
    } else {
        let name = row_name(authors[0]);
        let cut = name.take(crate::clip::fitting_chars(name, 12) as int);
        spaces((12 - cut.len()) as nat) + cut + spaces(2)
    }
}

/// The year column of a list row: the year between spaces, or six spaces.
pub open spec fn year_cell(year: Option<u16>) -> Seq<char> {
    match year {
        Some(y) => seq![' '] + text::decimal(y as nat) + seq![' '],
        None => spaces(6),
    }
}

fn last_comma(v: &[char]) -> (i: Option<usize>)
    ensures
        match i {
            Some(k) => k < v@.len() && last_index_of(v@, ',') == k,
            None => last_index_of(v@, ',') == -1,
        },
{
    let mut n: usize = v.len();
    assert(v@.take(n as int) =~= v@);
    while n > 0
        invariant
            n <= v@.len(),
            last_index_of(v@, ',') == last_index_of(v@.take(n as int), ','),
        decreases n,
    {
        let ghost t = v@.take(n as int);
        assert(t.drop_last() =~= v@.take(n - 1));
        if v[n - 1] == ',' {
            return Some(n - 1);
        }
        n -= 1;
    }
    None
}

fn push_spaces(s: &mut String, n: usize)
    ensures
        final(s)@ == old(s)@ + spaces(n as nat),
{
    let mut i: usize = 0;
    while i < n
        invariant
            i <= n,
            s@ == old(s)@ + spaces(i as nat),
        decreases n - i,
    {
        text::push_char(s, ' ');
        i += 1;
        assert(s@ =~= old(s)@ + spaces(i as nat));
    }
}

/// The row name of author `a`.
pub fn row_name_of(a: &str) -> (r: String)
    ensures
        r@ == row_name(a@),
{
    let v = chars_of(a);
    match last_comma(&v) {
        Some(k) => {
            let before = text::string_from_range(&v, 0, k);
            proof {
                assert(before@ =~= a@.take(k as int));
            }
            trim_str(before.as_str())
        },
        None => {
            let ws = text::split_words(&v, 0, v.len());
            proof {
                assert(v@.subrange(0, v@.len() as int) =~= a@);
            }
            if ws.len() > 0 {
                let last = ws[ws.len() - 1].clone();
                proof {
                    assert(text::views(ws@)[ws@.len() - 1] == ws@[ws@.len() - 1]@);
                }
                last
            } else {
                a.to_owned()
            }
        },
    }
}

/// The author column of the list row of `r`.
pub fn author_column(r: &Reference) -> (c: String)
    ensures
        c@ == author_cell(r@.authors),
{
    let mut c = String::new();
    if r.authors.len() == 0 {
        push_spaces(&mut c, 14);
        assert(c@ =~= author_cell(r@.authors));
        return c;
    }
    let name = row_name_of(r.authors[0].as_str());
    let cut = crate::clip::truncate_str(name.as_str(), 12);
    let n = chars_of(cut.as_str()).len();
    proof {
        crate::clip::lemma_fitting_chars(name@, 12);
        crate::clip::lemma_utf8_len_prefix(name@, 0, crate::clip::fitting_chars(name@, 12) as int);
    }
    push_spaces(&mut c, 12 - n);
    push_str(&mut c, cut.as_str());
    push_spaces(&mut c, 2);
    assert(c@ =~= author_cell(r@.authors));
    c
}

/// The year column of the list row of `r`.
pub fn year_column(r: &Reference) -> (c: String)
    ensures
        c@ == year_cell(r@.year),
{
    let mut c = String::new();
    match r.year {
        Some(y) => {
            text::push_char(&mut c, ' ');
            text::push_decimal(&mut c, y as u64);
            text::push_char(&mut c, ' ');
        },
        None => push_spaces(&mut c, 6),
    }
    assert(c@ =~= year_cell(r@.year));
    c
}

/// The first of `ls` that starts with `p`.
pub open spec fn first_starting(ls: Seq<Seq<char>>, p: Seq<char>) -> Option<Seq<char>>
    decreases ls.len(),
{
    if ls.len() == 0 {
        None
    } else if text::starts_with(ls[0], p) {
        Some(ls[0])
    } else {
        first_starting(ls.drop_first(), p)
    }
}

/// The first of `ls` that contains `p`.
pub open spec fn first_containing(ls: Seq<Seq<char>>, p: Seq<char>) -> Option<Seq<char>>
    decreases ls.len(),
{
    if ls.len() == 0 {
        None
    } else if text::contains(ls[0], p) {
        Some(ls[0])
    } else {
        first_containing(ls.drop_first(), p)
    }
}

/// What the browser reports after running an import: on success the
/// "Added:" line of its output, else its duplicate notice, else a plain
/// success note; on failure the last line of its error output, else a plain
/// failure note.
pub open spec fn add_report(success: bool, out: Seq<char>, err: Seq<char>) -> Seq<char> {
    if success {
        match first_starting(crate::formula::lines(out), "Added:"@) {
            Some(l) => l,
            None => match first_containing(crate::formula::lines(err), "duplicate of"@) {
                Some(l) => l,
                None => "Added successfully"@,
            },
        }
    } else if crate::formula::lines(err).len() > 0 {
        crate::formula::lines(err).last()
    } else {
        "Add failed"@
    }
}

fn find_starting(ls: &Vec<String>, p: &str) -> (r: Option<String>)
    ensures
        opt_seq(r) == first_starting(text::views(ls@), p@),
{
    let ghost all = text::views(ls@);
    let mut i: usize = 0;
    assert(all.skip(0) =~= all);
    while i < ls.len()
        invariant
            i <= ls@.len(),
            all == text::views(ls@),
            first_starting(all, p@) == first_starting(all.skip(i as int), p@),
        decreases ls@.len() - i,
    {
        assert(all.skip(i as int).drop_first() =~= all.skip(i + 1));
        assert(all.skip(i as int)[0] == ls@[i as int]@);
        if text::str_starts_with(ls[i].as_str(), p) {
            return Some(ls[i].clone());
        }
        i += 1;
    }
    None
}

fn find_containing(ls: &Vec<String>, p: &str) -> (r: Option<String>)
    ensures
        opt_seq(r) == first_containing(text::views(ls@), p@),
{
    let ghost all = text::views(ls@);
    let mut i: usize = 0;
    assert(all.skip(0) =~= all);
    while i < ls.len()
        invariant
            i <= ls@.len(),
            all == text::views(ls@),
            first_containing(all, p@) == first_containing(all.skip(i as int), p@),
        decreases ls@.len() - i,
    {
        assert(all.skip(i as int).drop_first() =~= all.skip(i + 1));
        assert(all.skip(i as int)[0] == ls@[i as int]@);
        if text::str_contains(ls[i].as_str(), p) {
            return Some(ls[i].clone());
        }
        i += 1;
    }
    None
}

/// The characters of an optional string.
pub open spec fn opt_seq(o: Option<String>) -> Option<Seq<char>> {
    match o {
        Some(s) => Some(s@),
        None => None,
    }
}

/// What the browser reports after an import that exited successfully or
/// not (`success`) with output `out` and error output `err`.
pub fn add_message(success: bool, out: &str, err: &str) -> (m: String)
    ensures
        m@ == add_report(success, out@, err@),
{
    let err_lines = split_lines(err);
    if success {
        let out_lines = split_lines(out);
        match find_starting(&out_lines, "Added:") {
            Some(l) => l,
            None => match find_containing(&err_lines, "duplicate of") {
                Some(l) => l,
                None => "Added successfully".to_owned(),
            },
        }
    } else if err_lines.len() > 0 {
        proof {
            assert(text::views(err_lines@).last() == err_lines@[err_lines@.len() - 1]@);
        }
        err_lines[err_lines.len() - 1].clone()
    } else {
        "Add failed".to_owned()
    }
}

/// The authors as the list shows them: the first, with "et al." when there
/// are more.
pub open spec fn author_label(authors: Seq<Seq<char>>) -> Seq<char> {
    if authors.len() == 0 {
        seq![]
    } else if authors.len() == 1 {
        authors[0]
    } else {
        authors[0] + seq![' ', 'e', 't', ' ', 'a', 'l', '.']
    }
}

/// The year in parentheses, or nothing.
pub open spec fn year_label(year: Option<u16>) -> Seq<char> {
    match year {
        Some(y) => seq!['('] + text::decimal(y as nat) + seq![')'],
        None => seq![],
    }
}

/// `p` as a one-element list when it is not empty.
pub open spec fn kept(p: Seq<char>) -> Seq<Seq<char>> {
    if p.len() > 0 {
        seq![p]
    } else {
        seq![]
    }
}

/// The line the list shows for a reference: author label, year label and
/// title, the empty ones left out, separated by two spaces.
pub open spec fn display_line(authors: Seq<Seq<char>>, year: Option<u16>, title: Seq<char>) -> Seq<
    char,
> {
    text::join(
        kept(author_label(authors)) + kept(year_label(year)) + kept(title),
        seq![' ', ' '],
    )
}

fn push_nonempty(parts: &mut Vec<String>, p: String)
    ensures
        text::views(final(parts)@) == text::views(old(parts)@) + kept(p@),
{
    let ghost before = text::views(parts@);
    if !p.as_str().is_empty() {
        parts.push(p);
        assert(text::views(parts@) =~= before + kept(p@));
    } else {
        assert(text::views(parts@) =~= before + kept(p@));
    }
}

/// The line the list shows for `r`.
pub fn display_of(r: &Reference) -> (d: String)
    ensures
        d@ == display_line(r@.authors, r@.year, r@.title),
{
    let authors = if r.authors.len() == 0 {
        String::new()
    } else if r.authors.len() == 1 {
        r.authors[0].clone()
    } else {
        let mut a = r.authors[0].clone();
        push_str(&mut a, " et al.");
        proof {
            reveal_strlit(" et al.");
        }
        a
    };
    let year = match r.year {
        Some(y) => {
            let mut s = String::new();
            push_str(&mut s, "(");
            push_str(&mut s, decimal_string(y as u64).as_str());
            push_str(&mut s, ")");
            proof {
                reveal_strlit("(");
                reveal_strlit(")");
                assert(s@ =~= year_label(r@.year));
            }
            s
        },
        None => String::new(),
    };
    proof {
        assert(authors@ =~= author_label(r@.authors));
        assert(year@ =~= year_label(r@.year));
    }
    let mut parts: Vec<String> = Vec::new();
    proof {
        assert(text::views(parts@) =~= Seq::<Seq<char>>::empty());
    }
    push_nonempty(&mut parts, authors);
    push_nonempty(&mut parts, year);
    push_nonempty(&mut parts, r.title.clone());
    let sep = "  ";
    proof {
        reveal_strlit("  ");
        assert(sep@ =~= seq![' ', ' ']);
        assert(text::views(parts@) =~= kept(author_label(r@.authors)) + kept(year_label(r@.year))
            + kept(r@.title));
    }
    join_strings(&parts, sep)
}

/// The list's record of the library entry in `dir_name` holding `r`.
pub fn list_entry(dir_name: String, r: &Reference) -> (e: ListEntry)
    ensures
        e.dir_name == dir_name,
        e.display@ == display_line(r@.authors, r@.year, r@.title),
        e.first_author == (if r@.authors.len() > 0 {
            Some(r.authors@[0])
        } else {
            None::<String>
        }),
        e.year == r.year,
        e.title@ == r@.title,
        text::views(e.tags@) == r@.tags,
{
    let first_author = if r.authors.len() > 0 {
        Some(r.authors[0].clone())
    } else {
        None
    };
    let tags = crate::model::clone_strings(&r.tags);
    ListEntry {
        dir_name,
        display: display_of(r),
        first_author,
        year: r.year,
        title: r.title.clone(),
        tags,
    }
}

/// The key an entry sorts by: its directory name, its first author's sort
/// name, its year (newest first: the key is the year's complement) or its
/// lower-case title.
pub open spec fn sort_key(mode: SortMode, e: ListEntry) -> (u64, Seq<char>) {
    match mode {
        SortMode::Name => (0, e.dir_name@),
        SortMode::Author => (0, match e.first_author {
            Some(a) => author_sort_name(a@),
            None => Seq::empty(),
        }),
        SortMode::Year => ((65535 - match e.year {
            Some(y) => y as int,
            None => 0,
        }) as u64, Seq::empty()),
        SortMode::Title => (0, text::lowercase(e.title@)),
    }
}

/// The score of `pattern` against `haystack` under `nucleo_matcher`'s
/// fuzzy matching, when it matches at all.
pub uninterp spec fn fuzzy_match(pattern: Seq<char>, haystack: Seq<char>) -> Option<u32>;

/// `nucleo_matcher`: the pattern parsed with case ignored and smart
/// normalization, scored against the haystack with the default
/// configuration.
#[verifier::external_body]
fn fuzzy_score(pattern: &str, haystack: &str) -> (r: Option<u32>)
    ensures
        r == fuzzy_match(pattern@, haystack@),
{
    let parsed = Pattern::parse(pattern, CaseMatching::Ignore, Normalization::Smart);
    let mut matcher = nucleo_matcher::Matcher::new(nucleo_matcher::Config::DEFAULT);
    let mut buf = Vec::new();
    parsed.score(nucleo_matcher::Utf32Str::new(haystack, &mut buf), &mut matcher)
}

/// The key of an entry in the list: with a text filter, its match score
/// (best first: the key is the score's complement); else its sort key.
pub open spec fn list_key(mode: SortMode, filter: Seq<char>, e: ListEntry) -> (u64, Seq<char>) {
    if filter.len() > 0 {
        match fuzzy_match(filter, e.display@) {
            Some(score) => ((4294967295 - score) as u64, Seq::empty()),
            None => (0, Seq::empty()),
        }
    } else {
        sort_key(mode, e)
    }
}

pub open spec fn list_keys(entries: Seq<ListEntry>, mode: SortMode, filter: Seq<char>) -> Seq<(u64, Seq<char>)> {
    entries.map_values(|e: ListEntry| list_key(mode, filter, e))
}

/// The entry is shown: it has the tag filtered for (exactly), if any, and
/// matches the text filter, if any.
pub open spec fn shown(e: ListEntry, tag: Option<Seq<char>>, filter: Seq<char>) -> bool {
    &&& match tag {
        Some(t) => text::views(e.tags@).contains(t),
        None => true,
    }
    &&& (filter.len() == 0 || fuzzy_match(filter, e.display@) is Some)
}

fn author_key(a: &str) -> (r: String)
    ensures
        r@ == author_sort_name(a@),
{
    let v = chars_of(a);
    if text::has_char_in(&v, ',') {
        let mut c: usize = 0;
        while c < v.len() && v[c] != ','
            invariant
                c <= v@.len(),
                forall|k: int| 0 <= k < c ==> v@[k] != ',',
            decreases v@.len() - c,
        {
            c += 1;
        }
        proof {
            lemma_first_of(v@, ',', c as int);
            if c < v@.len() {
                assert(v@.skip(c as int)[0] == ',');
            } else {
                assert(v@.skip(c as int).len() == 0);
            }
        }
        let head = text::string_from_range(&v, 0, c);
        assert(head@ =~= a@.take(c as int));
        let trimmed = trim_str(head.as_str());
        to_lowercase(trimmed.as_str())
    } else {
        let mut k: usize = v.len();
        while k > 0 && v[k - 1] != ' '
            invariant
                k <= v@.len(),
                forall|i: int| k <= i < v@.len() ==> v@[i] != ' ',
            decreases k,
        {
            k -= 1;
        }
        proof {
            lemma_last_space_end(v@, k as int, v@.len() as int);
            assert(v@.take(v@.len() as int) =~= v@);
            if k > 0 {
                assert(v@.take(k as int).last() == ' ');
            }
        }
        let tail = text::string_from_range(&v, k, v.len());
        assert(tail@ =~= a@.skip(k as int));
        to_lowercase(tail.as_str())
    }
}

fn list_key_exec(mode: SortMode, filter: &str, e: &ListEntry) -> (k: (u64, String))
    ensures
        (k.0, k.1@) == list_key(mode, filter@, *e),
{
    if !filter.is_empty() {
        return match fuzzy_score(filter, e.display.as_str()) {
            Some(score) => ((4294967295u32 - score) as u64, String::new()),
            None => (0, String::new()),
        };
    }
    match mode {
        SortMode::Name => (0, e.dir_name.clone()),
        SortMode::Author => (0, match &e.first_author {
            Some(a) => author_key(a.as_str()),
            None => String::new(),
        }),
        SortMode::Year => ((65535 - match e.year {
            Some(y) => y,
            None => 0,
        }) as u64, String::new()),
        SortMode::Title => (0, to_lowercase(e.title.as_str())),
    }
}

fn has_tag(tags: &Vec<String>, tag: &str) -> (b: bool)
    ensures
        b == text::views(tags@).contains(tag@),
{
    let mut i: usize = 0;
    while i < tags.len()
        invariant
            i <= tags@.len(),
            forall|j: int| 0 <= j < i ==> text::views(tags@)[j] != tag@,
        decreases tags@.len() - i,
    {
        if str_eq(tags[i].as_str(), tag) {
            assert(text::views(tags@)[i as int] == tag@);
            return true;
        }
        i += 1;
    }
    false
}

/// The entries the list shows, in order: those with the filtered tag (if
/// any); with a text filter, those it matches, best score first; else
/// sorted by `mode` (turned around when `reverse`). Ties keep library
/// order.
pub fn visible_entries(
    entries: &Vec<ListEntry>,
    tag_filter: &Option<String>,
    filter: &str,
    mode: SortMode,
    reverse: bool,
) -> (r: Vec<usize>)
    ensures
        forall|x: usize| r@.contains(x) <==> (x < entries@.len() && shown(entries@[x as int], text::opt_view(*tag_filter), filter@)),
        listed_in_order(list_keys(entries@, mode, filter@), reverse && filter@.len() == 0, r@),
{
    let fuzzy = !filter.is_empty();
    let mut idx: Vec<usize> = Vec::new();
    let mut keys: Vec<(u64, String)> = Vec::new();
    let ghost lk = list_keys(entries@, mode, filter@);
    let mut i: usize = 0;
    while i < entries.len()
        invariant
            i <= entries@.len(),
            fuzzy == (filter@.len() > 0),
            keys@.len() == i,
            lk == list_keys(entries@, mode, filter@),
            forall|j: int| 0 <= j < i ==> key_views(keys@)[j] == lk[j],
            forall|j: int| 0 <= j < idx@.len() ==> idx@[j] < i,
            forall|a: int, b: int| 0 <= a < b < idx@.len() ==> idx@[a] < idx@[b],
            forall|x: usize| idx@.contains(x) <==> (x < i && shown(entries@[x as int], text::opt_view(*tag_filter), filter@)),
        decreases entries@.len() - i,
    {
        let e = &entries[i];
        let k = list_key_exec(mode, filter, e);
        keys.push(k);
        assert(key_views(keys@)[i as int] == lk[i as int]);
        let tagged = match tag_filter {
            Some(t) => has_tag(&e.tags, t.as_str()),
            None => true,
        };
        let matched = !fuzzy || fuzzy_score(filter, e.display.as_str()).is_some();
        let ghost old_idx = idx@;
        if tagged && matched {
            idx.push(i);
        }
        proof {
            assert forall|x: usize| idx@.contains(x) <==> (x < i + 1 && shown(entries@[x as int], text::opt_view(*tag_filter), filter@)) by {
                if idx@.contains(x) {
                    let w = choose|j: int| 0 <= j < idx@.len() && idx@[j] == x;
                    if w < old_idx.len() {
                        assert(old_idx[w] == x);
                        assert(old_idx.contains(x));
                    }
                }
                if x < i + 1 && shown(entries@[x as int], text::opt_view(*tag_filter), filter@) {
                    if x < i {
                        assert(old_idx.contains(x));
                        let w = choose|j: int| 0 <= j < old_idx.len() && old_idx[j] == x;
                        assert(idx@[w] == x);
                    } else {
                        assert(idx@[old_idx.len() as int] == x);
                    }
                }
            }
        }
        i += 1;
    }
    assert(key_views(keys@) =~= lk);
    sort_indices(&idx, &keys, reverse && !fuzzy)
}

// ---------------------------------------------------------------------------
// The search and add lines
// ---------------------------------------------------------------------------
/// The browser's text lines: the filter, the add line when it is open,
/// whether the search line has the focus, and the tag filter.
pub struct InputLines {
    pub filter: String,
    pub add: Option<String>,
    pub searching: bool,
    pub tag_filter: Option<String>,
}

/// `InputLines` as the contracts speak of it.
pub struct InputView {
    pub filter: Seq<char>,
    pub add: Option<Seq<char>>,
    pub searching: bool,
    pub tag_filter: Option<Seq<char>>,
}

pub open spec fn input_view(l: InputLines) -> InputView {
    InputView {
        filter: l.filter@,
        add: text::opt_view(l.add),
        searching: l.searching,
        tag_filter: text::opt_view(l.tag_filter),
    }
}

/// `s` without its last character (`String::pop`).
pub open spec fn popped(s: Seq<char>) -> Seq<char> {
    if s.len() > 0 {
        s.drop_last()
    } else {
        s
    }
}

/// The lines after `a`, and whether the list must be filtered again.
pub open spec fn edited_input(v: InputView, a: crate::keymap::Action) -> (InputView, bool) {
    match a {
        crate::keymap::Action::AddInputToSearch => match v.add {
            Some(t) => (InputView { filter: t, add: None, searching: true, ..v }, true),
            None => (InputView { searching: true, ..v }, false),
        },
        crate::keymap::Action::AddPop => (InputView {
            add: match v.add {
                Some(t) => Some(popped(t)),
                None => None,
            },
            ..v
        }, false),
        crate::keymap::Action::AddPush(c) => (InputView {
            add: match v.add {
                Some(t) => Some(t.push(c)),
                None => None,
            },
            ..v
        }, false),
        crate::keymap::Action::SearchToAdd => (
            InputView { add: Some(v.filter), filter: seq![], searching: false, ..v },
            true,
        ),
        crate::keymap::Action::FilterPush(c) => (InputView { filter: v.filter.push(c), ..v }, true),
        crate::keymap::Action::FilterPop => (InputView { filter: popped(v.filter), ..v }, true),
        crate::keymap::Action::LeaveSearch => (InputView { searching: false, ..v }, false),
        crate::keymap::Action::StartSearch => (InputView { searching: true, ..v }, false),
        crate::keymap::Action::OpenAddInput => (InputView { add: Some(seq![]), ..v }, false),
        crate::keymap::Action::CloseAddInput => (InputView { add: None, ..v }, false),
        crate::keymap::Action::ClearFilters => (InputView { filter: seq![], tag_filter: None, ..v }, true),
        _ => (v, false),
    }
}

fn pop_str(s: &String) -> (r: String)
    ensures
        r@ == popped(s@),
{
    let v = chars_of(s.as_str());
    if v.len() == 0 {
        return String::new();
    }
    let r = text::string_from_range(&v, 0, v.len() - 1);
    assert(r@ =~= popped(s@));
    r
}

impl InputLines {
    /// Carries out what `a` does to the text lines; gives whether the list
    /// must be filtered again.
    pub fn edit(&mut self, a: crate::keymap::Action) -> (refilter: bool)
        ensures
            (input_view(*final(self)), refilter) == edited_input(input_view(*old(self)), a),
    {
        match a {
            crate::keymap::Action::AddInputToSearch => {
                self.searching = true;
                match self.add.take() {
                    Some(t) => {
                        self.filter = t;
                        true
                    },
                    None => false,
                }
            },
            crate::keymap::Action::AddPop => {
                if let Some(t) = &self.add {
                    self.add = Some(pop_str(t));
                }
                false
            },
            crate::keymap::Action::AddPush(c) => {
                if let Some(t) = &self.add {
                    let mut n = t.clone();
                    text::push_char(&mut n, c);
                    self.add = Some(n);
                }
                false
            },
            crate::keymap::Action::SearchToAdd => {
                let f = self.filter.clone();
                self.add = Some(f);
                self.filter = String::new();
                self.searching = false;
                assert(self.filter@ =~= Seq::<char>::empty());
                true
            },
            crate::keymap::Action::FilterPush(c) => {
                text::push_char(&mut self.filter, c);
                true
            },
            crate::keymap::Action::FilterPop => {
                self.filter = pop_str(&self.filter);
                true
            },
            crate::keymap::Action::LeaveSearch => {
                self.searching = false;
                false
            },
            crate::keymap::Action::StartSearch => {
                self.searching = true;
                false
            },
            crate::keymap::Action::OpenAddInput => {
                self.add = Some(String::new());
                assert(text::opt_view(self.add) =~= Some(Seq::<char>::empty()));
                false
            },
            crate::keymap::Action::CloseAddInput => {
                self.add = None;
                false
            },
            crate::keymap::Action::ClearFilters => {
                self.filter = String::new();
                self.tag_filter = None;
                assert(self.filter@ =~= Seq::<char>::empty());
                true
            },
            _ => false,
        }
    }
}

} // verus!
