//! Display formulas in passages and the ink compositing of their renders.
use vstd::prelude::*;

use crate::storage::str_eq;
use crate::text::{self, chars_of, join_strings, string_from_range, trim_str};

verus! {

/// A rectangle of a rendered page, in pixels.
#[derive(Clone, Copy, Debug, PartialEq, Eq, Structural)]
pub struct PixelCrop {
    pub x: u32,
    pub y: u32,
    pub width: u32,
    pub height: u32,
}

/// A formula of a passage located on a page of the work's PDF.
#[derive(Clone, Debug, PartialEq)]
pub struct ResolvedFormula {
    pub latex: String,
    pub pdf_path: String,
    pub page: u32,
    pub crop: PixelCrop,
}

impl ResolvedFormula {
    pub fn pixel_width(&self) -> (w: u32)
        ensures
            w == self.crop.width,
    {
        self.crop.width
    }

    pub fn pixel_height(&self) -> (h: u32)
        ensures
            h == self.crop.height,
    {
        self.crop.height
    }
}

/// `x` without one trailing carriage return.
pub open spec fn strip_cr(x: Seq<char>) -> Seq<char> {
    if x.len() > 0 && x.last() == '\r' {
        x.drop_last()
    } else {
        x
    }
}

/// Index of the first `\n` of `s`, or `s.len()`.
pub open spec fn line_len(s: Seq<char>) -> nat
    decreases s.len(),
{
    if s.len() == 0 || s[0] == '\n' {
        0
    } else {
        1 + line_len(s.drop_first())
    }
}

/// The lines of `s` (`str::lines`): split at `\n`, a `\r` before the `\n`
/// dropped, and no empty line after a final `\n`.
pub open spec fn lines(s: Seq<char>) -> Seq<Seq<char>>
    decreases s.len(),
{
    if s.len() == 0 {
        seq![]
    } else {
        proof {
            lemma_line_len_bound(s);
        }
        let n = line_len(s);
        if n == s.len() {
            seq![s]
        } else {
            seq![strip_cr(s.take(n as int))] + lines(s.skip(n as int + 1))
        }
    }
}

pub proof fn lemma_line_len_bound(s: Seq<char>)
    ensures
        line_len(s) <= s.len(),
    decreases s.len(),
{
    if s.len() > 0 && s[0] != '\n' {
        lemma_line_len_bound(s.drop_first());
    }
}

proof fn lemma_line_len(s: Seq<char>, k: int)
    requires
        0 <= k <= s.len(),
        forall|j: int| 0 <= j < k ==> #[trigger] s[j] != '\n',
        k == s.len() || s[k] == '\n',
    ensures
        line_len(s) == k,
    decreases k,
{
    if k > 0 {
        assert forall|j: int| 0 <= j < k - 1 implies #[trigger] s.drop_first()[j] != '\n' by {
            assert(s.drop_first()[j] == s[j + 1]);
        }
        lemma_line_len(s.drop_first(), k - 1);
    }
}

/// The lines of `s`.
pub fn split_lines(s: &str) -> (ls: Vec<String>)
    ensures
        text::views(ls@) == lines(s@),
{
    let v = chars_of(s);
    let n = v.len();
    let mut ls: Vec<String> = Vec::new();
    let mut i: usize = 0;
    assert(v@.skip(0) =~= v@);
    while i < n
        invariant
            n == v@.len(),
            v@ == s@,
            i <= n,
            lines(s@) == text::views(ls@) + lines(v@.skip(i as int)),
        decreases n - i,
    {
        let ghost rest = v@.skip(i as int);
        let mut j = i;
        while j < n && v[j] != '\n'
            invariant
                n == v@.len(),
                i <= j <= n,
                forall|k: int| i <= k < j ==> #[trigger] v@[k] != '\n',
            decreases n - j,
        {
            j += 1;
        }
        proof {
            assert forall|k: int| 0 <= k < j - i implies #[trigger] rest[k] != '\n' by {
                assert(rest[k] == v@[i + k]);
            }
            lemma_line_len(rest, j - i);
        }
        let ghost prev = ls@;
        if j == n {
            let line = string_from_range(&v, i, j);
            assert(line@ =~= rest);
            ls.push(line);
            proof {
                assert(lines(rest) == seq![rest]);
                assert(text::views(ls@) =~= text::views(prev).push(line@));
                assert(v@.skip(n as int) =~= Seq::<char>::empty());
                assert(text::views(ls@) + lines(v@.skip(n as int)) =~= text::views(prev) + lines(
                    rest,
                ));
            }
            i = n;
        } else {
            let end = if j > i && v[j - 1] == '\r' {
                j - 1
            } else {
                j
            };
            let line = string_from_range(&v, i, end);
            proof {
                assert(rest.take(j - i) =~= v@.subrange(i as int, j as int));
                assert(line@ =~= strip_cr(rest.take(j - i)));
                assert(rest.skip(j - i + 1) =~= v@.skip(j + 1));
            }
            ls.push(line);
            proof {
                assert(text::views(ls@) =~= text::views(prev).push(line@));
                assert(lines(rest) == seq![line@] + lines(v@.skip(j + 1)));
                assert(text::views(ls@) + lines(v@.skip(j + 1)) =~= text::views(prev) + lines(rest));
            }
            i = j + 1;
        }
    }
    assert(v@.skip(n as int) =~= Seq::<char>::empty());
    assert(text::views(ls@) + Seq::<Seq<char>>::empty() =~= text::views(ls@));
    ls
}

/// A line that opens a display formula (`\[` or `$$`).
pub open spec fn opens_formula(t: Seq<char>) -> bool {
    t == "\\["@ || t == "$$"@
}

/// A line that closes a display formula (`\]` or `$$`).
pub open spec fn closes_formula(t: Seq<char>) -> bool {
    t == "\\]"@ || t == "$$"@
}

/// The scan state after some lines: the formulas found and, inside a
/// display block, the lines collected so far.
pub open spec fn scan(ls: Seq<Seq<char>>) -> (Seq<Seq<char>>, Option<Seq<Seq<char>>>)
    decreases ls.len(),
{
    if ls.len() == 0 {
        (seq![], None)
    } else {
        let (found, current) = scan(ls.drop_last());
        let line = ls.last();
        let t = text::trim(line);
        match current {
            None => if opens_formula(t) {
                (found, Some(seq![]))
            } else {
                (found, None)
            },
            Some(body) => if closes_formula(t) {
                let formula = text::trim(text::join(body, "\n"@));
                (
                    if formula.len() > 0 {
                        found.push(formula)
                    } else {
                        found
                    },
                    None,
                )
            } else {
                (found, Some(body.push(line)))
            },
        }
    }
}

/// The display formulas (`\[ … \]` or `$$ … $$` blocks) of a passage, in
/// order, each trimmed; empty blocks are skipped.
pub fn extract_formula_texts(text: &str) -> (r: Vec<String>)
    ensures
        text::views(r@) == scan(lines(text@)).0,
{
    let ls = split_lines(text);
    let ghost lv = lines(text@);
    let mut found: Vec<String> = Vec::new();
    let mut inside = false;
    let mut body: Vec<String> = Vec::new();
    let mut i: usize = 0;
    while i < ls.len()
        invariant
            text::views(ls@) == lv,
            i <= ls@.len(),
            text::views(found@) == scan(lv.take(i as int)).0,
            inside <==> scan(lv.take(i as int)).1 is Some,
            inside ==> text::views(body@) == scan(lv.take(i as int)).1->0,
        decreases ls@.len() - i,
    {
        proof {
            assert(lv.take(i + 1).drop_last() =~= lv.take(i as int));
            assert(lv.take(i + 1).last() == ls@[i as int]@);
        }
        let t = trim_str(ls[i].as_str());
        let t = t.as_str();
        if !inside {
            if str_eq(t, "\\[") || str_eq(t, "$$") {
                inside = true;
                body = Vec::new();
                assert(text::views(body@) =~= Seq::<Seq<char>>::empty());
            }
        } else if str_eq(t, "\\]") || str_eq(t, "$$") {
            let joined = join_strings(&body, "\n");
            let formula = trim_str(joined.as_str());
            if !formula.as_str().is_empty() {
                let ghost prev = found@;
                found.push(formula);
                assert(text::views(found@) =~= text::views(prev).push(formula@));
            }
            inside = false;
        } else {
            let ghost prev = body@;
            let line = ls[i].clone();
            body.push(line);
            assert(text::views(body@) =~= text::views(prev).push(line@));
        }
        i += 1;
    }
    assert(lv.take(ls@.len() as int) =~= lv);
    found
}

/// Ink of a white-background raster pixel: 255 minus its luminance.
pub open spec fn coverage_of(red: u8, green: u8, blue: u8) -> int {
    let luminance = (77 * red + 150 * green + 29 * blue + 128) / 256;
    if luminance >= 255 {
        0
    } else {
        255 - luminance
    }
}

pub fn ink_coverage(red: u8, green: u8, blue: u8) -> (c: u16)
    ensures
        c == coverage_of(red, green, blue),
        c <= 255,
{
    let luminance: u32 = (77 * red as u32 + 150 * green as u32 + 29 * blue as u32 + 128) / 256;
    if luminance >= 255 {
        0
    } else {
        (255 - luminance) as u16
    }
}

/// Coverage strengthened by a quarter, rounded up and capped at 255.
pub open spec fn emphasized(coverage: u16) -> int {
    let product = if coverage * 5 > u16::MAX {
        u16::MAX as int
    } else {
        coverage * 5
    };
    let raised = (product + 3) / 4;
    if raised > 255 {
        255
    } else {
        raised
    }
}

pub fn emphasize_coverage(coverage: u16) -> (c: u16)
    ensures
        c == emphasized(coverage),
        c <= 255,
        coverage == 0 ==> c == 0,
{
    let product: u16 = match coverage.checked_mul(5) {
        Some(p) => p,
        None => u16::MAX,
    };
    let raised: u16 = product / 4 + if product % 4 == 0 {
        0
    } else {
        1
    };
    assert(raised == (product + 3) / 4);
    if raised > 255 {
        255
    } else {
        raised
    }
}

/// A formula of the document's catalog: its text and its page.
pub type CatalogView = (Seq<char>, u32);

/// A catalog formula can stand for `latex`: the two agree once trimmed, and
/// its page is one of the passage's pages (any page when none is known).
pub open spec fn fits(latex: Seq<char>, entry: CatalogView, pages: Seq<u32>) -> bool {
    text::trim(entry.0) == text::trim(latex) && (pages.len() == 0 || pages.contains(entry.1))
}

/// The first catalog formula from `j` on that fits `latex` and that no
/// earlier formula of the passage took.
pub open spec fn first_fit(
    latex: Seq<char>,
    catalog: Seq<CatalogView>,
    pages: Seq<u32>,
    taken: Seq<Option<int>>,
    j: int,
) -> Option<int>
    decreases catalog.len() - j,
{
    if j < 0 || j >= catalog.len() {
        None
    } else if !taken.contains(Some(j)) && fits(latex, catalog[j], pages) {
        Some(j)
    } else {
        first_fit(latex, catalog, pages, taken, j + 1)
    }
}

/// The catalog formula each formula of a passage stands on, in order: the
/// first free one that fits, each catalog formula used at most once.
pub open spec fn assignment(formulas: Seq<Seq<char>>, catalog: Seq<CatalogView>, pages: Seq<u32>) -> Seq<
    Option<int>,
>
    decreases formulas.len(),
{
    if formulas.len() == 0 {
        Seq::empty()
    } else {
        let taken = assignment(formulas.drop_last(), catalog, pages);
        taken.push(first_fit(formulas.last(), catalog, pages, taken, 0))
    }
}

/// The character views of catalog formulas.
pub open spec fn catalog_views(c: Seq<(String, u32)>) -> Seq<CatalogView> {
    c.map_values(|x: (String, u32)| (x.0@, x.1))
}

/// The index of the catalog formula each formula of a passage is drawn
/// from: the first one not yet taken whose trimmed text is the formula's
/// and whose page is among `pages` (when `pages` is not empty).
pub fn match_catalog(formulas: &Vec<String>, catalog: &Vec<(String, u32)>, pages: &Vec<u32>) -> (r: Vec<
    Option<usize>,
>)
    ensures
        r@.len() == formulas@.len(),
        forall|k: int|
            0 <= k < r@.len() ==> (match #[trigger] r@[k] {
                Some(j) => assignment(text::views(formulas@), catalog_views(catalog@), pages@)[k] == Some(
                    j as int,
                ),
                None => assignment(text::views(formulas@), catalog_views(catalog@), pages@)[k] is None,
            }),
{
    let ghost fv = text::views(formulas@);
    let ghost cv = catalog_views(catalog@);
    let mut trimmed: Vec<String> = Vec::new();
    let mut t: usize = 0;
    while t < catalog.len()
        invariant
            t <= catalog@.len(),
            cv == catalog_views(catalog@),
            trimmed@.len() == t,
            forall|q: int| 0 <= q < t ==> #[trigger] trimmed@[q]@ == text::trim(cv[q].0),
        decreases catalog@.len() - t,
    {
        trimmed.push(trim_str(catalog[t].0.as_str()));
        t += 1;
    }
    let mut used: Vec<bool> = Vec::new();
    let mut u: usize = 0;
    while u < catalog.len()
        invariant
            u <= catalog@.len(),
            used@.len() == u,
            forall|q: int| 0 <= q < u ==> !#[trigger] used@[q],
        decreases catalog@.len() - u,
    {
        used.push(false);
        u += 1;
    }
    let mut r: Vec<Option<usize>> = Vec::new();
    let ghost mut taken: Seq<Option<int>> = Seq::empty();
    let mut k: usize = 0;
    while k < formulas.len()
        invariant
            k <= formulas@.len(),
            fv == text::views(formulas@),
            cv == catalog_views(catalog@),
            cv.len() == catalog@.len(),
            trimmed@.len() == catalog@.len(),
            forall|q: int| 0 <= q < cv.len() ==> #[trigger] trimmed@[q]@ == text::trim(cv[q].0),
            used@.len() == catalog@.len(),
            taken == assignment(fv.take(k as int), cv, pages@),
            forall|q: int| 0 <= q < cv.len() ==> (#[trigger] used@[q] <==> taken.contains(Some(q))),
            r@.len() == k,
            taken.len() == k,
            forall|q: int|
                0 <= q < k ==> (match #[trigger] r@[q] {
                    Some(j) => taken[q] == Some(j as int),
                    None => taken[q] is None,
                }),
        decreases formulas@.len() - k,
    {
        let latex = trim_str(formulas[k].as_str());
        let mut j: usize = 0;
        let mut found: Option<usize> = None;
        while j < catalog.len()
            invariant_except_break
                found is None,
                first_fit(fv[k as int], cv, pages@, taken, 0) == first_fit(fv[k as int], cv, pages@, taken, j as int),
            invariant
                j <= catalog@.len(),
                cv == catalog_views(catalog@),
                cv.len() == catalog@.len(),
                trimmed@.len() == catalog@.len(),
                forall|q: int| 0 <= q < cv.len() ==> #[trigger] trimmed@[q]@ == text::trim(cv[q].0),
                used@.len() == catalog@.len(),
                forall|q: int| 0 <= q < cv.len() ==> (#[trigger] used@[q] <==> taken.contains(Some(q))),
                latex@ == text::trim(fv[k as int]),
                k < fv.len(),
            ensures
                match found {
                    Some(i) => first_fit(fv[k as int], cv, pages@, taken, 0) == Some(i as int) && i < cv.len(),
                    None => first_fit(fv[k as int], cv, pages@, taken, 0) is None,
                },
            decreases catalog@.len() - j,
        {
            assert(cv[j as int] == (catalog@[j as int].0@, catalog@[j as int].1));
            if !used[j] && str_eq(trimmed[j].as_str(), latex.as_str()) && (pages.len() == 0
                || contains_page(pages, catalog[j].1)) {
                assert(fits(fv[k as int], cv[j as int], pages@));
                found = Some(j);
                break;
            }
            j += 1;
        }
        proof {
            let latex_k = fv[k as int];
            assert(fv.take(k + 1).drop_last() =~= fv.take(k as int));
            assert(fv.take(k + 1).last() == latex_k);
        }
        let ghost choice = first_fit(fv[k as int], cv, pages@, taken, 0);
        match found {
            Some(j) => {
                used.set(j, true);
            },
            None => {},
        }
        proof {
            let old_taken = taken;
            taken = taken.push(choice);
            assert forall|q: int| 0 <= q < cv.len() implies (#[trigger] used@[q] <==> taken.contains(Some(q))) by {
                if taken.contains(Some(q)) && !old_taken.contains(Some(q)) {
                    let w = choose|w: int| 0 <= w < taken.len() && taken[w] == Some(q);
                    assert(w == old_taken.len());
                }
                if old_taken.contains(Some(q)) {
                    let w = choose|w: int| 0 <= w < old_taken.len() && old_taken[w] == Some(q);
                    assert(taken[w] == Some(q));
                }
                if choice == Some(q) {
                    assert(taken[old_taken.len() as int] == Some(q));
                }
            }
        }
        r.push(found);
        k += 1;
    }
    assert(fv.take(formulas@.len() as int) =~= fv);
    r
}

/// Whether `page` is one of `pages`.
fn contains_page(pages: &Vec<u32>, page: u32) -> (r: bool)
    ensures
        r == pages@.contains(page),
{
    let mut i: usize = 0;
    while i < pages.len()
        invariant
            i <= pages@.len(),
            forall|q: int| 0 <= q < i ==> pages@[q] != page,
        decreases pages@.len() - i,
    {
        if pages[i] == page {
            assert(pages@[i as int] == page);
            return true;
        }
        i += 1;
    }
    false
}

/// The weight left to the background: `255 - coverage`, saturating at zero.
pub open spec fn background_weight(coverage: u16) -> int {
    if coverage <= 255 {
        255 - coverage
    } else {
        0
    }
}

/// The weighted sum that `blend` divides by 255.
pub open spec fn blend_sum(background: u8, foreground: u8, coverage: u16) -> int {
    background * background_weight(coverage) + foreground * coverage
}

/// `coverage / 255` of the way from `background` to `foreground`, kept to
/// its low eight bits.
pub open spec fn blended(background: u8, foreground: u8, coverage: u16) -> int {
    (blend_sum(background, foreground, coverage) / 255) % 256
}

/// Composites ink of `coverage` (0 to 255) in `foreground` over `background`.
/// Above 255 the background gets no weight and the quotient is cut to a
/// byte; the weighted sum has to fit in a `u16`.
pub fn blend(background: u8, foreground: u8, coverage: u16) -> (c: u8)
    requires
        blend_sum(background, foreground, coverage) <= u16::MAX,
    ensures
        c == blended(background, foreground, coverage),
        coverage == 0 ==> c == background,
        coverage == 255 ==> c == foreground,
        coverage <= 255 && background <= foreground ==> background <= c <= foreground,
        coverage <= 255 && foreground <= background ==> foreground <= c <= background,
{
    let inverse: u16 = if coverage <= 255 { 255 - coverage } else { 0 };
    proof {
        let b = background as int;
        let f = foreground as int;
        let k = coverage as int;
        let w = inverse as int;
        assert(b * w >= 0 && f * k >= 0) by (nonlinear_arith)
            requires
                0 <= b, 0 <= f, 0 <= k, 0 <= w,
        ;
    }
    let sum: u16 = background as u16 * inverse + foreground as u16 * coverage;
    proof {
        let b = background as int;
        let f = foreground as int;
        let k = coverage as int;
        if k <= 255 {
            assert(b * (255 - k) + f * k <= 255 * 255) by (nonlinear_arith)
                requires
                    0 <= b <= 255,
                    0 <= f <= 255,
                    0 <= k <= 255,
            ;
            if k == 0 {
                assert(b * (255 - k) + f * k == b * 255) by (nonlinear_arith)
                    requires
                        k == 0,
                ;
                assert((b * 255) / 255 == b) by (nonlinear_arith);
            }
            if k == 255 {
                assert(b * (255 - k) + f * k == f * 255) by (nonlinear_arith)
                    requires
                        k == 255,
                ;
                assert((f * 255) / 255 == f) by (nonlinear_arith);
            }
            if b <= f {
                assert(255 * b <= b * (255 - k) + f * k <= 255 * f) by (nonlinear_arith)
                    requires
                        0 <= b <= f,
                        0 <= k <= 255,
                ;
            } else {
                assert(255 * f <= b * (255 - k) + f * k <= 255 * b) by (nonlinear_arith)
                    requires
                        0 <= f <= b,
                        0 <= k <= 255,
                ;
            }
        }
    }
    let quotient: u16 = sum / 255;
    if quotient > 255 {
        (quotient - 256) as u8
    } else {
        quotient as u8
    }
}

} // verus!
