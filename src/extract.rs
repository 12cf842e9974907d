//! Reading chapter lists and page lists out of the site's HTML.

use vstd::prelude::*;
use crate::chapters::{ChapterRef, views};

verus! {

/// Why a page's structure could not be read.
#[derive(Clone, Copy, Debug, PartialEq, Eq, Structural)]
pub enum ExtractError {
    /// A selector of this library did not parse.
    InvalidSelector,
    /// No element matched: the page does not have the expected shape.
    NotFound,
    /// The element at this position (in document order) lacks the attribute.
    MissingAttribute(usize),
}

/// Selector of the chapter links on an index page.
pub const CHAPTER_LINK_SELECTOR: &'static str = "a.chapter-name.text-nowrap";
/// Attribute of a chapter link that holds its target.
pub const CHAPTER_LINK_ATTR: &'static str = "href";
/// Selector of the container of a reader page's images.
pub const READER_SELECTOR: &'static str = "div.container-chapter-reader";
/// Selector of a page image inside the reader container.
pub const PAGE_IMAGE_SELECTOR: &'static str = "img";
/// Attribute of a page image that holds its lazily loaded source.
pub const PAGE_IMAGE_ATTR: &'static str = "data-src";

/// For each element of HTML document `doc` matched by CSS selector
/// `selector`, in document order: its inner HTML and its attribute `attr`.
/// `None` when the selector does not parse.
pub uninterp spec fn html_select(doc: Seq<char>, selector: Seq<char>, attr: Seq<char>) -> Option<
    Seq<(Seq<char>, Option<Seq<char>>)>,
>;

/// For each element of HTML document `doc` matched by CSS selector `outer`,
/// in document order: the attribute `attr` of each of its descendants matched
/// by `inner`, in document order. `None` when a selector does not parse.
pub uninterp spec fn html_select_within(
    doc: Seq<char>,
    outer: Seq<char>,
    inner: Seq<char>,
    attr: Seq<char>,
) -> Option<Seq<Seq<Option<Seq<char>>>>>;

/// `s` without leading and trailing white space.
pub uninterp spec fn trimmed(s: Seq<char>) -> Seq<char>;

/// Relies on `scraper::Html::parse_document`, `Selector::parse`,
/// `Html::select`, `ElementRef::inner_html` and `Element::attr`.
#[verifier::external_body]
fn select_elements(doc: &str, selector: &str, attr: &str) -> (r: Option<
    Vec<(String, Option<String>)>,
>)
    ensures
        match r {
            Some(v) => html_select(doc@, selector@, attr@) == Some(
                element_views(v@),
            ),
            None => html_select(doc@, selector@, attr@) is None,
        },
{
    let sel = scraper::Selector::parse(selector).ok()?;
    let html = scraper::Html::parse_document(doc);
    Some(html.select(&sel).map(|e| (e.inner_html(), e.value().attr(attr).map(String::from))).collect())
}

/// Relies on `scraper::Html::parse_document`, `Selector::parse`,
/// `Html::select`, `ElementRef::select` and `Element::attr`.
#[verifier::external_body]
fn select_within(doc: &str, outer: &str, inner: &str, attr: &str) -> (r: Option<
    Vec<Vec<Option<String>>>,
>)
    ensures
        match r {
            Some(v) => html_select_within(doc@, outer@, inner@, attr@) == Some(
                v@.map_values(|g: Vec<Option<String>>| opt_views(g@)),
            ),
            None => html_select_within(doc@, outer@, inner@, attr@) is None,
        },
{
    let outer_sel = scraper::Selector::parse(outer).ok()?;
    let inner_sel = scraper::Selector::parse(inner).ok()?;
    let html = scraper::Html::parse_document(doc);
    Some(html.select(&outer_sel).map(|o| o.select(&inner_sel).map(|e| e.value().attr(attr).map(String::from)).collect()).collect())
}

/// Relies on `str::trim`.
#[verifier::external_body]
fn trim(s: &str) -> (r: String)
    ensures
        r@ == trimmed(s@),
{
    s.trim().to_string()
}

pub open spec fn opt_view(o: Option<String>) -> Option<Seq<char>> {
    match o {
        Some(s) => Some(s@),
        None => None,
    }
}

pub open spec fn element_views(v: Seq<(String, Option<String>)>) -> Seq<(Seq<char>, Option<Seq<char>>)> {
    v.map_values(|e: (String, Option<String>)| (e.0@, opt_view(e.1)))
}

pub open spec fn attrs_of(els: Seq<(Seq<char>, Option<Seq<char>>)>) -> Seq<Option<Seq<char>>> {
    els.map_values(|e: (Seq<char>, Option<Seq<char>>)| e.1)
}

pub open spec fn opt_views(v: Seq<Option<String>>) -> Seq<Option<Seq<char>>> {
    v.map_values(|o: Option<String>| opt_view(o))
}

/// Position `k` is the first of `v` without a value.
pub open spec fn first_missing(v: Seq<Option<Seq<char>>>, k: int) -> bool {
    0 <= k < v.len() && v[k] is None && forall|q: int| 0 <= q < k ==> v[q] is Some
}

pub open spec fn all_present(v: Seq<Option<Seq<char>>>) -> bool {
    forall|q: int| 0 <= q < v.len() ==> v[q] is Some
}

/// The result that `chapter_links` owes for index page `doc`.
pub open spec fn chapter_list_of(doc: Seq<char>) -> Result<Seq<(Seq<char>, Seq<char>)>, ExtractError> {
    match html_select(doc, CHAPTER_LINK_SELECTOR@, CHAPTER_LINK_ATTR@) {
        None => Err(ExtractError::InvalidSelector),
        Some(els) => {
            let attrs = attrs_of(els);
            if els.len() == 0 {
                Err(ExtractError::NotFound)
            } else if all_present(attrs) {
                Ok(
                    els.map_values(
                        |e: (Seq<char>, Option<Seq<char>>)| (trimmed(e.0), e.1->Some_0),
                    ),
                )
            } else {
                Err(ExtractError::MissingAttribute((choose|k: int| first_missing(attrs, k)) as usize))
            }
        },
    }
}

/// The result that `page_links` owes for reader page `doc`.
pub open spec fn page_list_of(doc: Seq<char>) -> Result<Seq<Seq<char>>, ExtractError> {
    match html_select_within(doc, READER_SELECTOR@, PAGE_IMAGE_SELECTOR@, PAGE_IMAGE_ATTR@) {
        None => Err(ExtractError::InvalidSelector),
        Some(groups) => {
            if groups.len() == 0 {
                Err(ExtractError::NotFound)
            } else if all_present(groups[0]) {
                Ok(groups[0].map_values(|o: Option<Seq<char>>| o->Some_0))
            } else {
                Err(ExtractError::MissingAttribute((choose|k: int| first_missing(groups[0], k)) as usize))
            }
        },
    }
}

/// Finds the first absent value, if any.
fn find_missing(v: &Vec<Option<String>>) -> (r: Option<usize>)
    ensures
        match r {
            Some(k) => first_missing(opt_views(v@), k as int),
            None => all_present(opt_views(v@)),
        },
{
    let mut i: usize = 0;
    while i < v.len()
        invariant
            i <= v@.len(),
            forall|q: int| 0 <= q < i ==> #[trigger] v@[q] is Some,
        decreases v@.len() - i,
    {
        if v[i].is_none() {
            return Some(i);
        }
        i = i + 1;
    }
    None
}

proof fn lemma_first_missing_unique(v: Seq<Option<Seq<char>>>, k: int)
    requires
        first_missing(v, k),
    ensures
        (choose|j: int| first_missing(v, j)) == k,
{
    let j = choose|j: int| first_missing(v, j);
    assert(first_missing(v, j));
    if j < k {
        assert(v[j] is Some);
    } else if j > k {
        assert(v[k] is Some);
    }
}

/// Reads the chapter links of an index page, in document order: each
/// link's trimmed inner HTML as its name and its `href` as its link.
pub fn chapter_links(doc: &str) -> (r: Result<Vec<ChapterRef>, ExtractError>)
    ensures
        match r {
            Ok(v) => chapter_list_of(doc@) == Ok::<_, ExtractError>(views(v@)),
            Err(e) => chapter_list_of(doc@) == Err::<Seq<(Seq<char>, Seq<char>)>, _>(e),
        },
{
    let els = match select_elements(doc, CHAPTER_LINK_SELECTOR, CHAPTER_LINK_ATTR) {
        Some(els) => els,
        None => return Err(ExtractError::InvalidSelector),
    };
    let ghost sels = element_views(els@);
    let ghost attrs = attrs_of(sels);
    if els.len() == 0 {
        return Err(ExtractError::NotFound);
    }
    let n = els.len();
    let mut out: Vec<ChapterRef> = Vec::new();
    let mut i: usize = 0;
    while i < n
        invariant
            n == els@.len(),
            0 < n,
            i <= n,
            html_select(doc@, CHAPTER_LINK_SELECTOR@, CHAPTER_LINK_ATTR@) == Some(sels),
            sels == element_views(els@),
            attrs == attrs_of(sels),
            out@.len() == i,
            forall|q: int| 0 <= q < i ==> #[trigger] attrs[q] is Some,
            forall|q: int|
                0 <= q < i ==> #[trigger] out@[q]@ == (trimmed(sels[q].0), sels[q].1->Some_0),
        decreases n - i,
    {
        assert(attrs[i as int] == opt_view(els@[i as int].1));
        match &els[i].1 {
            Some(link) => {
                out.push(ChapterRef::new(trim(els[i].0.as_str()), link.clone()));
            },
            None => {
                proof {
                    assert(first_missing(attrs, i as int));
                    lemma_first_missing_unique(attrs, i as int);
                    assert(!all_present(attrs));
                    assert(attrs == attrs_of(sels));
                }
                return Err(ExtractError::MissingAttribute(i));
            },
        }
        i = i + 1;
    }
    assert(views(out@) =~= sels.map_values(
        |e: (Seq<char>, Option<Seq<char>>)| (trimmed(e.0), e.1->Some_0),
    ));
    Ok(out)
}

/// Reads the page image sources of a reader page: the `data-src` of each
/// image inside the first reader container, in document order.
pub fn page_links(doc: &str) -> (r: Result<Vec<String>, ExtractError>)
    ensures
        match r {
            Ok(v) => page_list_of(doc@) == Ok::<_, ExtractError>(v@.map_values(|s: String| s@)),
            Err(e) => page_list_of(doc@) == Err::<Seq<Seq<char>>, _>(e),
        },
{
    let groups = match select_within(doc, READER_SELECTOR, PAGE_IMAGE_SELECTOR, PAGE_IMAGE_ATTR) {
        Some(g) => g,
        None => return Err(ExtractError::InvalidSelector),
    };
    if groups.len() == 0 {
        return Err(ExtractError::NotFound);
    }
    let first = &groups[0];
    let ghost g = opt_views(first@);
    assert(g == groups@.map_values(|g: Vec<Option<String>>| opt_views(g@))[0]);
    match find_missing(first) {
        Some(k) => {
            proof {
                lemma_first_missing_unique(g, k as int);
            }
            return Err(ExtractError::MissingAttribute(k));
        },
        None => {},
    }
    let n = first.len();
    let mut out: Vec<String> = Vec::new();
    let mut i: usize = 0;
    while i < n
        invariant
            n == first@.len(),
            g == opt_views(first@),
            all_present(g),
            i <= n,
            out@.len() == i,
            forall|q: int| 0 <= q < i ==> #[trigger] out@[q]@ == g[q]->Some_0,
        decreases n - i,
    {
        assert(g[i as int] is Some);
        match &first[i] {
            Some(s) => out.push(s.clone()),
            None => {},
        }
        i = i + 1;
    }
    assert(out@.map_values(|s: String| s@) =~= g.map_values(|o: Option<Seq<char>>| o->Some_0));
    Ok(out)
}

} // verus!
