//! Chapter references: recognising chapters, keying them by number and
//! putting them in reading order.

use vstd::prelude::*;
use crate::order::{ChapterKey, decimal_key, is_stable_order, parse_chapter_number, positions, stable_order};
use crate::text::{contains_str, has_substring};

verus! {

/// A chapter as listed on a publication's index page.
#[derive(Debug)]
pub struct ChapterRef {
    /// The trimmed visible text of the chapter's link.
    pub name: String,
    /// The link to the chapter's reader page, relative to the site.
    pub link: String,
}

impl View for ChapterRef {
    type V = (Seq<char>, Seq<char>);

    open spec fn view(&self) -> (Seq<char>, Seq<char>) {
        (self.name@, self.link@)
    }
}

impl ChapterRef {
    pub fn new(name: String, link: String) -> (r: ChapterRef)
        ensures
            r@ == (name@, link@),
    {
        ChapterRef { name, link }
    }

    /// A copy with the same name and link.
    pub fn duplicate(&self) -> (r: ChapterRef)
        ensures
            r@ == self@,
    {
        ChapterRef { name: self.name.clone(), link: self.link.clone() }
    }
}

pub open spec fn views(cs: Seq<ChapterRef>) -> Seq<(Seq<char>, Seq<char>)> {
    cs.map_values(|c: ChapterRef| c@)
}

/// The pattern whose first group is a chapter's number.
pub const CHAPTER_PATTERN: &'static str = "Chapter (\\d+(?:\\.\\d+)?)";

/// The word that marks an index entry as a chapter.
pub const CHAPTER_WORD: &'static str = "Chapter";

/// Capture group `group` of the leftmost match of regular expression
/// `pattern` in `haystack`.
pub uninterp spec fn regex_capture(pattern: Seq<char>, haystack: Seq<char>, group: nat) -> Option<
    Seq<char>,
>;

/// Relies on `regex::Regex::new` and `Regex::captures`: the text of group
/// `group` of the leftmost-first match of `pattern` in `haystack`; `None` when
/// the pattern does not compile, nothing matches, or the group took no part.
#[verifier::external_body]
fn capture_group(pattern: &str, haystack: &str, group: usize) -> (r: Option<String>)
    ensures
        match r {
            Some(c) => regex_capture(pattern@, haystack@, group as nat) == Some(c@),
            None => regex_capture(pattern@, haystack@, group as nat) is None,
        },
{
    regex::Regex::new(pattern).ok()?.captures(haystack)?.get(group).map(|m| m.as_str().to_string())
}

/// The sort key of a chapter name: the number after the first "Chapter "
/// in it, or `None` (sorting last) where there is none or it does not parse.
pub open spec fn name_key(name: Seq<char>) -> ChapterKey {
    match regex_capture(CHAPTER_PATTERN@, name, 1) {
        Some(n) => decimal_key(n),
        None => None,
    }
}

pub open spec fn keys_of(cs: Seq<(Seq<char>, Seq<char>)>) -> Seq<ChapterKey> {
    cs.map_values(|c: (Seq<char>, Seq<char>)| name_key(c.0))
}

/// The sort key of a chapter name.
pub fn chapter_key(name: &str) -> (r: ChapterKey)
    ensures
        r == name_key(name@),
{
    match capture_group(CHAPTER_PATTERN, name, 1) {
        Some(n) => parse_chapter_number(n.as_str()),
        None => None,
    }
}

/// `out` is `input` stably sorted by chapter key.
pub open spec fn stably_sorted(
    input: Seq<(Seq<char>, Seq<char>)>,
    out: Seq<(Seq<char>, Seq<char>)>,
) -> bool {
    exists|p: Seq<int>|
        is_stable_order(keys_of(input), p) && out.len() == p.len() && forall|k: int|
            0 <= k < out.len() ==> #[trigger] out[k] == input[p[k]]
}

/// Sorts chapters by their number, stably, with unnumbered ones last.
pub fn sort_chapters(chapters: Vec<ChapterRef>) -> (r: Vec<ChapterRef>)
    ensures
        stably_sorted(views(chapters@), views(r@)),
{
    let n = chapters.len();
    let mut keys: Vec<ChapterKey> = Vec::new();
    let mut i: usize = 0;
    while i < n
        invariant
            n == chapters@.len(),
            i <= n,
            keys@.len() == i,
            forall|k: int| 0 <= k < i ==> #[trigger] keys@[k] == name_key(chapters@[k].name@),
        decreases n - i,
    {
        keys.push(chapter_key(chapters[i].name.as_str()));
        i = i + 1;
    }
    let idx = stable_order(&keys);
    let ghost p = positions(idx@);
    assert(keys@ =~= keys_of(views(chapters@)));
    let mut r: Vec<ChapterRef> = Vec::new();
    let mut k: usize = 0;
    while k < n
        invariant
            n == chapters@.len(),
            idx@.len() == n,
            p == positions(idx@),
            is_stable_order(keys_of(views(chapters@)), p),
            k <= n,
            r@.len() == k,
            forall|q: int| 0 <= q < k ==> #[trigger] r@[q]@ == chapters@[p[q]]@,
        decreases n - k,
    {
        assert(p[k as int] == idx@[k as int] as int);
        r.push(chapters[idx[k]].duplicate());
        k = k + 1;
    }
    assert(stably_sorted(views(chapters@), views(r@))) by {
        assert forall|q: int| 0 <= q < views(r@).len() implies #[trigger] views(r@)[q] == views(
            chapters@,
        )[p[q]] by {
            assert(r@[q]@ == chapters@[p[q]]@);
        }
    }
    r
}

/// The entries of `cs` whose name contains "Chapter", in their order.
pub open spec fn chapters_only(cs: Seq<(Seq<char>, Seq<char>)>) -> Seq<(Seq<char>, Seq<char>)>
    decreases cs.len(),
{
    if cs.len() == 0 {
        cs
    } else if has_substring(cs.last().0, CHAPTER_WORD@) {
        chapters_only(cs.drop_last()).push(cs.last())
    } else {
        chapters_only(cs.drop_last())
    }
}

/// Keeps the entries whose name contains "Chapter", in their order.
pub fn filter_chapters(entries: Vec<ChapterRef>) -> (r: Vec<ChapterRef>)
    ensures
        views(r@) == chapters_only(views(entries@)),
{
    let n = entries.len();
    let mut r: Vec<ChapterRef> = Vec::new();
    let mut i: usize = 0;
    while i < n
        invariant
            n == entries@.len(),
            i <= n,
            views(r@) == chapters_only(views(entries@).subrange(0, i as int)),
        decreases n - i,
    {
        let ghost s = views(entries@).subrange(0, i as int + 1);
        assert(s.drop_last() =~= views(entries@).subrange(0, i as int));
        assert(s.last() == entries@[i as int]@);
        if contains_str(entries[i].name.as_str(), CHAPTER_WORD) {
            r.push(entries[i].duplicate());
            assert(views(r@) =~= chapters_only(s));
        }
        i = i + 1;
    }
    assert(views(entries@).subrange(0, n as int) =~= views(entries@));
    r
}

proof fn lemma_chapters_only_marked(cs: Seq<(Seq<char>, Seq<char>)>)
    ensures
        forall|k: int|
            0 <= k < chapters_only(cs).len() ==> has_substring(
                #[trigger] chapters_only(cs)[k].0,
                CHAPTER_WORD@,
            ),
    decreases cs.len(),
{
    if cs.len() > 0 {
        let rest = cs.drop_last();
        lemma_chapters_only_marked(rest);
        let kept = chapters_only(cs);
        assert forall|k: int| 0 <= k < kept.len() implies has_substring(
            #[trigger] kept[k].0,
            CHAPTER_WORD@,
        ) by {
            if has_substring(cs.last().0, CHAPTER_WORD@) {
                if k < chapters_only(rest).len() {
                    assert(kept[k] == chapters_only(rest)[k]);
                }
            }
        }
    }
}

/// Only chapters are ever ordered: every entry of the stably sorted
/// chapter list of an index names a chapter, whatever the index held.
pub proof fn lemma_sorted_entries_are_chapters(
    entries: Seq<(Seq<char>, Seq<char>)>,
    sorted: Seq<(Seq<char>, Seq<char>)>,
)
    requires
        stably_sorted(chapters_only(entries), sorted),
    ensures
        forall|k: int| 0 <= k < sorted.len() ==> has_substring(#[trigger] sorted[k].0, CHAPTER_WORD@),
{
    let kept = chapters_only(entries);
    lemma_chapters_only_marked(entries);
    let p = choose|p: Seq<int>|
        is_stable_order(keys_of(kept), p) && sorted.len() == p.len() && forall|k: int|
            0 <= k < sorted.len() ==> #[trigger] sorted[k] == kept[p[k]];
    assert forall|k: int| 0 <= k < sorted.len() implies has_substring(
        #[trigger] sorted[k].0,
        CHAPTER_WORD@,
    ) by {
        assert(sorted[k] == kept[p[k]]);
        assert(0 <= p[k] < keys_of(kept).len());
    }
}

/// The chapters of an index in reading order: the entries whose name
/// contains "Chapter", stably sorted by chapter number, unnumbered last.
pub fn prepare_chapters(entries: Vec<ChapterRef>) -> (r: Vec<ChapterRef>)
    ensures
        stably_sorted(chapters_only(views(entries@)), views(r@)),
        forall|k: int| 0 <= k < r@.len() ==> has_substring(#[trigger] r@[k].name@, CHAPTER_WORD@),
{
    let kept = filter_chapters(entries);
    let r = sort_chapters(kept);
    proof {
        lemma_sorted_entries_are_chapters(views(entries@), views(r@));
        assert forall|k: int| 0 <= k < r@.len() implies has_substring(
            #[trigger] r@[k].name@,
            CHAPTER_WORD@,
        ) by {
            assert(views(r@)[k].0 == r@[k].name@);
        }
    }
    r
}

} // verus!
