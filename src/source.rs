//! Comic providers and the decisions of the fetch stage: which provider a
//! configuration tag names, which listed chapters still need work, where each
//! downloaded page is cached, and which chapters become delivery units.

use vstd::prelude::*;
use crate::context::{cache_name, path_join, Context};
use crate::layout::extension;

verus! {

/// A provider of comics that the fetch stage can ask.
#[derive(PartialEq, Eq, Structural, Clone, Copy, Debug)]
pub enum Source {
    Dmzj,
}

/// The configuration tag of the dmzj provider.
pub const DMZJ_TAG: &'static str = "dmzj";

/// The tag under which a provider is configured.
pub open spec fn tag_of(s: Source) -> Seq<char> {
    match s {
        Source::Dmzj => DMZJ_TAG@,
    }
}

impl Source {
    /// The tag under which this provider is configured and marked.
    pub fn tag(&self) -> (r: &'static str)
        ensures
            r@ == tag_of(*self),
    {
        match self {
            Source::Dmzj => DMZJ_TAG,
        }
    }
}

/// The provider configured under `tag`, if any; other tags are ignored.
pub fn find_source(tag: &str) -> (r: Option<Source>)
    ensures
        r == (if tag@ == DMZJ_TAG@ {
            Some(Source::Dmzj)
        } else {
            None::<Source>
        }),
{
    if String::from_str(tag) == String::from_str(DMZJ_TAG) {
        Some(Source::Dmzj)
    } else {
        None
    }
}

/// The address of a comic's description at the dmzj provider.
pub fn comic_info_url(id: &str) -> (r: String)
    ensures
        r@ == "https://api.dmzj.com//dynamic/comicinfo/"@ + id@ + ".json"@,
{
    crate::text::join3("https://api.dmzj.com//dynamic/comicinfo/", id, ".json")
}

/// The address of a chapter's page list at the dmzj provider.
pub fn chapter_info_url(comic_id: &str, chapter_id: &str) -> (r: String)
    ensures
        r@ == "https://m.dmzj.com/chapinfo/"@ + comic_id@ + "/"@ + chapter_id@ + ".html"@,
{
    let mut r = crate::text::join3("https://m.dmzj.com/chapinfo/", comic_id, "/");
    r.append(chapter_id);
    r.append(".html");
    r
}

/// A chapter as a provider lists it.
pub struct ComicInfoChapter {
    pub id: String,
    pub title: String,
}

/// A provider's current view of a comic: its title and its chapters.
pub struct ComicInfo {
    pub title: String,
    pub chapters: Vec<ComicInfoChapter>,
}

/// The page image addresses of one chapter, in reading order.
pub struct ChapterInfo {
    pub pages: Vec<String>,
}

/// One chapter ready for delivery.
pub struct Element {
    pub source_tag: String,
    pub comic_id: String,
    pub comic_name: String,
    pub chapter_id: String,
    pub chapter_name: String,
    /// Cached page images, in reading order; empty in learning mode.
    pub images: Vec<String>,
}

/// The chapters of `chapters` that carry no mark, in their listed order.
pub open spec fn unmarked(
    ctx: Context,
    tag: Seq<char>,
    comic: Seq<char>,
    chapters: Seq<ComicInfoChapter>,
) -> Seq<ComicInfoChapter>
    decreases chapters.len(),
{
    if chapters.len() == 0 {
        Seq::empty()
    } else {
        let rest = unmarked(ctx, tag, comic, chapters.drop_last());
        if ctx.marked(tag, comic, chapters.last().id@) {
            rest
        } else {
            rest.push(chapters.last())
        }
    }
}

/// The paths that were obtained, in order, skipping the pages that failed.
pub open spec fn obtained(results: Seq<Option<String>>) -> Seq<String>
    decreases results.len(),
{
    if results.len() == 0 {
        Seq::empty()
    } else {
        match results.last() {
            Some(p) => obtained(results.drop_last()).push(p),
            None => obtained(results.drop_last()),
        }
    }
}

fn copy_chapter(c: &ComicInfoChapter) -> (r: ComicInfoChapter)
    ensures
        r == *c,
{
    ComicInfoChapter { id: c.id.clone(), title: c.title.clone() }
}

/// The chapters of a comic that still need work: those without a mark, in
/// their listed order. Marked chapters are neither fetched nor delivered.
pub fn pending_chapters(
    ctx: &Context,
    tag: &str,
    comic_id: &str,
    chapters: &Vec<ComicInfoChapter>,
) -> (r: Vec<ComicInfoChapter>)
    ensures
        r@ == unmarked(*ctx, tag@, comic_id@, chapters@),
{
    let mut out: Vec<ComicInfoChapter> = Vec::new();
    let mut i: usize = 0;
    while i < chapters.len()
        invariant
            i <= chapters@.len(),
            out@ == unmarked(*ctx, tag@, comic_id@, chapters@.take(i as int)),
        decreases chapters@.len() - i,
    {
        assert(chapters@.take(i + 1).drop_last() =~= chapters@.take(i as int));
        assert(chapters@.take(i + 1).last() == chapters@[i as int]);
        if !ctx.is_marked(tag, comic_id, chapters[i].id.as_str()) {
            out.push(copy_chapter(&chapters[i]));
        }
        i = i + 1;
    }
    assert(chapters@.take(i as int) =~= chapters@);
    out
}

/// The cache path for page `index` of a chapter, whose address is `url`, or
/// `None` where the address has no extension to name the file by.
pub fn page_cache_path(
    ctx: &Context,
    tag: &str,
    comic_id: &str,
    chapter_id: &str,
    index: usize,
    url: &str,
) -> (r: Option<String>)
    ensures
        extension(url@) is None ==> r is None,
        extension(url@) is Some ==> r is Some && r->0@ == path_join(
            ctx.cache_path(),
            cache_name(tag@, comic_id@, chapter_id@, index as nat, extension(url@)->0),
        ),
{
    match crate::layout::extension_of(url) {
        None => None,
        Some(e) => Some(ctx.create_image_cache(tag, comic_id, chapter_id, index, e)),
    }
}

/// The pages of a chapter that were downloaded, in order: `results[i]` holds
/// the cache path of page `i`, or `None` where it failed.
pub fn downloaded_pages(results: &Vec<Option<String>>) -> (r: Vec<String>)
    ensures
        r@ == obtained(results@),
{
    let mut out: Vec<String> = Vec::new();
    let mut i: usize = 0;
    while i < results.len()
        invariant
            i <= results@.len(),
            out@ == obtained(results@.take(i as int)),
        decreases results@.len() - i,
    {
        assert(results@.take(i + 1).drop_last() =~= results@.take(i as int));
        assert(results@.take(i + 1).last() == results@[i as int]);
        match &results[i] {
            Some(p) => {
                out.push(p.clone());
            },
            None => {},
        }
        i = i + 1;
    }
    assert(results@.take(i as int) =~= results@);
    out
}

/// The delivery unit of a pending chapter. In learning mode it carries no
/// images and nothing is fetched; otherwise `pages` holds the downloaded
/// pages, or `None` where the chapter's page list could not be had, and then
/// the chapter is dropped from this run.
pub fn element_for(
    learn: bool,
    tag: &str,
    comic_id: &str,
    comic_name: &str,
    chapter: &ComicInfoChapter,
    pages: Option<Vec<String>>,
) -> (r: Option<Element>)
    ensures
        r is Some <==> (learn || pages is Some),
        r is Some ==> {
            let e = r->0;
            &&& e.source_tag@ == tag@
            &&& e.comic_id@ == comic_id@
            &&& e.comic_name@ == comic_name@
            &&& e.chapter_id@ == chapter.id@
            &&& e.chapter_name@ == chapter.title@
            &&& e.images@ == if learn {
                Seq::<String>::empty()
            } else {
                pages->0@
            }
        },
{
    let images = if learn {
        Vec::new()
    } else {
        match pages {
            Some(p) => p,
            None => {
                return None;
            },
        }
    };
    Some(
        Element {
            source_tag: String::from_str(tag),
            comic_id: String::from_str(comic_id),
            comic_name: String::from_str(comic_name),
            chapter_id: chapter.id.clone(),
            chapter_name: chapter.title.clone(),
            images,
        },
    )
}

/// A listed chapter that carries a mark is never pending: it is neither
/// fetched nor turned into a delivery unit. Every listed chapter without a
/// mark is pending.
pub proof fn lemma_marked_chapters_skipped(
    ctx: Context,
    tag: Seq<char>,
    comic: Seq<char>,
    chapters: Seq<ComicInfoChapter>,
)
    ensures
        forall|c: ComicInfoChapter| #[trigger]
            unmarked(ctx, tag, comic, chapters).contains(c) ==> chapters.contains(c) && !ctx.marked(
                tag,
                comic,
                c.id@,
            ),
        forall|c: ComicInfoChapter|
            chapters.contains(c) && !ctx.marked(tag, comic, c.id@) ==> #[trigger] unmarked(
                ctx,
                tag,
                comic,
                chapters,
            ).contains(c),
    decreases chapters.len(),
{
    if chapters.len() > 0 {
        let init = chapters.drop_last();
        lemma_marked_chapters_skipped(ctx, tag, comic, init);
        assert forall|c: ComicInfoChapter| #[trigger]
            unmarked(ctx, tag, comic, chapters).contains(c) implies chapters.contains(c)
            && !ctx.marked(tag, comic, c.id@) by {
            if unmarked(ctx, tag, comic, init).contains(c) {
                let k = choose|k: int| 0 <= k < init.len() && init[k] == c;
                assert(chapters[k] == c);
            } else {
                assert(chapters[chapters.len() - 1] == c);
            }
        }
        assert forall|c: ComicInfoChapter|
            chapters.contains(c) && !ctx.marked(tag, comic, c.id@) implies #[trigger] unmarked(
            ctx,
            tag,
            comic,
            chapters,
        ).contains(c) by {
            let k = choose|k: int| 0 <= k < chapters.len() && chapters[k] == c;
            let u = unmarked(ctx, tag, comic, init);
            if k < init.len() {
                assert(init[k] == c);
                assert(u.contains(c));
                let j = choose|j: int| 0 <= j < u.len() && u[j] == c;
                if !ctx.marked(tag, comic, chapters.last().id@) {
                    assert(u.push(chapters.last())[j] == c);
                }
            } else {
                assert(u.push(chapters.last())[u.len() as int] == c);
            }
        }
    }
}

/// In learning mode no chapter is fetched or delivered, yet once each pending
/// chapter has been marked, every chapter that the provider listed carries a
/// mark: `after` is the mark store with the marks of the pending chapters
/// added to those of `before`.
pub proof fn lemma_learning_marks_every_chapter(
    before: Context,
    after: Context,
    tag: Seq<char>,
    comic: Seq<char>,
    chapters: Seq<ComicInfoChapter>,
)
    requires
        forall|k: Seq<char>|
            #[trigger] after.has_mark(k) == (before.has_mark(k) || exists|c: ComicInfoChapter|
                #[trigger] unmarked(before, tag, comic, chapters).contains(c) && k
                    == crate::context::mark_key(tag, comic, c.id@)),
    ensures
        forall|c: ComicInfoChapter| #[trigger]
            chapters.contains(c) ==> after.marked(tag, comic, c.id@),
{
    lemma_marked_chapters_skipped(before, tag, comic, chapters);
    assert forall|c: ComicInfoChapter| #[trigger] chapters.contains(c) implies after.marked(
        tag,
        comic,
        c.id@,
    ) by {
        let k = crate::context::mark_key(tag, comic, c.id@);
        if !before.has_mark(k) {
            assert(unmarked(before, tag, comic, chapters).contains(c));
        }
        assert(after.has_mark(k));
    }
}

} // verus!
