//! The state that one run shares between its parts: the debug switch, the
//! cache and repository directories, the notification endpoint, and the mark
//! store that records which chapters have been delivered.

use vstd::prelude::*;
use crate::escape::{component_encoding, encode_component};
use crate::text::{
    decimal, escape, escape_part, join3, lemma_decimal_injective, lemma_decimal_plain,
    lemma_escape_has_no_separator, lemma_split_at_separator, lemma_unescape_escape,
};

verus! {

/// The icon shown with a push notification.
pub const ICON_URL: &'static str = "https://comik-icon.aoramd.moe/icon.png";

/// The application's display name, used as notification group and mail subject.
pub const APP_NAME_TITLEIZE: &'static str = "Comik";

/// The directory under the repository that holds the marker files.
pub const MARK_DIR: &'static str = "mark";

/// `name` appended to the directory path `base`, with one separator between
/// them where `base` is not empty and does not already end in one.
pub open spec fn path_join(base: Seq<char>, name: Seq<char>) -> Seq<char> {
    if base.len() == 0 || base.last() == '/' {
        base + name
    } else {
        base + seq!['/'] + name
    }
}

/// The name of the marker file of chapter `chapter` of comic `comic` of the
/// provider tagged `tag`: the three parts, each escaped, joined by `_`. Parts
/// without `%`, `_` or `/` appear as they are; in others those characters
/// are written `%25`, `%5F` and `%2F`, which keeps names of distinct chapters
/// distinct.
pub open spec fn mark_key(tag: Seq<char>, comic: Seq<char>, chapter: Seq<char>) -> Seq<char> {
    escape(tag) + seq!['_'] + escape(comic) + seq!['_'] + escape(chapter)
}

/// The file name of page `index` of a chapter, with extension `ext`.
pub open spec fn cache_name(
    tag: Seq<char>,
    comic: Seq<char>,
    chapter: Seq<char>,
    index: nat,
    ext: Seq<char>,
) -> Seq<char> {
    mark_key(tag, comic, chapter) + seq!['_'] + decimal(index) + seq!['.'] + escape(ext)
}

/// `a + b` holds `c` only where `a` or `b` does.
proof fn lemma_concat_lacks(a: Seq<char>, b: Seq<char>, c: char)
    requires
        !a.contains(c),
        !b.contains(c),
    ensures
        !(a + b).contains(c),
{
    assert forall|i: int| 0 <= i < (a + b).len() implies (a + b)[i] != c by {
        if i < a.len() {
            assert((a + b)[i] == a[i]);
        } else {
            assert((a + b)[i] == b[i - a.len()]);
        }
    }
}

/// Marker and cache file names hold no separator, so each names a file
/// directly inside its directory.
pub proof fn lemma_names_are_plain(
    tag: Seq<char>,
    comic: Seq<char>,
    chapter: Seq<char>,
    index: nat,
    ext: Seq<char>,
)
    ensures
        !mark_key(tag, comic, chapter).contains('/'),
        !cache_name(tag, comic, chapter, index, ext).contains('/'),
{
    let u = seq!['_'];
    let d = seq!['.'];
    lemma_escape_has_no_separator(tag);
    lemma_escape_has_no_separator(comic);
    lemma_escape_has_no_separator(chapter);
    lemma_escape_has_no_separator(ext);
    lemma_decimal_plain(index);
    assert(!u.contains('/')) by {
        assert(u[0] == '_');
    }
    assert(!d.contains('/')) by {
        assert(d[0] == '.');
    }
    lemma_concat_lacks(escape(tag), u, '/');
    lemma_concat_lacks(escape(tag) + u, escape(comic), '/');
    lemma_concat_lacks(escape(tag) + u + escape(comic), u, '/');
    lemma_concat_lacks(escape(tag) + u + escape(comic) + u, escape(chapter), '/');
    let k = mark_key(tag, comic, chapter);
    lemma_concat_lacks(k, u, '/');
    lemma_concat_lacks(k + u, decimal(index), '/');
    lemma_concat_lacks(k + u + decimal(index), d, '/');
    lemma_concat_lacks(k + u + decimal(index) + d, escape(ext), '/');
}

/// A name joined to a directory is recovered from the path.
pub proof fn lemma_path_join_injective(dir: Seq<char>, n1: Seq<char>, n2: Seq<char>)
    requires
        path_join(dir, n1) == path_join(dir, n2),
    ensures
        n1 == n2,
{
    let p = if dir.len() == 0 || dir.last() == '/' { dir } else { dir + seq!['/'] };
    assert(path_join(dir, n1) == p + n1);
    assert(path_join(dir, n2) == p + n2);
    assert(n1 =~= (p + n1).skip(p.len() as int));
    assert(n2 =~= (p + n2).skip(p.len() as int));
}

/// Distinct pages get distinct cache paths in one cache directory, each
/// directly inside it.
pub proof fn lemma_cache_paths_distinct(
    dir: Seq<char>,
    t1: Seq<char>,
    c1: Seq<char>,
    h1: Seq<char>,
    i1: nat,
    e1: Seq<char>,
    t2: Seq<char>,
    c2: Seq<char>,
    h2: Seq<char>,
    i2: nat,
    e2: Seq<char>,
)
    requires
        path_join(dir, cache_name(t1, c1, h1, i1, e1)) == path_join(dir, cache_name(t2, c2, h2, i2, e2)),
    ensures
        t1 == t2,
        c1 == c2,
        h1 == h2,
        i1 == i2,
        e1 == e2,
{
    lemma_path_join_injective(dir, cache_name(t1, c1, h1, i1, e1), cache_name(t2, c2, h2, i2, e2));
    lemma_cache_name_injective(t1, c1, h1, i1, e1, t2, c2, h2, i2, e2);
}

/// Distinct chapters get distinct marker paths in one mark directory, each
/// directly inside it.
pub proof fn lemma_marker_paths_distinct(
    dir: Seq<char>,
    t1: Seq<char>,
    c1: Seq<char>,
    h1: Seq<char>,
    t2: Seq<char>,
    c2: Seq<char>,
    h2: Seq<char>,
)
    requires
        path_join(dir, mark_key(t1, c1, h1)) == path_join(dir, mark_key(t2, c2, h2)),
    ensures
        t1 == t2,
        c1 == c2,
        h1 == h2,
{
    lemma_path_join_injective(dir, mark_key(t1, c1, h1), mark_key(t2, c2, h2));
    lemma_mark_key_injective(t1, c1, h1, t2, c2, h2);
}

/// Distinct chapters have distinct marker names.
pub proof fn lemma_mark_key_injective(
    t1: Seq<char>,
    c1: Seq<char>,
    h1: Seq<char>,
    t2: Seq<char>,
    c2: Seq<char>,
    h2: Seq<char>,
)
    requires
        mark_key(t1, c1, h1) == mark_key(t2, c2, h2),
    ensures
        t1 == t2,
        c1 == c2,
        h1 == h2,
{
    let u = seq!['_'];
    lemma_escape_has_no_separator(t1);
    lemma_escape_has_no_separator(t2);
    lemma_escape_has_no_separator(c1);
    lemma_escape_has_no_separator(c2);
    assert(mark_key(t1, c1, h1) =~= escape(t1) + u + (escape(c1) + u + escape(h1)));
    assert(mark_key(t2, c2, h2) =~= escape(t2) + u + (escape(c2) + u + escape(h2)));
    lemma_split_at_separator(
        escape(t1),
        escape(c1) + u + escape(h1),
        escape(t2),
        escape(c2) + u + escape(h2),
        '_',
    );
    lemma_split_at_separator(escape(c1), escape(h1), escape(c2), escape(h2), '_');
    lemma_unescape_escape(t1);
    lemma_unescape_escape(t2);
    lemma_unescape_escape(c1);
    lemma_unescape_escape(c2);
    lemma_unescape_escape(h1);
    lemma_unescape_escape(h2);
}

/// Distinct pages, of one chapter or of two, have distinct cache file names.
pub proof fn lemma_cache_name_injective(
    t1: Seq<char>,
    c1: Seq<char>,
    h1: Seq<char>,
    i1: nat,
    e1: Seq<char>,
    t2: Seq<char>,
    c2: Seq<char>,
    h2: Seq<char>,
    i2: nat,
    e2: Seq<char>,
)
    requires
        cache_name(t1, c1, h1, i1, e1) == cache_name(t2, c2, h2, i2, e2),
    ensures
        t1 == t2,
        c1 == c2,
        h1 == h2,
        i1 == i2,
        e1 == e2,
{
    let u = seq!['_'];
    let d = seq!['.'];
    lemma_escape_has_no_separator(t1);
    lemma_escape_has_no_separator(t2);
    lemma_escape_has_no_separator(c1);
    lemma_escape_has_no_separator(c2);
    lemma_escape_has_no_separator(h1);
    lemma_escape_has_no_separator(h2);
    lemma_decimal_plain(i1);
    lemma_decimal_plain(i2);
    let p1 = decimal(i1) + d + escape(e1);
    let p2 = decimal(i2) + d + escape(e2);
    let q1 = escape(h1) + u + p1;
    let q2 = escape(h2) + u + p2;
    let r1 = escape(c1) + u + q1;
    let r2 = escape(c2) + u + q2;
    assert(cache_name(t1, c1, h1, i1, e1) =~= escape(t1) + u + r1);
    assert(cache_name(t2, c2, h2, i2, e2) =~= escape(t2) + u + r2);
    lemma_split_at_separator(escape(t1), r1, escape(t2), r2, '_');
    lemma_split_at_separator(escape(c1), q1, escape(c2), q2, '_');
    lemma_split_at_separator(escape(h1), p1, escape(h2), p2, '_');
    lemma_split_at_separator(decimal(i1), escape(e1), decimal(i2), escape(e2), '.');
    lemma_decimal_injective(i1, i2);
    lemma_unescape_escape(t1);
    lemma_unescape_escape(t2);
    lemma_unescape_escape(c1);
    lemma_unescape_escape(c2);
    lemma_unescape_escape(h1);
    lemma_unescape_escape(h2);
    lemma_unescape_escape(e1);
    lemma_unescape_escape(e2);
}

/// The push notification address for a title and a content under the
/// endpoint `bark`: the endpoint, then `/` and each encoded part, whether or
/// not the endpoint already ends in `/`.
pub open spec fn notify_address(bark: Seq<char>, title: Seq<char>, content: Seq<char>) -> Seq<char> {
    bark + "/"@ + component_encoding(title) + "/"@ + component_encoding(content) + "?icon="@ + ICON_URL@ + "&group="@ + APP_NAME_TITLEIZE@
}

/// `name` appended to the directory path `base`.
pub fn join_path(base: &str, name: &str) -> (r: String)
    ensures
        r@ == path_join(base@, name@),
{
    proof {
        reveal_strlit("/");
        reveal_strlit("");
        assert(base@ + ""@ =~= base@);
        assert(seq!['/'] =~= "/"@);
    }
    let n = base.unicode_len();
    if n == 0 || base.get_char(n - 1) == '/' {
        join3(base, "", name)
    } else {
        join3(base, "/", name)
    }
}

/// The marker file name of a chapter.
pub fn mark_name(tag: &str, comic_id: &str, chapter_id: &str) -> (r: String)
    ensures
        r@ == mark_key(tag@, comic_id@, chapter_id@),
{
    proof {
        reveal_strlit("_");
        assert(seq!['_'] =~= "_"@);
    }
    let t = escape_part(tag);
    let c = escape_part(comic_id);
    let h = escape_part(chapter_id);
    let mut r = join3(t.as_str(), "_", c.as_str());
    r.append("_");
    r.append(h.as_str());
    r
}

pub struct Context {
    debug: bool,
    cache: String,
    repo: String,
    mark: String,
    bark: Option<String>,
    /// Names of the marker files that exist.
    marks: Vec<String>,
}

impl Context {
    /// Whether the mark store holds `key`.
    pub closed spec fn has_mark(&self, key: Seq<char>) -> bool {
        exists|i: int| 0 <= i < self.marks@.len() && #[trigger] self.marks@[i]@ == key
    }

    /// Whether debug output is on.
    pub closed spec fn debugging(&self) -> bool {
        self.debug
    }

    /// The directory of the image cache.
    pub closed spec fn cache_path(&self) -> Seq<char> {
        self.cache@
    }

    /// The directory that documents are written to.
    pub closed spec fn repo_path(&self) -> Seq<char> {
        self.repo@
    }

    /// The directory that holds the marker files.
    pub closed spec fn mark_path(&self) -> Seq<char> {
        self.mark@
    }

    /// The push notification endpoint, if one is configured.
    pub closed spec fn endpoint(&self) -> Option<Seq<char>> {
        match self.bark {
            Some(b) => Some(b@),
            None => None,
        }
    }

    /// Whether debug output is on.
    pub fn is_debug(&self) -> (r: bool)
        ensures
            r == self.debugging(),
    {
        self.debug
    }

    /// The directory of the image cache.
    pub fn cache_dir(&self) -> (r: &str)
        ensures
            r@ == self.cache_path(),
    {
        self.cache.as_str()
    }

    /// The directory that holds the marker files.
    pub fn mark_dir(&self) -> (r: &str)
        ensures
            r@ == self.mark_path(),
    {
        self.mark.as_str()
    }

    /// Whether the chapter has been delivered.
    pub open spec fn marked(&self, tag: Seq<char>, comic: Seq<char>, chapter: Seq<char>) -> bool {
        self.has_mark(mark_key(tag, comic, chapter))
    }

    /// A context with an empty mark store; the mark directory lies under the
    /// repository.
    pub fn new(debug: bool, cache: String, repo: String, bark: Option<String>) -> (r: Self)
        ensures
            r.debugging() == debug,
            r.cache_path() == cache@,
            r.repo_path() == repo@,
            r.mark_path() == path_join(repo@, MARK_DIR@),
            r.endpoint() == (match bark {
                Some(b) => Some(b@),
                None => None::<Seq<char>>,
            }),
            forall|k: Seq<char>| !#[trigger] r.has_mark(k),
    {
        let mark = join_path(repo.as_str(), MARK_DIR);
        Context { debug, cache, repo, mark, bark, marks: Vec::new() }
    }

    /// Takes `names` as the marker files that exist.
    pub fn load_marks(&mut self, names: Vec<String>)
        ensures
            final(self).debugging() == old(self).debugging(),
            final(self).cache_path() == old(self).cache_path(),
            final(self).repo_path() == old(self).repo_path(),
            final(self).mark_path() == old(self).mark_path(),
            final(self).endpoint() == old(self).endpoint(),
            forall|k: Seq<char>|
                #[trigger] final(self).has_mark(k) == exists|i: int|
                    0 <= i < names@.len() && names@[i]@ == k,
    {
        self.marks = names;
        assert forall|k: Seq<char>|
            #[trigger] self.has_mark(k) == exists|i: int| 0 <= i < names@.len() && names@[i]@ == k by {
            if exists|i: int| 0 <= i < names@.len() && names@[i]@ == k {
                let i = choose|i: int| 0 <= i < names@.len() && names@[i]@ == k;
                assert(self.marks@[i]@ == k);
            }
        }
    }

    /// Whether the mark store holds `key`.
    fn contains_mark(&self, key: &String) -> (r: bool)
        ensures
            r == self.has_mark(key@),
    {
        let mut i: usize = 0;
        while i < self.marks.len()
            invariant
                i <= self.marks@.len(),
                forall|k: int| 0 <= k < i ==> self.marks@[k]@ != key@,
            decreases self.marks@.len() - i,
        {
            if self.marks[i] == *key {
                return true;
            }
            i = i + 1;
        }
        false
    }

    /// Whether the chapter has a marker, that is, has been delivered.
    pub fn is_marked(&self, tag: &str, comic_id: &str, chapter_id: &str) -> (r: bool)
        ensures
            r == self.marked(tag@, comic_id@, chapter_id@),
    {
        let key = mark_name(tag, comic_id, chapter_id);
        self.contains_mark(&key)
    }

    /// Records the chapter as delivered and returns the path of its marker
    /// file. Marking a chapter twice adds nothing.
    pub fn mark(&mut self, tag: &str, comic_id: &str, chapter_id: &str) -> (path: String)
        ensures
            path@ == path_join(old(self).mark_path(), mark_key(tag@, comic_id@, chapter_id@)),
            old(self).mark_path().len() > 0 && old(self).mark_path().last() != '/' ==> path@
                == old(self).mark_path() + "/"@ + mark_key(tag@, comic_id@, chapter_id@),
            !mark_key(tag@, comic_id@, chapter_id@).contains('/'),
            final(self).debugging() == old(self).debugging(),
            final(self).cache_path() == old(self).cache_path(),
            final(self).repo_path() == old(self).repo_path(),
            final(self).mark_path() == old(self).mark_path(),
            final(self).endpoint() == old(self).endpoint(),
            forall|k: Seq<char>|
                #[trigger] final(self).has_mark(k) == (old(self).has_mark(k) || k == mark_key(
                    tag@,
                    comic_id@,
                    chapter_id@,
                )),
    {
        proof {
            reveal_strlit("/");
            assert(seq!['/'] =~= "/"@);
            lemma_names_are_plain(tag@, comic_id@, chapter_id@, 0, Seq::empty());
        }
        let key = mark_name(tag, comic_id, chapter_id);
        let path = join_path(self.mark.as_str(), key.as_str());
        if !self.contains_mark(&key) {
            let ghost prev = self.marks@;
            self.marks.push(key);
            proof {
                assert forall|k: Seq<char>|
                    #[trigger] self.has_mark(k) == (old(self).has_mark(k) || k == mark_key(
                        tag@,
                        comic_id@,
                        chapter_id@,
                    )) by {
                    if self.has_mark(k) {
                        let i = choose|i: int| 0 <= i < self.marks@.len() && #[trigger] self.marks@[i]@ == k;
                        if i < prev.len() {
                            assert(prev[i]@ == k);
                        }
                    }
                    if old(self).has_mark(k) {
                        let i = choose|i: int| 0 <= i < prev.len() && #[trigger] prev[i]@ == k;
                        assert(self.marks@[i]@ == k);
                    }
                    if k == mark_key(tag@, comic_id@, chapter_id@) {
                        assert(self.marks@[prev.len() as int]@ == k);
                    }
                }
            }
        }
        path
    }

    /// The path of the cache file for page `index` of a chapter, whose image
    /// has the extension `extension`.
    pub fn create_image_cache(
        &self,
        tag: &str,
        comic_id: &str,
        chapter_id: &str,
        index: usize,
        extension: &str,
    ) -> (r: String)
        ensures
            r@ == path_join(
                self.cache_path(),
                cache_name(tag@, comic_id@, chapter_id@, index as nat, extension@),
            ),
            self.cache_path().len() > 0 && self.cache_path().last() != '/' ==> r@
                == self.cache_path() + "/"@ + cache_name(
                tag@,
                comic_id@,
                chapter_id@,
                index as nat,
                extension@,
            ),
            !cache_name(tag@, comic_id@, chapter_id@, index as nat, extension@).contains('/'),
    {
        proof {
            reveal_strlit("_");
            reveal_strlit(".");
            assert(seq!['_'] =~= "_"@);
            assert(seq!['.'] =~= "."@);
            reveal_strlit("/");
            assert(seq!['/'] =~= "/"@);
            lemma_names_are_plain(tag@, comic_id@, chapter_id@, index as nat, extension@);
        }
        let mut name = mark_name(tag, comic_id, chapter_id);
        name.append("_");
        let digits = crate::text::decimal_string(index);
        name.append(digits.as_str());
        name.append(".");
        let ext = escape_part(extension);
        name.append(ext.as_str());
        join_path(self.cache.as_str(), name.as_str())
    }

    /// The directory that documents are written to.
    pub fn document_repo_path(&self) -> (r: &str)
        ensures
            r@ == self.repo_path(),
    {
        self.repo.as_str()
    }

    /// The address to request for a push notification, or `None` where no
    /// endpoint is configured.
    pub fn notify_url(&self, title: &str, content: &str) -> (r: Option<String>)
        ensures
            self.endpoint() is None ==> r is None,
            self.endpoint() is Some ==> r is Some && r->0@ == notify_address(
                self.endpoint()->0,
                title@,
                content@,
            ),
    {
        match &self.bark {
            None => None,
            Some(bark) => {
                let t = encode_component(title);
                let c = encode_component(content);
                let mut url = join3(bark.as_str(), "/", t.as_str());
                url.append("/");
                url.append(c.as_str());
                url.append("?icon=");
                url.append(ICON_URL);
                url.append("&group=");
                url.append(APP_NAME_TITLEIZE);
                Some(url)
            },
        }
    }
}

} // verus!
