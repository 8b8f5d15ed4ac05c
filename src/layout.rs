//! Placement of page images on fixed-size document pages: which raster
//! formats are read, how an image is scaled and centred, and when a new page
//! is started.
//!
//! Lengths are exact fractions. The page is 148 mm by 210 mm; an image of
//! `w` by `h` pixels measures `w * 127 / 1500` by `h * 127 / 1500` mm at
//! 300 dots per inch. The user's scale is given in thousandths.

use vstd::prelude::*;

verus! {

/// Page width in millimetres.
pub const PAGE_WIDTH_MM: u64 = 148;

/// Page height in millimetres.
pub const PAGE_HEIGHT_MM: u64 = 210;

/// The denominator of the user's scale.
pub const SCALE_UNIT: u64 = 1000;

/// Millimetres per pixel at 300 dots per inch, as `MM_PER_PX_NUM / MM_PER_PX_DEN`.
pub const MM_PER_PX_NUM: u64 = 127;

pub const MM_PER_PX_DEN: u64 = 1500;

/// The raster formats that a page image may have.
#[derive(PartialEq, Eq, Structural, Clone, Copy, Debug)]
pub enum ImageFormat {
    Png,
    Jpeg,
}

/// Position one past the last occurrence of `c` in `s`, or 0 where `c` does
/// not occur.
pub open spec fn after_last(s: Seq<char>, c: char) -> nat
    decreases s.len(),
{
    if s.len() == 0 {
        0
    } else if s.last() == c {
        s.len()
    } else {
        after_last(s.drop_last(), c)
    }
}

/// `s` without its trailing separators.
pub open spec fn trim_separators(s: Seq<char>) -> Seq<char>
    decreases s.len(),
{
    if s.len() > 0 && s.last() == '/' {
        trim_separators(s.drop_last())
    } else {
        s
    }
}

/// The last component of the path `s`, after trailing separators. Unlike
/// `std::path::Path`, a final `.` component is not skipped but taken as the
/// component: page addresses are URLs, in which a `.` segment is part of the
/// address rather than a reference to the directory, so `x/b.png/.` does not
/// name a png image.
pub open spec fn file_name(s: Seq<char>) -> Seq<char> {
    let t = trim_separators(s);
    t.skip(after_last(t, '/') as int)
}

/// The extension of the path `s`: what follows the last dot of its last
/// component, where that dot is not the component's first character.
pub open spec fn extension(s: Seq<char>) -> Option<Seq<char>> {
    let f = file_name(s);
    let d = after_last(f, '.');
    if f == ".."@ || d <= 1 {
        None
    } else {
        Some(f.skip(d as int))
    }
}

/// The format that a page image with the path `s` is read as.
pub open spec fn format_of(s: Seq<char>) -> Option<ImageFormat> {
    match extension(s) {
        Some(e) => if e == "png"@ {
            Some(ImageFormat::Png)
        } else if e == "jpg"@ || e == "jpeg"@ {
            Some(ImageFormat::Jpeg)
        } else {
            None
        },
        None => None,
    }
}

fn after_last_exec(s: &str, n: usize, c: char) -> (r: usize)
    requires
        n <= s@.len(),
    ensures
        r == after_last(s@.take(n as int), c),
        r <= n,
{
    let mut k: usize = n;
    while k > 0
        invariant
            k <= n <= s@.len(),
            after_last(s@.take(k as int), c) == after_last(s@.take(n as int), c),
        decreases k,
    {
        let ghost t = s@.take(k as int);
        assert(t.drop_last() =~= s@.take(k - 1));
        if s.get_char(k - 1) == c {
            return k;
        }
        k = k - 1;
    }
    0
}

/// Character equality of two strings.
fn same_text(a: &str, b: &str) -> (r: bool)
    ensures
        r == (a@ == b@),
{
    let n = a.unicode_len();
    if n != b.unicode_len() {
        return false;
    }
    let mut i: usize = 0;
    while i < n
        invariant
            i <= n,
            n == a@.len(),
            n == b@.len(),
            forall|k: int| 0 <= k < i ==> a@[k] == b@[k],
        decreases n - i,
    {
        if a.get_char(i) != b.get_char(i) {
            return false;
        }
        i = i + 1;
    }
    assert(a@ =~= b@);
    true
}

/// The extension of the path `path`: what follows the last dot of its last
/// component (see `file_name`), where that dot is not the first character.
pub fn extension_of(path: &str) -> (r: Option<&str>)
    ensures
        r is None <==> extension(path@) is None,
        r is Some ==> extension(path@) == Some(r->0@),
{
    let len = path.unicode_len();
    let mut t: usize = len;
    assert(path@.take(len as int) =~= path@);
    while t > 0 && path.get_char(t - 1) == '/'
        invariant
            t <= len == path@.len(),
            trim_separators(path@.take(t as int)) == trim_separators(path@),
        decreases t,
    {
        assert(path@.take(t as int).drop_last() =~= path@.take(t - 1));
        t = t - 1;
    }
    assert(path@.take(len as int) =~= path@);
    let ghost tt = path@.take(t as int);
    assert(trim_separators(tt) == tt);
    let start = after_last_exec(path, t, '/');
    let name = path.substring_char(start, t);
    assert(name@ =~= file_name(path@));
    let nl = name.unicode_len();
    let dot = after_last_exec(name, nl, '.');
    assert(name@.take(nl as int) =~= name@);
    proof {
        reveal_strlit("..");
    }
    if same_text(name, "..") || dot <= 1 {
        None
    } else {
        let e = name.substring_char(dot, nl);
        assert(e@ =~= name@.skip(dot as int));
        Some(e)
    }
}

/// The format that a page image with the path `path` is read as, or `None`
/// where its extension is not one of the supported ones.
pub fn image_format(path: &str) -> (r: Option<ImageFormat>)
    ensures
        r == format_of(path@),
{
    match extension_of(path) {
        None => None,
        Some(e) => {
            if same_text(e, "png") {
                Some(ImageFormat::Png)
            } else if same_text(e, "jpg") || same_text(e, "jpeg") {
                Some(ImageFormat::Jpeg)
            } else {
                None
            }
        },
    }
}

/// Where an image goes on its page. The image is drawn at its 300 dpi size
/// multiplied by `scale_num / scale_den`, with its lower left corner at
/// (`translate_x_num / translate_den`, `translate_y_num / translate_den`) mm.
#[derive(PartialEq, Eq, Structural, Clone, Copy, Debug)]
pub struct Placement {
    pub scale_num: u64,
    pub scale_den: u64,
    pub translate_x_num: u64,
    pub translate_y_num: u64,
    pub translate_den: u64,
}

/// Whether the page width, rather than its height, limits an image of
/// `w` by `h` pixels: `148 / w_mm < 210 / h_mm`.
pub open spec fn width_limited(w: int, h: int) -> bool {
    PAGE_WIDTH_MM * h < PAGE_HEIGHT_MM * w
}

/// The scale factor `min(148 / w_mm, 210 / h_mm) * s`, as a numerator and a
/// denominator, for a scale of `sp` thousandths.
pub open spec fn scale_factor(w: int, h: int, sp: int) -> (int, int) {
    if width_limited(w, h) {
        (PAGE_WIDTH_MM * MM_PER_PX_DEN * sp, MM_PER_PX_NUM * w * SCALE_UNIT)
    } else {
        (PAGE_HEIGHT_MM * MM_PER_PX_DEN * sp, MM_PER_PX_NUM * h * SCALE_UNIT)
    }
}

/// `p` places an image of `w` by `h` pixels, scaled by `sp` thousandths, as
/// the layout rule asks: scaled by `f = scale_factor(w, h, sp)` and centred,
/// `2 * x == 148 - w_mm * f` and `2 * y == 210 - h_mm * f`, each equation
/// multiplied out by its denominators.
pub open spec fn placement_law(w: int, h: int, sp: int, p: Placement) -> bool {
    let (fnum, fden) = scale_factor(w, h, sp);
    &&& p.scale_den > 0
    &&& p.translate_den > 0
    &&& p.scale_num * fden == fnum * p.scale_den
    &&& 2 * p.translate_x_num * MM_PER_PX_DEN * fden == (PAGE_WIDTH_MM * MM_PER_PX_DEN * fden
        - MM_PER_PX_NUM * w * fnum) * p.translate_den
    &&& 2 * p.translate_y_num * MM_PER_PX_DEN * fden == (PAGE_HEIGHT_MM * MM_PER_PX_DEN * fden
        - MM_PER_PX_NUM * h * fnum) * p.translate_den
}

/// Scales an image of `width` by `height` pixels to fit the page, times the
/// user's scale of `scale` thousandths, and centres it.
pub fn place_image(width: u32, height: u32, scale: u64) -> (r: Placement)
    requires
        width > 0,
        height > 0,
        scale <= SCALE_UNIT,
    ensures
        placement_law(width as int, height as int, scale as int, r),
{
    let w = width as u64;
    let h = height as u64;
    let ghost (fnum, fden) = scale_factor(w as int, h as int, scale as int);
    assert(PAGE_HEIGHT_MM * SCALE_UNIT * w <= 210000 * 0xffff_ffff) by (nonlinear_arith)
        requires
            w <= 0xffff_ffff,
    ;
    assert(PAGE_HEIGHT_MM * SCALE_UNIT * h <= 210000 * 0xffff_ffff) by (nonlinear_arith)
        requires
            h <= 0xffff_ffff,
    ;
    assert(0 < 2 * SCALE_UNIT * w <= 2000 * 0xffff_ffff) by (nonlinear_arith)
        requires
            0 < w <= 0xffff_ffff,
    ;
    assert(0 < 2 * SCALE_UNIT * h <= 2000 * 0xffff_ffff) by (nonlinear_arith)
        requires
            0 < h <= 0xffff_ffff,
    ;
    assert(0 < MM_PER_PX_NUM * w * SCALE_UNIT <= 127000 * 0xffff_ffff) by (nonlinear_arith)
        requires
            0 < w <= 0xffff_ffff,
    ;
    assert(0 < MM_PER_PX_NUM * h * SCALE_UNIT <= 127000 * 0xffff_ffff) by (nonlinear_arith)
        requires
            0 < h <= 0xffff_ffff,
    ;
    if PAGE_WIDTH_MM * h < PAGE_HEIGHT_MM * w {
        let scale_num = PAGE_WIDTH_MM * MM_PER_PX_DEN * scale;
        let scale_den = MM_PER_PX_NUM * w * SCALE_UNIT;
        assert(PAGE_WIDTH_MM * (SCALE_UNIT - scale) * w <= 148000 * 0xffff_ffff) by (nonlinear_arith)
            requires
                scale <= 1000,
                w <= 0xffff_ffff,
        ;
        let translate_x_num = PAGE_WIDTH_MM * (SCALE_UNIT - scale) * w;
        assert(PAGE_WIDTH_MM * h * scale <= PAGE_WIDTH_MM * h * SCALE_UNIT) by (nonlinear_arith)
            requires
                scale <= SCALE_UNIT,
        ;
        assert(PAGE_WIDTH_MM * h * SCALE_UNIT <= PAGE_HEIGHT_MM * w * SCALE_UNIT) by (nonlinear_arith)
            requires
                PAGE_WIDTH_MM * h < PAGE_HEIGHT_MM * w,
        ;
        let translate_y_num = PAGE_HEIGHT_MM * SCALE_UNIT * w - PAGE_WIDTH_MM * h * scale;
        let translate_den = 2 * SCALE_UNIT * w;
        let r = Placement { scale_num, scale_den, translate_x_num, translate_y_num, translate_den };
        assert(fnum == scale_num && fden == scale_den);
        assert(2 * r.translate_x_num * 1500 * fden == (148 * 1500 * fden - 127 * w * fnum)
            * r.translate_den) by (nonlinear_arith)
            requires
                fnum == 148 * 1500 * scale,
                fden == 127 * w * 1000,
                r.translate_x_num == 148 * (1000 - scale) * w,
                r.translate_den == 2 * 1000 * w,
        ;
        assert(2 * r.translate_y_num * 1500 * fden == (210 * 1500 * fden - 127 * h * fnum)
            * r.translate_den) by (nonlinear_arith)
            requires
                fnum == 148 * 1500 * scale,
                fden == 127 * w * 1000,
                r.translate_y_num == 210 * 1000 * w - 148 * h * scale,
                r.translate_den == 2 * 1000 * w,
        ;
        r
    } else {
        let scale_num = PAGE_HEIGHT_MM * MM_PER_PX_DEN * scale;
        let scale_den = MM_PER_PX_NUM * h * SCALE_UNIT;
        assert(PAGE_HEIGHT_MM * w * scale <= PAGE_HEIGHT_MM * w * SCALE_UNIT) by (nonlinear_arith)
            requires
                scale <= SCALE_UNIT,
        ;
        assert(PAGE_HEIGHT_MM * w * SCALE_UNIT <= PAGE_WIDTH_MM * h * SCALE_UNIT) by (nonlinear_arith)
            requires
                PAGE_HEIGHT_MM * w <= PAGE_WIDTH_MM * h,
        ;
        assert(PAGE_WIDTH_MM * SCALE_UNIT * h <= 148000 * 0xffff_ffff) by (nonlinear_arith)
            requires
                h <= 0xffff_ffff,
        ;
        assert(PAGE_HEIGHT_MM * (SCALE_UNIT - scale) * h <= 210000 * 0xffff_ffff) by (nonlinear_arith)
            requires
                scale <= 1000,
                h <= 0xffff_ffff,
        ;
        let translate_x_num = PAGE_WIDTH_MM * SCALE_UNIT * h - PAGE_HEIGHT_MM * w * scale;
        let translate_y_num = PAGE_HEIGHT_MM * (SCALE_UNIT - scale) * h;
        let translate_den = 2 * SCALE_UNIT * h;
        let r = Placement { scale_num, scale_den, translate_x_num, translate_y_num, translate_den };
        assert(fnum == scale_num && fden == scale_den);
        assert(2 * r.translate_x_num * 1500 * fden == (148 * 1500 * fden - 127 * w * fnum)
            * r.translate_den) by (nonlinear_arith)
            requires
                fnum == 210 * 1500 * scale,
                fden == 127 * h * 1000,
                r.translate_x_num == 148 * 1000 * h - 210 * w * scale,
                r.translate_den == 2 * 1000 * h,
        ;
        assert(2 * r.translate_y_num * 1500 * fden == (210 * 1500 * fden - 127 * h * fnum)
            * r.translate_den) by (nonlinear_arith)
            requires
                fnum == 210 * 1500 * scale,
                fden == 127 * h * 1000,
                r.translate_y_num == 210 * (1000 - scale) * h,
                r.translate_den == 2 * 1000 * h,
        ;
        r
    }
}

/// Whether a new page follows image `index` of `count`: after every image
/// but the last.
pub open spec fn page_follows(index: int, count: int) -> bool {
    index + 1 < count
}

/// The number of pages open once the first `k` of `count` images are placed:
/// the document starts with one page and gains one after each image that a
/// page follows.
pub open spec fn pages_after(k: nat, count: nat) -> nat
    decreases k,
{
    if k == 0 {
        1
    } else if page_follows(k - 1, count as int) {
        pages_after((k - 1) as nat, count) + 1
    } else {
        pages_after((k - 1) as nat, count)
    }
}

/// Whether a new page is to be added after image `index` of `count`.
pub fn adds_page_after(index: usize, count: usize) -> (r: bool)
    ensures
        r == page_follows(index as int, count as int),
{
    index < count && count - index > 1
}

/// A chapter of `count` images, one or more, gives a document of `count`
/// pages; image `i` is placed on page `i` (from zero), the last page open
/// when it is placed, so no page stays blank.
pub proof fn lemma_one_page_per_image(count: nat)
    requires
        count >= 1,
    ensures
        pages_after(count, count) == count,
        forall|i: nat| i < count ==> #[trigger] pages_after(i, count) == i + 1,
{
    assert forall|i: nat| i < count implies #[trigger] pages_after(i, count) == i + 1 by {
        lemma_pages_before(i, count);
    }
    lemma_pages_before((count - 1) as nat, count);
}

proof fn lemma_pages_before(i: nat, count: nat)
    requires
        i < count,
    ensures
        pages_after(i, count) == i + 1,
        pages_after(i + 1, count) == if i + 1 < count { i + 2 } else { i + 1 },
    decreases i,
{
    if i > 0 {
        lemma_pages_before((i - 1) as nat, count);
    }
}

/// The formats of a chapter's page images, in order, or `None` where the
/// chapter has no image or any of them is not supported: then no document is
/// made for the chapter. A document of no image would be one blank page, so
/// such a chapter is refused; it stays unmarked and is tried again on the
/// next run.
pub fn chapter_formats(images: &Vec<String>) -> (r: Option<Vec<ImageFormat>>)
    ensures
        r is None <==> (images@.len() == 0 || exists|i: int|
            0 <= i < images@.len() && #[trigger] format_of(images@[i]@) is None),
        r is Some ==> r->0@.len() == images@.len() && forall|i: int|
            0 <= i < images@.len() ==> Some(#[trigger] r->0@[i]) == format_of(images@[i]@),
{
    if images.len() == 0 {
        return None;
    }
    let mut out: Vec<ImageFormat> = Vec::new();
    let mut i: usize = 0;
    while i < images.len()
        invariant
            i <= images@.len(),
            out@.len() == i,
            forall|k: int| 0 <= k < i ==> Some(#[trigger] out@[k]) == format_of(images@[k]@),
        decreases images@.len() - i,
    {
        match image_format(images[i].as_str()) {
            None => {
                return None;
            },
            Some(f) => {
                out.push(f);
            },
        }
        i = i + 1;
    }
    assert forall|k: int| 0 <= k < images@.len() implies #[trigger] format_of(images@[k]@) is Some by {
        assert(Some(out@[k]) == format_of(images@[k]@));
    }
    Some(out)
}

} // verus!
