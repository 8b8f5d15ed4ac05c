use comik::context::Context;
use comik::dispatch::{
    next_action, Action, count_successes, delivery_report, document_name, notification_content,
};
use comik::layout::{
    adds_page_after, chapter_formats, extension_of, image_format, place_image, ImageFormat,
};
use comik::source::{
    chapter_info_url, comic_info_url, downloaded_pages, element_for, find_source,
    page_cache_path, pending_chapters, ComicInfoChapter, Source,
};
use comik::text::{decimal_string, replace};

fn context() -> Context {
    Context::new(
        false,
        "/tmp/cache".to_string(),
        "/srv/repo".to_string(),
        None,
    )
}

fn chapter(id: &str, title: &str) -> ComicInfoChapter {
    ComicInfoChapter { id: id.to_string(), title: title.to_string() }
}

#[test]
fn new_places_mark_directory_under_repo() {
    let ctx = context();
    assert_eq!(ctx.mark_dir(), "/srv/repo/mark");
    assert_eq!(ctx.cache_dir(), "/tmp/cache");
    assert!(!ctx.is_debug());
    assert_eq!(ctx.document_repo_path(), "/srv/repo");
    let ctx = Context::new(true, "c/".to_string(), "r/".to_string(), None);
    assert_eq!(ctx.mark_dir(), "r/mark");
    assert!(ctx.is_debug());
}

#[test]
fn mark_then_is_marked() {
    let mut ctx = context();
    assert!(!ctx.is_marked("dmzj", "12", "7"));
    let path = ctx.mark("dmzj", "12", "7");
    assert_eq!(path, "/srv/repo/mark/dmzj_12_7");
    assert!(ctx.is_marked("dmzj", "12", "7"));
    assert!(!ctx.is_marked("dmzj", "12", "8"));
}

#[test]
fn marking_twice_is_a_no_op() {
    let mut ctx = context();
    let a = ctx.mark("dmzj", "1", "2");
    let b = ctx.mark("dmzj", "1", "2");
    assert_eq!(a, b);
    assert!(ctx.is_marked("dmzj", "1", "2"));
    assert!(!ctx.is_marked("dmzj", "1", "3"));
}

#[test]
fn loaded_marks_are_seen() {
    let mut ctx = context();
    ctx.load_marks(vec!["dmzj_5_9".to_string()]);
    assert!(ctx.is_marked("dmzj", "5", "9"));
    assert!(!ctx.is_marked("dmzj", "5", "10"));
}

#[test]
fn image_cache_path_is_deterministic() {
    let ctx = context();
    assert_eq!(
        ctx.create_image_cache("dmzj", "12", "7", 10, "jpg"),
        "/tmp/cache/dmzj_12_7_10.jpg"
    );
    assert_eq!(
        ctx.create_image_cache("dmzj", "12", "7", 0, "png"),
        "/tmp/cache/dmzj_12_7_0.png"
    );
}

#[test]
fn notify_url_encodes_title_and_content() {
    let ctx = Context::new(
        false,
        "c".to_string(),
        "r".to_string(),
        Some("https://api.day.app/key".to_string()),
    );
    let url = ctx.notify_url("Comic Update", "a/b (1/2).").unwrap();
    assert_eq!(
        url,
        "https://api.day.app/key/Comic%20Update/a%2Fb%20(1%2F2).?icon=https://comik-icon.aoramd.moe/icon.png&group=Comik"
    );
    assert!(context().notify_url("t", "c").is_none());
}

#[test]
fn idempotent_skip_of_marked_chapters() {
    let mut ctx = context();
    ctx.mark("dmzj", "42", "a");
    let chapters = vec![chapter("a", "One"), chapter("b", "Two"), chapter("c", "Three")];
    let pending = pending_chapters(&ctx, "dmzj", "42", &chapters);
    let ids: Vec<&str> = pending.iter().map(|c| c.id.as_str()).collect();
    assert_eq!(ids, vec!["b", "c"]);
    let none = pending_chapters(&ctx, "dmzj", "43", &Vec::new());
    assert!(none.is_empty());
}

#[test]
fn dry_run_marks_every_new_chapter_without_images() {
    let mut ctx = context();
    let chapters = vec![chapter("1", "First"), chapter("2", "Second")];
    let pending = pending_chapters(&ctx, "dmzj", "9", &chapters);
    let mut elements = Vec::new();
    for c in &pending {
        elements.push(element_for(true, "dmzj", "9", "Title", c, None).unwrap());
    }
    assert_eq!(elements.len(), 2);
    for e in &elements {
        assert!(e.images.is_empty());
        assert_eq!(next_action(true, 0, false, None), Action::Mark);
        ctx.mark(&e.source_tag, &e.comic_id, &e.chapter_id);
    }
    for c in &chapters {
        assert!(ctx.is_marked("dmzj", "9", &c.id));
    }
}

#[test]
fn failed_chapter_fetch_drops_the_element() {
    let c = chapter("3", "Third");
    assert!(element_for(false, "dmzj", "9", "T", &c, None).is_none());
    let e = element_for(false, "dmzj", "9", "T", &c, Some(vec!["p0.jpg".to_string()])).unwrap();
    assert_eq!(e.images, vec!["p0.jpg".to_string()]);
    assert_eq!(e.chapter_name, "Third");
    assert_eq!(e.comic_name, "T");
}

#[test]
fn page_paths_follow_url_extension() {
    let ctx = context();
    assert_eq!(
        page_cache_path(&ctx, "dmzj", "1", "2", 3, "https://img.example/x/0003.png"),
        Some("/tmp/cache/dmzj_1_2_3.png".to_string())
    );
    assert_eq!(page_cache_path(&ctx, "dmzj", "1", "2", 3, "https://img.example/x/0003"), None);
}

#[test]
fn downloaded_pages_keep_order_and_skip_failures() {
    let r = vec![Some("a".to_string()), None, Some("c".to_string())];
    assert_eq!(downloaded_pages(&r), vec!["a".to_string(), "c".to_string()]);
}

#[test]
fn registry_knows_dmzj_only() {
    assert_eq!(find_source("dmzj"), Some(Source::Dmzj));
    assert_eq!(find_source("other"), None);
    assert_eq!(Source::Dmzj.tag(), "dmzj");
}

#[test]
fn provider_addresses() {
    assert_eq!(comic_info_url("55"), "https://api.dmzj.com//dynamic/comicinfo/55.json");
    assert_eq!(chapter_info_url("55", "8"), "https://m.dmzj.com/chapinfo/55/8.html");
}

#[test]
fn extension_follows_path_rules() {
    assert_eq!(extension_of("https://a/b/c.jpg"), Some("jpg"));
    assert_eq!(extension_of("https://a/b/c"), None);
    assert_eq!(extension_of("a/.hidden"), None);
    assert_eq!(extension_of("a/b.tar.gz"), Some("gz"));
    assert_eq!(extension_of("x/y.png/"), Some("png"));
    assert_eq!(extension_of("x/.."), None);
    assert_eq!(extension_of(""), None);
}

#[test]
fn supported_formats() {
    assert_eq!(image_format("p.png"), Some(ImageFormat::Png));
    assert_eq!(image_format("p.jpg"), Some(ImageFormat::Jpeg));
    assert_eq!(image_format("p.jpeg"), Some(ImageFormat::Jpeg));
    assert_eq!(image_format("p.gif"), None);
    assert_eq!(image_format("p"), None);
}

#[test]
fn unsupported_format_isolates_its_chapter() {
    let bad = vec!["/tmp/cache/dmzj_1_1_0.webp".to_string()];
    let good = vec!["/tmp/cache/dmzj_1_2_0.png".to_string(), "/tmp/cache/dmzj_1_2_1.jpg".to_string()];
    assert!(chapter_formats(&bad).is_none());
    assert_eq!(next_action(false, 2, chapter_formats(&bad).is_some(), Some(Action::Assemble)), Action::Finish);
    assert_eq!(chapter_formats(&good), Some(vec![ImageFormat::Png, ImageFormat::Jpeg]));
    assert_eq!(next_action(false, 2, chapter_formats(&good).is_some(), Some(Action::Assemble)), Action::Send(0));
}

#[test]
fn layout_of_a_square_image() {
    let p = place_image(1000, 1000, 900);
    let sf = p.scale_num as f64 / p.scale_den as f64;
    let w_mm: f64 = 1000.0 * 25.4 / 300.0;
    let expected = (148.0 / w_mm).min(210.0 / w_mm) * 0.9;
    assert!((sf - expected).abs() < 1e-9);
    assert_eq!(p.translate_x_num * 10, 74 * p.translate_den);
    assert_eq!(p.translate_y_num * 10, 384 * p.translate_den);
}

#[test]
fn layout_of_a_tall_image() {
    let (w, h, s) = (800u32, 3000u32, 1000u64);
    let p = place_image(w, h, s);
    let w_mm = w as f64 * 25.4 / 300.0;
    let h_mm = h as f64 * 25.4 / 300.0;
    let sf = (148.0 / w_mm).min(210.0 / h_mm) * 1.0;
    assert!((p.scale_num as f64 / p.scale_den as f64 - sf).abs() < 1e-9);
    let tx = p.translate_x_num as f64 / p.translate_den as f64;
    let ty = p.translate_y_num as f64 / p.translate_den as f64;
    assert!((tx - (148.0 - w_mm * sf) / 2.0).abs() < 1e-9);
    assert!((ty - (210.0 - h_mm * sf) / 2.0).abs() < 1e-9);
    assert_eq!(ty, 0.0);
}

#[test]
fn one_page_per_image_and_no_trailing_page() {
    for n in 1usize..6 {
        let mut pages = 1;
        for i in 0..n {
            if adds_page_after(i, n) {
                pages += 1;
            }
        }
        assert_eq!(pages, n);
    }
    assert!(!adds_page_after(2, 3));
    assert!(adds_page_after(1, 3));
}

#[test]
fn partial_delivery_accounting() {
    let results = vec![true, false, true];
    assert_eq!(count_successes(&results), 2);
    let d = delivery_report(&None, "Naruto", "700", &results);
    assert_eq!(d.success, 2);
    assert_eq!(d.total, 3);
    assert_eq!(d.content, "Comic Naruto has been updated to chapter 700 (2/3).");
}

#[test]
fn custom_template_is_filled() {
    let t = Some("%comic%/%chapter%: %success% of %total%, %comic%".to_string());
    assert_eq!(notification_content(&t, "A", "B", 0, 12), "A/B: 0 of 12, A");
}

#[test]
fn end_to_end_scenario() {
    let mut ctx = context();
    ctx.mark("dmzj", "100", "A");
    let chapters = vec![chapter("A", "Chapter A"), chapter("B", "Chapter B")];
    let pending = pending_chapters(&ctx, "dmzj", "100", &chapters);
    assert_eq!(pending.len(), 1);
    assert_eq!(pending[0].id, "B");
    let urls = ["https://i/0.jpg", "https://i/1.jpg", "https://i/2.png"];
    let mut results = Vec::new();
    for (i, u) in urls.iter().enumerate() {
        results.push(page_cache_path(&ctx, "dmzj", "100", "B", i, u));
    }
    let pages = downloaded_pages(&results);
    let e = element_for(false, "dmzj", "100", "Title", &pending[0], Some(pages)).unwrap();
    assert_eq!(e.images.len(), 3);
    let formats = chapter_formats(&e.images).unwrap();
    assert_eq!(formats.len(), 3);
    let mut doc_pages = 1;
    for i in 0..3 {
        let _ = place_image(600, 900, 900);
        if adds_page_after(i, 3) {
            doc_pages += 1;
        }
    }
    assert_eq!(doc_pages, 3);
    assert_eq!(document_name(&e.comic_name, &e.chapter_name), "Title Chapter B.pdf");
    let d = delivery_report(&None, &e.comic_name, &e.chapter_name, &vec![true, true]);
    assert_eq!(d.content, "Comic Title has been updated to chapter Chapter B (2/2).");
    ctx.mark(&e.source_tag, &e.comic_id, &e.chapter_id);
    assert!(ctx.is_marked("dmzj", "100", "B"));
}

#[test]
fn text_helpers() {
    assert_eq!(decimal_string(0), "0");
    assert_eq!(decimal_string(120), "120");
    assert_eq!(decimal_string(usize::MAX), usize::MAX.to_string());
    assert_eq!(replace("aaa", "aa", "b"), "ba");
    assert_eq!(replace("", "x", "y"), "");
    assert_eq!(replace("héllo wörld", "ö", "o"), "héllo world");
}

#[test]
fn marker_names_do_not_collide() {
    let mut ctx = context();
    let path = ctx.mark("dmzj", "1_2", "3");
    assert_eq!(path, "/srv/repo/mark/dmzj_1%5F2_3");
    assert!(ctx.is_marked("dmzj", "1_2", "3"));
    assert!(!ctx.is_marked("dmzj", "1", "2_3"));
    assert_eq!(ctx.mark("dmzj", "a%b", "c"), "/srv/repo/mark/dmzj_a%25b_c");
}

#[test]
fn cache_names_do_not_collide() {
    let ctx = context();
    let a = ctx.create_image_cache("dmzj", "1_2", "3", 0, "png");
    let b = ctx.create_image_cache("dmzj", "1", "2_3", 0, "png");
    assert_ne!(a, b);
    assert_eq!(a, "/tmp/cache/dmzj_1%5F2_3_0.png");
    assert_eq!(b, "/tmp/cache/dmzj_1_2%5F3_0.png");
}

#[test]
fn empty_chapter_gets_no_document() {
    assert!(chapter_formats(&Vec::new()).is_none());
    assert_eq!(next_action(false, 1, chapter_formats(&Vec::new()).is_some(), Some(Action::Assemble)), Action::Finish);
}

#[test]
fn notify_url_with_empty_title_keeps_both_separators() {
    let ctx = Context::new(false, "c".to_string(), "r".to_string(), Some("https://h/k".to_string()));
    assert_eq!(
        ctx.notify_url("", "x").unwrap(),
        "https://h/k//x?icon=https://comik-icon.aoramd.moe/icon.png&group=Comik"
    );
}

fn trace(learn: bool, total: usize, assembled: bool) -> Vec<Action> {
    let mut out = Vec::new();
    let mut last = None;
    loop {
        let a = next_action(learn, total, assembled, last);
        out.push(a);
        if a == Action::Finish {
            return out;
        }
        last = Some(a);
    }
}

#[test]
fn learning_run_only_marks() {
    assert_eq!(trace(true, 3, false), vec![Action::Mark, Action::Finish]);
}

#[test]
fn failed_assembly_is_not_marked() {
    assert_eq!(trace(false, 3, false), vec![Action::Assemble, Action::Finish]);
}

#[test]
fn delivery_sends_to_each_recipient_in_order() {
    assert_eq!(
        trace(false, 2, true),
        vec![
            Action::Assemble,
            Action::Send(0),
            Action::Send(1),
            Action::Notify,
            Action::Mark,
            Action::Finish
        ]
    );
    assert_eq!(
        trace(false, 0, true),
        vec![Action::Assemble, Action::Notify, Action::Mark, Action::Finish]
    );
}

#[test]
fn slashes_in_names_stay_inside_their_directory() {
    let mut ctx = Context::new(false, "/c".to_string(), "/r".to_string(), None);
    assert_eq!(ctx.mark("/x", "1", "2"), "/r/mark/%2Fx_1_2");
    assert_eq!(ctx.create_image_cache("/c/dmzj", "1", "2", 0, "png"), "/c/%2Fc%2Fdmzj_1_2_0.png");
    assert_ne!(
        ctx.create_image_cache("/c/dmzj", "1", "2", 0, "png"),
        ctx.create_image_cache("dmzj", "1", "2", 0, "png")
    );
    assert_eq!(ctx.create_image_cache("dmzj", "a/b", "3", 1, "jpg"), "/c/dmzj_a%2Fb_3_1.jpg");
    assert!(!ctx.is_marked("x", "1", "2"));
    assert!(ctx.is_marked("/x", "1", "2"));
}
