use std::rc::Rc;

use imo::handlers::{external_link, footnote_html, has_image_extension, heading_anchor, heading_level, ImoHtmlHandler, LinkHtml};
use imo::outline::{DateTime, Headline, OrgDoc, Timestamp};
use imo::site::Site;

fn headline(level: usize, raw: &str, tags: &[&str], id: &str, year: Option<i32>) -> Headline {
    Headline {
        level,
        raw: raw.to_string(),
        tags: tags.iter().map(|t| t.to_string()).collect(),
        properties: vec![("ID".to_string(), id.to_string())],
        scheduled: year.map(|y| Timestamp::Active {
            start: DateTime { year: y, month: 1, day: 1, hour: 0, minute: 0 },
            repeater: false,
            delay: false,
        }),
        logbook: Vec::new(),
    }
}

fn handler(base: &str) -> ImoHtmlHandler {
    let doc = OrgDoc {
        headlines: vec![
            headline(1, "A", &["blog"], "a", Some(2020)),
            headline(1, "B", &["blog"], "b", Some(2021)),
            headline(2, "Note", &[], "b-note", None),
        ],
    };
    let mut site = Site::new("Test Site".to_string(), None, false);
    site.load_org_data(&doc);
    ImoHtmlHandler::new(Rc::new(site), base.to_string())
}

fn anchor(r: LinkHtml) -> (String, String) {
    match r {
        LinkHtml::Anchor { href, text } => (href, text),
        _ => panic!("expected an anchor"),
    }
}

#[test]
fn link_to_article_id() {
    let h = handler("../../");
    assert_eq!(anchor(h.link("id:a", Some("see A"))), ("../../articles/a/a.html".to_string(), "see A".to_string()));
}

#[test]
fn link_to_subid_has_fragment() {
    let h = handler("../../");
    assert_eq!(
        anchor(h.link("id:b-note", None)),
        ("../../articles/b/b.html#b-note".to_string(), "id:b-note".to_string())
    );
}

#[test]
fn link_to_unknown_id_is_text() {
    let h = handler("");
    match h.link("id:zzz", Some("gone")) {
        LinkHtml::Missing { id, text } => {
            assert_eq!(id, "zzz");
            assert_eq!(text, "gone");
        }
        _ => panic!("expected plain text"),
    }
}

#[test]
fn base_change_applies_to_later_links() {
    let mut h = handler("../../");
    h.set_base("http://test.site/".to_string());
    assert_eq!(anchor(h.link("id:a", None)).0, "http://test.site/articles/a/a.html");
}

#[test]
fn file_link_is_made_relative_to_base() {
    let h = handler("../../");
    match h.link("file:notes/todo.txt", None) {
        LinkHtml::Delegate { path } => assert_eq!(path, "../../notes/todo.txt"),
        _ => panic!("expected a delegated link"),
    }
}

#[test]
fn relative_image_becomes_thumbnail() {
    let h = handler("../../");
    match h.link("file:img/cat.png", None) {
        LinkHtml::Image { src } => assert_eq!(src, "../../img/cat.png"),
        _ => panic!("expected an image"),
    }
}

#[test]
fn absolute_url_keeps_its_target() {
    let h = handler("../../");
    match h.link("https://example.org/page", None) {
        LinkHtml::Delegate { path } => assert_eq!(path, "https://example.org/page"),
        _ => panic!("expected a delegated link"),
    }
    match h.link("https://example.org/a.svg", None) {
        LinkHtml::Image { src } => assert_eq!(src, "https://example.org/a.svg"),
        _ => panic!("expected an image"),
    }
}

#[test]
fn external_link_with_given_relativity() {
    match external_link("base/", "x.jpeg", true) {
        LinkHtml::Image { src } => assert_eq!(src, "base/x.jpeg"),
        _ => panic!("expected an image"),
    }
    match external_link("base/", "x.jpeg.txt", false) {
        LinkHtml::Delegate { path } => assert_eq!(path, "x.jpeg.txt"),
        _ => panic!("expected a delegated link"),
    }
}

#[test]
fn image_extensions() {
    assert!(has_image_extension("a/b.jpg"));
    assert!(has_image_extension("photo.jpeg"));
    assert!(!has_image_extension("dir.png/file"));
    assert!(!has_image_extension("a/b.gif"));
    assert!(!has_image_extension("png"));
    assert!(!has_image_extension(""));
}

#[test]
fn heading_levels_start_at_two_and_stop_at_six() {
    assert_eq!(heading_level(1, 1), 2);
    assert_eq!(heading_level(3, 1), 4);
    assert_eq!(heading_level(5, 1), 6);
    assert_eq!(heading_level(9, 2), 6);
}

#[test]
fn heading_anchor_is_its_id() {
    let props = vec![("ID".to_string(), "sec".to_string())];
    assert_eq!(heading_anchor(&props), Some("sec".to_string()));
    assert_eq!(heading_anchor(&Vec::new()), None);
}

#[test]
fn footnote_is_small_label() {
    assert_eq!(footnote_html("1"), "<small>[1]</small>");
}
