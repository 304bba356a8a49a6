use imo::outline::{DateTime, Headline, OrgDoc, Timestamp};
use imo::extract::{load_article, Loaded, NoticeKind};
use imo::site::{get_id, id_to_path, Id, Site, Year};

fn day(year: i32, month: u8, d: u8) -> DateTime {
    DateTime { year, month, day: d, hour: 0, minute: 0 }
}

fn active(start: DateTime) -> Timestamp {
    Timestamp::Active { start, repeater: false, delay: false }
}

fn headline(level: usize, raw: &str, tags: &[&str], id: Option<&str>, scheduled: Option<Timestamp>) -> Headline {
    let mut properties = Vec::new();
    if let Some(id) = id {
        properties.push(("ID".to_string(), id.to_string()));
    }
    Headline {
        level,
        raw: raw.to_string(),
        tags: tags.iter().map(|t| t.to_string()).collect(),
        properties,
        scheduled,
        logbook: Vec::new(),
    }
}

fn ids(v: &[Id]) -> Vec<String> {
    v.iter().map(|i| i.to_string()).collect()
}

fn year_ids(site: &Site, y: i32) -> Vec<String> {
    site.year_articles(Year(y)).iter().map(|&k| site.articles[k].id.to_string()).collect()
}

#[test]
fn untagged_headline_is_skipped() {
    let doc = OrgDoc {
        headlines: vec![headline(1, "Plain", &[], Some("p"), Some(active(day(2020, 1, 1))))],
    };
    assert!(matches!(load_article(&doc, 0, 0), Loaded::Skipped));
}

#[test]
fn unscheduled_headline_is_skipped_silently() {
    let doc = OrgDoc { headlines: vec![headline(1, "Draft", &["blog"], Some("d"), None)] };
    assert!(matches!(load_article(&doc, 0, 0), Loaded::Skipped));
    let mut site = Site::new("s".to_string(), None, false);
    let report = site.load_org_data(&doc);
    assert!(report.notices.is_empty());
    assert!(site.articles.is_empty());
}

#[test]
fn repeated_schedule_draws_one_notice() {
    let t = Timestamp::Active { start: day(2020, 1, 1), repeater: true, delay: false };
    let doc = OrgDoc { headlines: vec![headline(1, "Weekly", &["blog"], Some("w"), Some(t))] };
    let mut site = Site::new("s".to_string(), None, false);
    let report = site.load_org_data(&doc);
    assert_eq!(report.notices.len(), 1);
    assert_eq!(report.notices[0].kind, NoticeKind::NotScheduled);
    assert_eq!(report.notices[0].message(), "headline \"Weekly\" has blog tag, but not SCHEDULED");
    assert!(site.articles.is_empty());
}

#[test]
fn other_timestamp_kind_draws_one_notice() {
    let doc = OrgDoc {
        headlines: vec![headline(1, "Range", &["blog"], Some("r"), Some(Timestamp::Other))],
    };
    match load_article(&doc, 0, 0) {
        Loaded::Rejected(n) => assert_eq!(n.kind, NoticeKind::NotScheduled),
        _ => panic!("expected a notice"),
    }
}

#[test]
fn missing_and_empty_id_draw_distinct_notices() {
    let doc = OrgDoc {
        headlines: vec![
            headline(1, "NoId", &["blog"], None, Some(active(day(2020, 1, 1)))),
            headline(1, "EmptyId", &["blog"], Some(""), Some(active(day(2020, 1, 1)))),
        ],
    };
    let mut site = Site::new("s".to_string(), None, false);
    let report = site.load_org_data(&doc);
    assert_eq!(report.notices.len(), 2);
    assert_eq!(report.notices[0].kind, NoticeKind::MissingId);
    assert_eq!(report.notices[0].message(), "headline \"NoId\" has blog tag, but does not have ID");
    assert_eq!(report.notices[1].kind, NoticeKind::EmptyId);
    assert_eq!(report.notices[1].message(), "headline \"EmptyId\" has blog tag, but ID is empty");
    assert!(site.articles.is_empty());
}

#[test]
fn updated_is_latest_logbook_stamp_after_published() {
    let mut h = headline(1, "Post", &["blog"], Some("post"), Some(active(day(2020, 5, 1))));
    h.logbook = vec![
        Timestamp::Inactive { start: day(2020, 4, 1), repeater: false, delay: false },
        Timestamp::Inactive { start: day(2020, 7, 3), repeater: false, delay: false },
        Timestamp::Inactive { start: day(2020, 6, 2), repeater: false, delay: false },
        Timestamp::Inactive { start: day(2021, 1, 1), repeater: true, delay: false },
        Timestamp::Other,
    ];
    let doc = OrgDoc { headlines: vec![h] };
    match load_article(&doc, 0, 3) {
        Loaded::Accepted(a, private) => {
            assert_eq!(a.updated, Some(day(2020, 7, 3)));
            assert_eq!(a.published, day(2020, 5, 1));
            assert_eq!(a.title, "Post");
            assert_eq!(a.doc, 3);
            assert!(private.is_empty());
        }
        _ => panic!("expected an article"),
    }
}

#[test]
fn no_logbook_stamp_after_published_leaves_updated_empty() {
    let mut h = headline(1, "Post", &["blog"], Some("post"), Some(active(day(2020, 5, 1))));
    h.logbook = vec![Timestamp::Active { start: day(2020, 5, 1), repeater: false, delay: false }];
    let doc = OrgDoc { headlines: vec![h] };
    match load_article(&doc, 0, 0) {
        Loaded::Accepted(a, _) => assert_eq!(a.updated, None),
        _ => panic!("expected an article"),
    }
}

#[test]
fn private_descendants_are_listed() {
    let doc = OrgDoc {
        headlines: vec![
            headline(1, "Post", &["blog"], Some("post"), Some(active(day(2020, 5, 1)))),
            headline(2, "Secret", &["PRIVATE"], Some("s"), None),
            headline(3, "Under secret", &[], Some("u"), None),
            headline(2, "Open", &[], Some("o"), None),
            headline(1, "Next", &["PRIVATE"], None, None),
        ],
    };
    let mut site = Site::new("s".to_string(), None, false);
    let report = site.load_org_data(&doc);
    assert_eq!(report.private, vec![1]);
    assert_eq!(report.articles, vec![0]);
    assert_eq!(ids(&site.articles[0].subids), vec!["s", "u", "o"]);
}

#[test]
fn last_update_is_latest_effective_timestamp() {
    let mut b = headline(1, "B", &["blog"], Some("b"), Some(active(day(2019, 1, 1))));
    b.logbook = vec![Timestamp::Inactive { start: day(2022, 2, 2), repeater: false, delay: false }];
    let doc = OrgDoc {
        headlines: vec![headline(1, "A", &["blog"], Some("a"), Some(active(day(2021, 1, 1)))), b],
    };
    let mut site = Site::new("s".to_string(), None, false);
    assert_eq!(site.last_update, None);
    site.load_org_data(&doc);
    assert_eq!(site.last_update, Some(day(2022, 2, 2)));
}

#[test]
fn duplicate_id_keeps_the_later_article() {
    let doc = OrgDoc {
        headlines: vec![
            headline(1, "First", &["blog"], Some("x"), Some(active(day(2020, 1, 1)))),
            headline(1, "Second", &["blog"], Some("x"), Some(active(day(2021, 1, 1)))),
        ],
    };
    let mut site = Site::new("s".to_string(), None, false);
    site.load_org_data(&doc);
    assert_eq!(site.articles.len(), 1);
    assert_eq!(site.articles[0].title, "Second");
    assert!(year_ids(&site, 2020).is_empty());
    assert_eq!(year_ids(&site, 2021), vec!["x"]);
}

#[test]
fn nested_tagged_headline_is_an_article_and_a_subid() {
    let doc = OrgDoc {
        headlines: vec![
            headline(1, "Outer", &["blog"], Some("outer"), Some(active(day(2020, 1, 1)))),
            headline(2, "Inner", &["blog"], Some("inner"), Some(active(day(2020, 2, 1)))),
        ],
    };
    let mut site = Site::new("s".to_string(), None, false);
    site.load_org_data(&doc);
    assert_eq!(site.articles.len(), 2);
    let owner = site.article_of_subid(&Id::new("inner".to_string())).unwrap();
    assert_eq!(owner.to_string(), "outer");
}

#[test]
fn two_articles_end_to_end() {
    let doc = OrgDoc {
        headlines: vec![
            headline(1, "A", &["blog"], Some("a"), Some(active(day(2020, 1, 1)))),
            headline(1, "B", &["blog"], Some("b"), Some(active(day(2021, 6, 1)))),
            headline(2, "Note", &[], Some("b-note"), None),
        ],
    };
    let mut site = Site::new("Test Site".to_string(), None, false);
    let report = site.load_org_data(&doc);
    assert!(report.notices.is_empty());
    assert_eq!(report.articles, vec![0, 1]);
    let mut got: Vec<String> = site.articles.iter().map(|a| a.id.to_string()).collect();
    got.sort();
    assert_eq!(got, vec!["a", "b"]);
    assert_eq!(year_ids(&site, 2020), vec!["a"]);
    assert_eq!(year_ids(&site, 2021), vec!["b"]);
    let owner = site.article_of_subid(&Id::new("b-note".to_string())).unwrap();
    assert_eq!(owner.to_string(), "b");
    assert_eq!(site.docs, 1);
}

#[test]
fn id_path_uses_last_character() {
    assert_eq!(id_to_path(&Id::new("hello".to_string())), "articles/o/hello.html");
    assert_eq!(id_to_path(&Id::new("b".to_string())), "articles/b/b.html");
}

#[test]
fn get_id_takes_first_id_property() {
    let props = vec![
        ("CUSTOM".to_string(), "x".to_string()),
        ("ID".to_string(), "first".to_string()),
        ("ID".to_string(), "second".to_string()),
    ];
    assert_eq!(get_id(&props).unwrap().to_string(), "first");
    assert!(get_id(&vec![("id".to_string(), "x".to_string())]).is_none());
}

fn dated(raw: &str, id: &str, published: DateTime, updated: Option<DateTime>) -> Headline {
    let mut h = headline(1, raw, &["blog"], Some(id), Some(active(published)));
    if let Some(u) = updated {
        h.logbook = vec![Timestamp::Inactive { start: u, repeater: false, delay: false }];
    }
    h
}

#[test]
fn year_bucket_orders_by_published_then_id() {
    let doc = OrgDoc {
        headlines: vec![
            dated("C", "c", day(2020, 3, 1), None),
            dated("B", "b", day(2020, 1, 1), None),
            dated("A", "a", day(2020, 3, 1), None),
            dated("D", "d", day(2019, 3, 1), None),
        ],
    };
    let mut site = Site::new("s".to_string(), None, false);
    site.load_org_data(&doc);
    assert_eq!(year_ids(&site, 2020), vec!["b", "a", "c"]);
    assert_eq!(year_ids(&site, 2019), vec!["d"]);
    let all: Vec<String> = site.by_date().iter().map(|&k| site.articles[k].id.to_string()).collect();
    assert_eq!(all, vec!["d", "b", "a", "c"]);
}

#[test]
fn years_are_listed_latest_first_once() {
    let doc = OrgDoc {
        headlines: vec![
            dated("A", "a", day(2019, 3, 1), None),
            dated("B", "b", day(2021, 1, 1), None),
            dated("C", "c", day(2019, 5, 1), None),
            dated("D", "d", day(2020, 5, 1), None),
        ],
    };
    let mut site = Site::new("s".to_string(), None, false);
    site.load_org_data(&doc);
    assert_eq!(site.years_descending(), vec![Year(2021), Year(2020), Year(2019)]);
    assert!(Site::new("e".to_string(), None, false).years_descending().is_empty());
}

#[test]
fn most_recent_orders_by_effective_timestamp() {
    let doc = OrgDoc {
        headlines: vec![
            dated("Old but updated", "old", day(2018, 1, 1), Some(day(2022, 1, 1))),
            dated("New", "new", day(2021, 1, 1), None),
            dated("Mid", "mid", day(2020, 1, 1), None),
            dated("Tie", "tie", day(2021, 1, 1), None),
        ],
    };
    let mut site = Site::new("s".to_string(), None, false);
    site.load_org_data(&doc);
    let recent: Vec<String> = site.most_recent(3).iter().map(|&k| site.articles[k].id.to_string()).collect();
    assert_eq!(recent, vec!["old", "tie", "new"]);
    assert_eq!(site.most_recent(10).len(), 4);
    assert!(site.most_recent(0).is_empty());
}

#[test]
fn latest_of_listed_articles() {
    let doc = OrgDoc {
        headlines: vec![
            dated("A", "a", day(2019, 3, 1), Some(day(2019, 9, 9))),
            dated("B", "b", day(2019, 5, 1), None),
            dated("C", "c", day(2020, 1, 1), None),
        ],
    };
    let mut site = Site::new("s".to_string(), None, false);
    site.load_org_data(&doc);
    let y = site.year_articles(Year(2019));
    assert_eq!(site.latest_of(&y), Some(day(2019, 9, 9)));
    assert_eq!(site.latest_of(&Vec::new()), None);
}
