use fdr::engine::{show_news, sort_order, SortMode};
use fdr::item::{read_feed_items, Channel, FeedItem, RawEntry, ValidationError};
use fdr::opml::{get_rss_outlines, BodyList, Head, Opml, Outline};
use fdr::seen::SeenRecord;
use fdr::time_format::date_diff;
use fdr::timestamp::{parse_publish_date, Timestamp};

const DAY: i64 = 86400;

fn s(x: &str) -> Option<String> {
    Some(x.to_string())
}

fn entry(guid: Option<&str>, title: &str, link: &str, date: &str) -> RawEntry {
    RawEntry {
        guid: guid.map(|g| g.to_string()),
        title: s(title),
        link: s(link),
        pub_date: s(date),
    }
}

fn item(guid: Option<&str>, title: &str, link: &str, date: &str) -> FeedItem {
    FeedItem::make(&entry(guid, title, link, date), "Blog", "https://blog.example").unwrap()
}

fn now() -> Timestamp {
    parse_publish_date("Mon, 01 Jan 2024 12:00:00 GMT").unwrap()
}

#[test]
fn date_diff_boundary_table() {
    assert_eq!(date_diff(0), "just now");
    assert_eq!(date_diff(59), "just now");
    assert_eq!(date_diff(90), "minute ago");
    assert_eq!(date_diff(5 * 60), "5 minutes ago");
    assert_eq!(date_diff(3600), "hour ago");
    assert_eq!(date_diff(2 * 3600 + 5), "2 hours ago");
    assert_eq!(date_diff(DAY), "day ago");
    assert_eq!(date_diff(3 * DAY), "3 days ago");
    assert_eq!(date_diff(7 * DAY), "week ago");
    assert_eq!(date_diff(15 * DAY), "2 weeks ago");
    assert_eq!(date_diff(28 * DAY), "month ago");
    assert_eq!(date_diff(35 * DAY), "5 months ago");
    assert_eq!(date_diff(365 * DAY), "year ago");
    assert_eq!(date_diff(400 * DAY), "35 years ago");
}

#[test]
fn date_diff_future_reads_just_now() {
    assert_eq!(date_diff(-5 * DAY), "just now");
}

#[test]
fn parses_rfc2822_dates() {
    let t = parse_publish_date("Wed, 18 Feb 2015 23:16:09 GMT").unwrap();
    assert_eq!(t.secs, 1424301369);
    assert_eq!(t.nanos, 0);
    assert_eq!(t.offset, 0);
}

#[test]
fn falls_back_to_generic_timestamps() {
    let t = parse_publish_date("2015-02-18T23:16:09+01:00").unwrap();
    assert_eq!(t.secs, 1424297769);
    assert_eq!(t.offset, 3600);
}

#[test]
fn rejects_unreadable_dates() {
    assert!(parse_publish_date("yesterday").is_none());
}

#[test]
fn make_copies_fields() {
    let fi = item(Some("g1"), "Hello", "https://blog.example/1", "Wed, 18 Feb 2015 23:16:09 GMT");
    assert_eq!(fi.title, "Hello");
    assert_eq!(fi.link, "https://blog.example/1");
    assert_eq!(fi.source_name, "Blog");
    assert_eq!(fi.source_url, "https://blog.example");
    assert_eq!(fi.pub_date.secs, 1424301369);
}

#[test]
fn make_reports_each_missing_field() {
    let mut e = entry(None, "t", "l", "Wed, 18 Feb 2015 23:16:09 GMT");
    e.title = None;
    assert_eq!(FeedItem::make(&e, "n", "u").err(), Some(ValidationError::MissingTitle));
    e.title = s("");
    assert_eq!(FeedItem::make(&e, "n", "u").err(), Some(ValidationError::MissingTitle));
    e.title = s("t");
    e.link = None;
    assert_eq!(FeedItem::make(&e, "n", "u").err(), Some(ValidationError::MissingLink));
    e.link = s("l");
    e.pub_date = None;
    assert_eq!(FeedItem::make(&e, "n", "u").err(), Some(ValidationError::MissingDate));
    e.pub_date = s("not a date");
    assert_eq!(FeedItem::make(&e, "n", "u").err(), Some(ValidationError::InvalidDate));
    assert_eq!(ValidationError::InvalidDate.message(), "invalid publish date");
    assert_eq!(ValidationError::MissingTitle.message(), "missing title");
}

#[test]
fn identifier_prefers_guid() {
    let a = item(Some("same"), "A", "https://a", "Wed, 18 Feb 2015 23:16:09 GMT");
    let b = item(Some("same"), "B", "https://b", "Wed, 18 Feb 2015 23:16:09 GMT");
    assert_eq!(a.get_id(), "same");
    assert_eq!(a.get_id(), b.get_id());
}

#[test]
fn identifier_from_title_and_link() {
    let a = item(None, "A", "https://a", "Wed, 18 Feb 2015 23:16:09 GMT");
    let b = item(None, "A", "https://a", "Thu, 19 Feb 2015 23:16:09 GMT");
    assert_eq!(a.get_id(), "A-https://a");
    assert_eq!(a.get_id(), b.get_id());
}

#[test]
fn invalid_entry_is_dropped_with_one_warning() {
    let mut bad = entry(None, "x", "https://x", "Wed, 18 Feb 2015 23:16:09 GMT");
    bad.link = None;
    let channel = Channel {
        title: "Blog".to_string(),
        link: "https://blog.example".to_string(),
        items: vec![
            entry(None, "one", "https://1", "Wed, 18 Feb 2015 23:16:09 GMT"),
            bad,
            entry(None, "two", "https://2", "Wed, 18 Feb 2015 23:16:09 GMT"),
        ],
    };
    let (items, errors) = read_feed_items(&channel);
    assert_eq!(errors, vec![ValidationError::MissingLink]);
    assert_eq!(items.len(), 2);
    assert_eq!(items[0].title, "one");
    assert_eq!(items[1].title, "two");
    assert_eq!(items[1].source_name, "Blog");
}

#[test]
fn seen_record_text_round_trip() {
    let r = SeenRecord::from_text("a\nb\n\nc\n");
    assert_eq!(r.ids, vec!["a", "b", "", "c"]);
    assert!(r.contains(&"b".to_string()));
    assert!(!r.contains(&"B".to_string()));
    assert_eq!(r.to_text(), "a\nb\n\nc");
    assert_eq!(SeenRecord::from_text("").ids.len(), 0);
    let mut r2 = SeenRecord::new();
    r2.append("x".to_string());
    r2.append("y".to_string());
    assert_eq!(r2.to_text(), "x\ny");
}

fn three_items() -> Vec<FeedItem> {
    vec![
        item(Some("a"), "A", "https://a", "Mon, 01 Jan 2024 10:00:00 GMT"),
        item(Some("b"), "B", "https://b", "Mon, 01 Jan 2024 11:00:00 GMT"),
        item(Some("c"), "C", "https://c", "Mon, 01 Jan 2024 10:00:00 GMT"),
    ]
}

fn titles(lines: &[fdr::item::DisplayLine]) -> Vec<String> {
    lines.iter().map(|l| l.title.clone()).collect()
}

#[test]
fn ordering_modes() {
    let items = three_items();
    assert_eq!(sort_order(&items, SortMode::Original), vec![0, 1, 2]);
    assert_eq!(sort_order(&items, SortMode::Asc), vec![0, 2, 1]);
    assert_eq!(sort_order(&items, SortMode::Desc), vec![1, 0, 2]);
    let mut seen = SeenRecord::new();
    let lines = show_news(&items, &mut seen, &now(), false, SortMode::Desc);
    assert_eq!(titles(&lines), vec!["B", "A", "C"]);
}

#[test]
fn rerun_shows_nothing() {
    let items = three_items();
    let mut seen = SeenRecord::new();
    let first = show_news(&items, &mut seen, &now(), false, SortMode::Original);
    assert_eq!(first.len(), 3);
    assert!(first.iter().all(|l| l.is_new));
    assert_eq!(first[0].ago, "2 hours ago");
    assert_eq!(first[1].ago, "hour ago");
    assert_eq!(seen.ids, vec!["a", "b", "c"]);
    let second = show_news(&items, &mut seen, &now(), false, SortMode::Asc);
    assert!(second.is_empty());
    assert_eq!(seen.ids, vec!["a", "b", "c"]);
}

#[test]
fn show_all_marks_seen_without_duplicates() {
    let items = three_items();
    let mut seen = SeenRecord::from_text("b");
    let first = show_news(&items, &mut seen, &now(), true, SortMode::Original);
    assert_eq!(titles(&first), vec!["A", "B", "C"]);
    assert_eq!(first.iter().map(|l| l.is_new).collect::<Vec<_>>(), vec![true, false, true]);
    assert_eq!(seen.ids, vec!["b", "a", "c"]);
    let second = show_news(&items, &mut seen, &now(), true, SortMode::Original);
    assert_eq!(second.len(), 3);
    assert!(second.iter().all(|l| !l.is_new));
    assert_eq!(seen.ids, vec!["b", "a", "c"]);
}

#[test]
fn repeated_identifier_shown_once() {
    let items = vec![
        item(Some("dup"), "First", "https://1", "Mon, 01 Jan 2024 10:00:00 GMT"),
        item(Some("dup"), "Second", "https://2", "Mon, 01 Jan 2024 11:00:00 GMT"),
    ];
    let mut seen = SeenRecord::new();
    let lines = show_news(&items, &mut seen, &now(), false, SortMode::Original);
    assert_eq!(titles(&lines), vec!["First"]);
    assert_eq!(seen.ids, vec!["dup"]);
}

#[test]
fn empty_sources_leave_record_unchanged() {
    let mut seen = SeenRecord::from_text("x\ny");
    let lines = show_news(&Vec::new(), &mut seen, &now(), false, SortMode::Asc);
    assert!(lines.is_empty());
    assert_eq!(seen.to_text(), "x\ny");
}

#[test]
fn display_line_text() {
    let fi = item(None, "Post", "https://p", "Sun, 31 Dec 2023 12:00:00 GMT");
    let new_line = fi.show(&now(), false);
    assert_eq!(new_line.text(), "Blog (*new*): Post (day ago) https://p");
    let old_line = fi.show(&now(), true);
    assert_eq!(old_line.text(), "Blog: Post (day ago) https://p");
}

#[test]
fn rss_outlines_are_selected() {
    let o = |t: &str, ty: &str| Outline {
        text: None,
        title: t.to_string(),
        outline_type: ty.to_string(),
        xml_url: format!("https://{}", t),
    };
    let opml = Opml {
        version: "2.0".to_string(),
        head: Head { title: "subs".to_string() },
        body: BodyList { outline: vec![o("a", "rss"), o("b", "atom"), o("c", "rss")] },
    };
    let r = get_rss_outlines(&opml);
    assert_eq!(r.iter().map(|x| x.title.clone()).collect::<Vec<_>>(), vec!["a", "c"]);
}

#[test]
fn from_parsed_uses_given_date() {
    let e = entry(Some("g"), "T", "https://t", "whatever");
    assert_eq!(
        FeedItem::from_parsed(&e, None, "n", "u").err(),
        Some(ValidationError::InvalidDate)
    );
    let t = Timestamp { secs: 1_000, nanos: 5, offset: -3600 };
    let fi = FeedItem::from_parsed(&e, Some(t), "n", "u").unwrap();
    assert_eq!(fi.pub_date, t);
    assert_eq!(fi.get_id(), "g");
    let mut no_title = entry(None, "", "https://t", "whatever");
    no_title.title = None;
    assert_eq!(
        FeedItem::from_parsed(&no_title, Some(t), "n", "u").err(),
        Some(ValidationError::MissingTitle)
    );
}

#[test]
fn stable_order_under_equal_dates() {
    let items = vec![
        item(Some("x"), "X", "https://x", "Mon, 01 Jan 2024 10:00:00 GMT"),
        item(Some("y"), "Y", "https://y", "2024-01-01T11:00:00+01:00"),
        item(Some("z"), "Z", "https://z", "Mon, 01 Jan 2024 09:00:00 GMT"),
    ];
    assert_eq!(sort_order(&items, SortMode::Asc), vec![2, 0, 1]);
    assert_eq!(sort_order(&items, SortMode::Desc), vec![0, 1, 2]);
}
