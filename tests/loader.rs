use blog::{Entry, EntryLoader, Timestamp};

const DAY_2024_01_01: i64 = 1704067200;
const DAY_2023_06_01: i64 = 1685577600;

fn entry(eid: &str, slug: &str, secs: i64, tags: &[&str]) -> Entry {
    Entry {
        eid: eid.to_string(),
        slug: slug.to_string(),
        title: format!("title {}", eid),
        date: Timestamp::from_instant(secs, 0, 0).unwrap(),
        tags: tags.iter().map(|t| t.to_string()).collect(),
        image: None,
        content: format!("<p>{}</p>", eid),
    }
}

fn eids(v: &[&Entry]) -> Vec<String> {
    v.iter().map(|e| e.eid.clone()).collect()
}

fn two_posts() -> EntryLoader {
    let b = entry("b", "b", DAY_2023_06_01, &["x", "y"]);
    let a = entry("a", "a", DAY_2024_01_01, &["x"]);
    EntryLoader::from_entries("/blog".to_string(), vec![b, a])
}

#[test]
fn two_posts_scenario() {
    let loader = two_posts();
    let all: Vec<&Entry> = loader.get_entries().iter().collect();
    assert_eq!(eids(&all), vec!["a", "b"]);
    assert_eq!(eids(&loader.get_entries_by_tag("x").unwrap()), vec!["a", "b"]);
    assert_eq!(eids(&loader.get_entries_by_tag("y").unwrap()), vec!["b"]);
    assert!(loader.get_entries_by_tag("z").is_none());
    let years = loader.get_entries_by_year();
    assert_eq!(years.keys().copied().collect::<Vec<i32>>(), vec![2023, 2024]);
    assert_eq!(eids(&years[&2023]), vec!["b"]);
    assert_eq!(eids(&years[&2024]), vec!["a"]);
    assert_eq!(loader.get_entry_for_path("/blog/2024/01/01/a").unwrap().eid, "a");
    assert_eq!(loader.get_entry_for_path("/blog/2023/06/01/b").unwrap().eid, "b");
}

#[test]
fn permalink_formats_date_and_slug() {
    let a = entry("a", "a", DAY_2024_01_01, &[]);
    assert_eq!(a.permalink(), "/2024/01/01/a");
    let b = entry("b", "dameleon", DAY_2023_06_01, &[]);
    assert_eq!(b.permalink(), "/2023/06/01/dameleon");
    let early = entry("c", "", 0, &[]);
    assert_eq!(early.permalink(), "/1970/01/01/");
}

fn midnight_utc(year: i32, month: u32, day: u32) -> i64 {
    chrono::NaiveDate::from_ymd_opt(year, month, day)
        .unwrap()
        .and_hms_opt(0, 0, 0)
        .unwrap()
        .and_utc()
        .timestamp()
}

#[test]
fn permalink_pads_and_signs_years() {
    let cases = [
        ((33, 2, 9), "/0033/02/09/s"),
        ((12345, 2, 9), "/+12345/02/09/s"),
        ((-7, 2, 9), "/-0007/02/09/s"),
        ((9999, 12, 31), "/9999/12/31/s"),
        ((0, 1, 1), "/0000/01/01/s"),
    ];
    for ((y, m, d), expected) in cases {
        let e = entry("a", "s", midnight_utc(y, m, d), &[]);
        assert_eq!((e.date.year, e.date.month, e.date.day), (y, m, d));
        assert_eq!(e.permalink(), expected);
    }
}

#[test]
fn timestamp_in_range_is_always_built() {
    for secs in [-8_000_000_000_000i64, -1, 0, 8_000_000_000_000] {
        for offset in [-86399, 0, 86399] {
            let t = Timestamp::from_instant(secs, 999_999_999, offset).unwrap();
            assert_eq!((t.secs, t.nanos, t.offset), (secs, 999_999_999, offset));
            assert!((1..=12).contains(&t.month) && (1..=31).contains(&t.day));
        }
    }
}

#[test]
fn timestamp_takes_calendar_date_at_offset() {
    let t = Timestamp::from_instant(DAY_2024_01_01, 0, 0).unwrap();
    assert_eq!((t.year, t.month, t.day), (2024, 1, 1));
    let t = Timestamp::from_instant(DAY_2024_01_01 + 1800, 5, -3600).unwrap();
    assert_eq!((t.year, t.month, t.day), (2023, 12, 31));
    assert_eq!((t.secs, t.nanos, t.offset), (DAY_2024_01_01 + 1800, 5, -3600));
    // 2019-02-12T09:52:00+09:00
    let t = Timestamp::from_instant(1549929120, 0, 9 * 3600).unwrap();
    assert_eq!((t.year, t.month, t.day), (2019, 2, 12));
}

#[test]
fn timestamp_rejects_offset_of_a_day() {
    assert!(Timestamp::from_instant(0, 0, 86400).is_none());
    assert!(Timestamp::from_instant(0, 0, -86400).is_none());
}

#[test]
fn timestamp_order_ignores_offset() {
    let a = Timestamp::from_instant(100, 0, 3600).unwrap();
    let b = Timestamp::from_instant(100, 0, -3600).unwrap();
    let c = Timestamp::from_instant(100, 1, 0).unwrap();
    assert!(a.is_not_before(&b) && b.is_not_before(&a));
    assert!(c.is_not_before(&a) && !a.is_not_before(&c));
}

#[test]
fn entries_sorted_latest_first() {
    let loader = EntryLoader::from_entries(
        String::new(),
        vec![
            entry("1", "one", 10, &[]),
            entry("2", "two", 30, &[]),
            entry("3", "three", 20, &[]),
            entry("4", "four", 40, &[]),
        ],
    );
    let all = loader.get_entries();
    for w in all.windows(2) {
        assert!(w[0].date.is_not_before(&w[1].date));
    }
    let ids: Vec<&str> = all.iter().map(|e| e.eid.as_str()).collect();
    assert_eq!(ids, vec!["4", "2", "3", "1"]);
}

#[test]
fn equal_dates_keep_input_order() {
    let loader = EntryLoader::from_entries(
        String::new(),
        vec![
            entry("p", "p", 5, &[]),
            entry("q", "q", 9, &[]),
            entry("r", "r", 5, &[]),
            entry("s", "s", 5, &[]),
        ],
    );
    let ids: Vec<&str> = loader.get_entries().iter().map(|e| e.eid.as_str()).collect();
    assert_eq!(ids, vec!["q", "p", "r", "s"]);
}

#[test]
fn empty_index() {
    let loader = EntryLoader::from_entries("/blog".to_string(), vec![]);
    assert!(loader.get_entries().is_empty());
    assert!(loader.get_entries_by_tag("x").is_none());
    assert!(loader.get_entries_by_year().is_empty());
    assert!(loader.get_entry_for_path("/blog").is_none());
    assert!(loader.get_entry_for_slug("a").is_none());
}

#[test]
fn tag_groups_hold_exactly_the_tagged_entries() {
    let loader = EntryLoader::from_entries(
        String::new(),
        vec![
            entry("1", "one", 10, &["rust", "web"]),
            entry("2", "two", 30, &["web"]),
            entry("3", "three", 20, &["rust", "rust"]),
            entry("4", "four", 40, &[]),
        ],
    );
    assert_eq!(eids(&loader.get_entries_by_tag("rust").unwrap()), vec!["3", "1"]);
    assert_eq!(eids(&loader.get_entries_by_tag("web").unwrap()), vec!["2", "1"]);
    assert!(loader.get_entries_by_tag("Rust").is_none());
    assert!(loader.get_entries_by_tag("").is_none());
    for e in loader.get_entries() {
        let in_group = loader
            .get_entries_by_tag("rust")
            .unwrap()
            .iter()
            .any(|g| g.eid == e.eid);
        assert_eq!(in_group, e.tags.iter().any(|t| t == "rust"));
    }
}

#[test]
fn year_groups_ascend_and_partition() {
    let loader = EntryLoader::from_entries(
        String::new(),
        vec![
            entry("a", "a", DAY_2024_01_01, &[]),
            entry("b", "b", DAY_2023_06_01, &[]),
            entry("c", "c", DAY_2024_01_01 + 86400 * 40, &[]),
            entry("d", "d", DAY_2023_06_01 - 86400 * 400, &[]),
        ],
    );
    let years = loader.get_entries_by_year();
    let keys: Vec<i32> = years.keys().copied().collect();
    assert_eq!(keys, vec![2022, 2023, 2024]);
    assert_eq!(eids(&years[&2022]), vec!["d"]);
    assert_eq!(eids(&years[&2023]), vec!["b"]);
    assert_eq!(eids(&years[&2024]), vec!["c", "a"]);
    let total: usize = years.values().map(|g| g.len()).sum();
    assert_eq!(total, loader.get_entries().len());
}

#[test]
fn year_groups_are_per_index() {
    let pages = EntryLoader::from_entries(String::new(), vec![entry("p", "profile", DAY_2023_06_01, &[])]);
    let posts = two_posts();
    assert_eq!(pages.get_entries_by_year().len(), 1);
    assert_eq!(posts.get_entries_by_year().len(), 2);
    assert_eq!(eids(&pages.get_entries_by_year()[&2023]), vec!["p"]);
    assert_eq!(eids(&posts.get_entries_by_year()[&2024]), vec!["a"]);
}

#[test]
fn path_lookup_round_trips() {
    let loader = two_posts();
    for e in loader.get_entries() {
        let path = format!("/blog{}", e.permalink());
        assert_eq!(loader.get_entry_for_path(&path).unwrap(), e);
    }
    assert!(loader.get_entry_for_path("/2024/01/01/a").is_none());
    assert!(loader.get_entry_for_path("/blog/2024/01/01/b").is_none());
}

#[test]
fn path_collision_keeps_last_in_date_order() {
    let loader = EntryLoader::from_entries(
        String::new(),
        vec![
            entry("late", "same", DAY_2024_01_01 + 3600, &[]),
            entry("early", "same", DAY_2024_01_01, &[]),
        ],
    );
    assert_eq!(loader.get_entries().len(), 2);
    assert_eq!(loader.get_entry_for_path("/2024/01/01/same").unwrap().eid, "early");
}

#[test]
fn slug_lookup_takes_latest() {
    let loader = EntryLoader::from_entries(
        String::new(),
        vec![
            entry("old", "profile", 10, &[]),
            entry("new", "profile", 20, &[]),
            entry("n", "notice", 15, &[]),
        ],
    );
    assert_eq!(loader.get_entry_for_slug("profile").unwrap().eid, "new");
    assert_eq!(loader.get_entry_for_slug("notice").unwrap().eid, "n");
    assert!(loader.get_entry_for_slug("missing").is_none());
}
