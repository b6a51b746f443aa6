use terraform_module_data::data::{
    add_downloads, first_release, major_key, version_parts, Attributes, Data, Included,
    IncludedAttributes, Response, Summary, SummaryError, VersionParts,
};
use terraform_module_data::ordered::StringMap;

fn version(version: &str, downloads: u64, created_at: &str) -> Included {
    Included {
        itype: String::from("module-versions"),
        id: String::from("1"),
        attributes: IncludedAttributes {
            created_at: String::from(created_at),
            description: String::new(),
            downloads,
            published_at: String::new(),
            source: String::new(),
            updated_at: String::new(),
            version: String::from(version),
        },
        links: serde_json::Value::Null,
    }
}

fn response(included: Vec<Included>) -> Response {
    Response {
        data: Data {
            dtype: String::from("modules"),
            id: String::from("23"),
            attributes: Attributes {
                downloads: 0,
                full_name: String::new(),
                name: String::new(),
                namespace: String::new(),
                owner_name: String::new(),
                provider_logo_url: String::new(),
                provider_name: String::new(),
                source: String::new(),
                verified: true,
            },
            relationships: serde_json::Value::Null,
            links: serde_json::Value::Null,
        },
        included,
    }
}

fn summary(downloads: u64, major_version: &str, created_at: &str) -> Summary {
    Summary {
        downloads,
        major_version: String::from(major_version),
        created_at: String::from(created_at),
    }
}

fn summarized(included: Vec<Included>) -> Vec<(String, Summary)> {
    response(included).summarize().unwrap().into_items()
}

#[test]
fn summarize_groups_by_major_version() {
    let items = summarized(vec![
        version("5.2.0", 100, "2023-01-01T00:00:00Z"),
        version("5.3.1", 50, "2023-02-01T00:00:00Z"),
        version("0.9.0", 999, "2020-01-01T00:00:00Z"),
    ]);
    assert_eq!(items, vec![(String::from("05"), summary(150, "5", ""))]);
}

#[test]
fn summarize_of_nothing_is_empty() {
    assert_eq!(summarized(vec![]), vec![]);
}

#[test]
fn summarize_records_release_date() {
    let items = summarized(vec![
        version("3.1.0", 7, "not a timestamp"),
        version("3.0.0", 5, "2021-06-30T23:30:00-02:00"),
        version("3.0.1", 1, ""),
    ]);
    assert_eq!(items, vec![(String::from("03"), summary(13, "3", "2021-06-30"))]);
}

#[test]
fn summarize_takes_the_date_in_the_timestamps_own_offset() {
    let items = summarized(vec![version("1.0.0", 1, "2021-01-01T00:30:00+05:00")]);
    assert_eq!(items, vec![(String::from("01"), summary(1, "1", "2021-01-01"))]);
}

#[test]
fn summarize_keeps_the_last_release_date() {
    let items = summarized(vec![
        version("2.0.0", 1, "2020-01-01T00:00:00Z"),
        version("2.0.0", 1, "2020-02-02T00:00:00Z"),
    ]);
    assert_eq!(items, vec![(String::from("02"), summary(2, "2", "2020-02-02"))]);
}

#[test]
fn summarize_orders_keys_as_numbers() {
    let items = summarized(vec![
        version("12.1.0", 1, ""),
        version("5.1.0", 2, ""),
        version("100.1.0", 3, ""),
    ]);
    let keys: Vec<String> = items.iter().map(|(k, _)| k.clone()).collect();
    assert_eq!(keys, vec![String::from("05"), String::from("100"), String::from("12")]);
    assert_eq!(items[0].1, summary(2, "5", ""));
    assert_eq!(items[1].1, summary(3, "100", ""));
    assert_eq!(items[2].1, summary(1, "12", ""));
}

#[test]
fn summarize_leaves_out_major_versions_that_are_no_number() {
    let items = summarized(vec![
        version("abc.1.2", 10, ""),
        version(".1.2", 10, ""),
        version("-1.1.2", 10, ""),
        version("00.1.2", 10, ""),
        version("+0.0.0", 10, "nonsense"),
        version("99999999999999999999999.1.2", 10, ""),
        version("v5.1.2", 10, ""),
    ]);
    assert_eq!(items, vec![]);
}

#[test]
fn summarize_keeps_the_first_spelling_of_a_major_version() {
    let items = summarized(vec![version("+5.1.0", 1, ""), version("05.2.0", 2, ""), version("5.3.0", 4, "")]);
    assert_eq!(items, vec![(String::from("05"), summary(7, "+5", ""))]);
}

#[test]
fn summarize_ignores_parts_after_the_third() {
    let items = summarized(vec![version("4.0.0.1", 3, "2022-03-04T05:06:07Z")]);
    assert_eq!(items, vec![(String::from("04"), summary(3, "4", "2022-03-04"))]);
}

#[test]
fn summarize_reports_short_version() {
    let r = response(vec![version("5.2.0", 1, ""), version("5.2", 100, "")]);
    assert_eq!(r.summarize().err(), Some(SummaryError::BadVersion { index: 1 }));
}

#[test]
fn summarize_reports_short_version_of_major_zero() {
    let r = response(vec![version("0.9", 100, "")]);
    assert_eq!(r.summarize().err(), Some(SummaryError::BadVersion { index: 0 }));
}

#[test]
fn summarize_reports_bad_timestamp_of_release() {
    let r = response(vec![
        version("5.2.0", 1, "garbage"),
        version("0.0.0", 1, "garbage"),
        version("5.0.0", 1, "2023-01-01"),
    ]);
    assert_eq!(r.summarize().err(), Some(SummaryError::BadTimestamp { index: 2 }));
}

#[test]
fn summarize_reports_overflow() {
    let r = response(vec![
        version("5.2.0", u64::MAX, ""),
        version("6.2.0", u64::MAX, ""),
        version("5.2.1", 1, ""),
    ]);
    assert_eq!(r.summarize().err(), Some(SummaryError::DownloadsOverflow { index: 2 }));
}

#[test]
fn summarize_reaches_the_largest_sum() {
    let items = summarized(vec![version("5.2.0", u64::MAX - 1, ""), version("5.2.1", 1, "")]);
    assert_eq!(items, vec![(String::from("05"), summary(u64::MAX, "5", ""))]);
}

#[test]
fn summarize_the_first_error_wins() {
    let r = response(vec![version("7.0.0", 1, "bad"), version("7", 1, "")]);
    assert_eq!(r.summarize().err(), Some(SummaryError::BadTimestamp { index: 0 }));
}

#[test]
fn summarizing_a_summary_changes_nothing() {
    let first = summarized(vec![
        version("5.2.0", 100, ""),
        version("12.0.0", 7, "2022-02-02T00:00:00Z"),
        version("5.3.1", 50, ""),
        version("0.9.0", 999, ""),
        version("12.4.1", 8, ""),
    ]);
    let again: Vec<Included> = first
        .iter()
        .map(|(_, s)| version(&format!("{}.1.1", s.major_version), s.downloads, ""))
        .collect();
    let second = summarized(again);
    assert_eq!(first.len(), second.len());
    for i in 0..first.len() {
        assert_eq!(first[i].0, second[i].0);
        assert_eq!(first[i].1.downloads, second[i].1.downloads);
        assert_eq!(first[i].1.major_version, second[i].1.major_version);
    }
    assert_eq!(second[0], (String::from("05"), summary(150, "5", "")));
    assert_eq!(second[1], (String::from("12"), summary(15, "12", "")));
}

#[test]
fn version_parts_splits_at_dots() {
    assert_eq!(
        version_parts("1.22.333"),
        Some(VersionParts {
            major: String::from("1"),
            minor: String::from("22"),
            patch: String::from("333"),
        })
    );
    assert_eq!(
        version_parts(".."),
        Some(VersionParts { major: String::new(), minor: String::new(), patch: String::new() })
    );
    assert_eq!(
        version_parts("1.0.0-beta.2"),
        Some(VersionParts {
            major: String::from("1"),
            minor: String::from("0"),
            patch: String::from("0-beta"),
        })
    );
    assert_eq!(version_parts("1.2"), None);
    assert_eq!(version_parts(""), None);
}

#[test]
fn major_key_pads_to_two_digits() {
    assert_eq!(major_key("5"), Some(String::from("05")));
    assert_eq!(major_key("05"), Some(String::from("05")));
    assert_eq!(major_key("+7"), Some(String::from("07")));
    assert_eq!(major_key("10"), Some(String::from("10")));
    assert_eq!(major_key("123"), Some(String::from("123")));
    assert_eq!(major_key("18446744073709551615"), Some(String::from("18446744073709551615")));
    assert_eq!(major_key("18446744073709551616"), None);
    assert_eq!(major_key("0"), None);
    assert_eq!(major_key("000"), None);
    assert_eq!(major_key(""), None);
    assert_eq!(major_key("five"), None);
    assert_eq!(major_key(" 5"), None);
}

#[test]
fn first_release_is_x_0_0() {
    let parts = |v: &str| version_parts(v).unwrap();
    assert!(first_release(&parts("3.0.0")));
    assert!(first_release(&parts("3.0.0.7")));
    assert!(!first_release(&parts("3.0.1")));
    assert!(!first_release(&parts("3.1.0")));
    assert!(!first_release(&parts("3.00.0")));
    assert!(!first_release(&parts("3.0.0-rc1")));
}

#[test]
fn add_downloads_starts_and_extends_a_bin() {
    let mut m: StringMap<Summary> = StringMap::new();
    assert!(add_downloads(&mut m, String::from("05"), String::from("5"), 10, None));
    assert!(add_downloads(
        &mut m,
        String::from("05"),
        String::from("five"),
        5,
        Some(String::from("2020-01-01"))
    ));
    assert!(add_downloads(&mut m, String::from("05"), String::from("5"), 1, None));
    assert!(!add_downloads(&mut m, String::from("05"), String::from("5"), u64::MAX, None));
    assert_eq!(m.into_items(), vec![(String::from("05"), summary(16, "5", "2020-01-01"))]);
}
