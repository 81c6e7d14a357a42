use kafkastats::cache::ValueCache;
use kafkastats::config::Precision;
use kafkastats::value::InfluxValue;

fn put(c: &mut ValueCache, uid: &str, names: &[&str], ts: i64) {
    let set: Vec<(String, InfluxValue)> = names
        .iter()
        .map(|n| (n.to_string(), InfluxValue::I64(1)))
        .collect();
    c.add_or_update_fields(uid, None, &set, ts, "m");
}

/// `old` has two inactive fields, `mixed` an inactive one and an active one, `once` a field that
/// was seen once, and `fresh` an active one, all at 1000.
fn sample() -> ValueCache {
    let mut c = ValueCache::new_at("stats".to_string(), 60, Precision::Second, 1);
    put(&mut c, "old", &["a", "b"], 100);
    put(&mut c, "old", &["a", "b"], 110);
    put(&mut c, "mixed", &["silent", "loud"], 100);
    put(&mut c, "mixed", &["silent", "loud"], 110);
    put(&mut c, "mixed", &["loud"], 990);
    put(&mut c, "once", &["a"], 100);
    put(&mut c, "fresh", &["a"], 980);
    put(&mut c, "fresh", &["a"], 990);
    c
}

fn names(c: &ValueCache) -> Vec<String> {
    c.uids()
        .iter()
        .map(|u| {
            let fields: Vec<&str> = u.fields.iter().map(|f| f.name.as_str()).collect();
            format!("{}:{}", u.uid, fields.join("+"))
        })
        .collect()
}

#[test]
fn removal_takes_out_what_is_inactive_and_tells_how_much() {
    let mut c = sample();
    assert_eq!(names(&c), vec!["old:a+b", "mixed:silent+loud", "once:a", "fresh:a"]);
    let told = c.remove_inactive_uids_and_fields_at(None, 1000);
    assert_eq!(
        told,
        "Inactive uid removed: 1, fields count for these uids: 2\nInactive fields in active uids removed: 1"
    );
    assert_eq!(names(&c), vec!["mixed:loud", "once:a", "fresh:a"]);
    assert!(c.uid("old").is_none());
    assert_eq!(c.uid("fresh").unwrap().uid, "fresh");
    assert_eq!(c.uid("mixed").unwrap().fields.len(), 1);
}

#[test]
fn removal_counts_add_up() {
    let mut c = sample();
    let uids = c.total_uid_count();
    let fields = c.total_field_count();
    let _ = c.remove_inactive_uids_and_fields_at(None, 1000);
    assert_eq!(uids, c.total_uid_count() + 1);
    assert_eq!(fields, c.total_field_count() + 2 + 1);
}

#[test]
fn a_second_removal_removes_nothing() {
    let mut c = sample();
    let _ = c.remove_inactive_uids_and_fields_at(None, 1000);
    let left = names(&c);
    let told = c.remove_inactive_uids_and_fields_at(None, 1000);
    assert_eq!(
        told,
        "Inactive uid removed: 0, fields count for these uids: 0\nInactive fields in active uids removed: 0"
    );
    assert_eq!(names(&c), left);
}

#[test]
fn nothing_inactive_is_reported_after_a_removal() {
    let mut c = sample();
    assert!(!c.list_inactive_at(None, 1000).is_empty());
    let _ = c.remove_inactive_uids_and_fields_at(None, 1000);
    assert_eq!(c.list_inactive_at(None, 1000), "");
    assert_eq!(c.inactive_field_count_at(None, 1000), 0);
    assert!(c.uids().iter().all(|u| !u.is_inactive_at(60, 1000)));
}

#[test]
fn removal_keeps_the_totals() {
    let mut c = sample();
    let before = format!("{:?}", c.totals());
    let _ = c.remove_inactive_uids_and_fields_at(Some(0), 1000);
    assert_eq!(format!("{:?}", c.totals()), before);
}

#[test]
fn given_seconds_take_the_place_of_the_threshold() {
    let mut c = sample();
    let _ = c.remove_inactive_uids_and_fields_at(Some(880), 1000);
    assert_eq!(names(&c).len(), 4);
    let _ = c.remove_inactive_uids_and_fields_at(Some(879), 1000);
    assert_eq!(names(&c), vec!["mixed:loud", "once:a", "fresh:a"]);
}

#[test]
fn an_inactive_uid_is_removed_by_name() {
    let mut c = sample();
    assert_eq!(c.remove_uid_if_inactive_at("old", None, 1000), Ok(()));
    assert_eq!(names(&c), vec!["mixed:silent+loud", "once:a", "fresh:a"]);
    assert!(c.uid("old").is_none());
    assert_eq!(c.uid("mixed").unwrap().uid, "mixed");
    assert_eq!(c.uid("fresh").unwrap().uid, "fresh");
    assert_eq!(
        c.remove_uid_if_inactive_at("old", None, 1000),
        Err("UID not found".to_string())
    );
}

#[test]
fn an_active_uid_is_not_removed() {
    let mut c = sample();
    let before = names(&c);
    assert_eq!(
        c.remove_uid_if_inactive_at("mixed", None, 1000),
        Err("Uid mixed was not inactive".to_string())
    );
    assert_eq!(
        c.remove_uid_if_inactive_at("once", None, i64::MAX),
        Err("Uid once was not inactive".to_string())
    );
    assert_eq!(names(&c), before);
}

#[test]
fn an_unknown_uid_is_not_removed() {
    let mut c = sample();
    assert_eq!(
        c.remove_uid_if_inactive_at("nobody", None, 1000),
        Err("UID not found".to_string())
    );
    assert_eq!(names(&c).len(), 4);
}

#[test]
fn removals_by_the_clock_see_that_the_sample_is_long_silent() {
    let mut c = sample();
    assert_eq!(c.remove_uid_if_inactive("fresh", None), Ok(()));
    assert_eq!(
        c.remove_inactive_uids_and_fields(None),
        "Inactive uid removed: 2, fields count for these uids: 4\nInactive fields in active uids removed: 0"
    );
    assert_eq!(names(&c), vec!["once:a"]);
}

#[test]
fn a_removed_uid_starts_anew() {
    let mut c = sample();
    let _ = c.remove_uid_if_inactive_at("old", None, 1000);
    put(&mut c, "old", &["b"], 1001);
    assert_eq!(names(&c).last().unwrap(), "old:b");
    assert_eq!(c.uid("old").unwrap().seen_count, 1);
    assert_eq!(c.uid("old").unwrap().first_seen_ts, 1001);
}
