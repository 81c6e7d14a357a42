use kafkastats::api;
use kafkastats::api::{Reply, Status};
use kafkastats::cache::ValueCache;
use kafkastats::config::Precision;
use kafkastats::value::{InfluxValue, Piece};

fn put(c: &mut ValueCache, uid: &str, items: &[(&str, i64)], ts: i64) {
    let set: Vec<(String, InfluxValue)> = items
        .iter()
        .map(|(k, v)| (k.to_string(), InfluxValue::I64(*v)))
        .collect();
    c.add_or_update_fields(uid, None, &set, ts, "m");
}

fn sample() -> ValueCache {
    let mut c = ValueCache::new_at("stats".to_string(), 60, Precision::Second, 1);
    put(&mut c, "u", &[("a", 1)], 100);
    put(&mut c, "u", &[("a", 2)], 130);
    put(&mut c, "v", &[("a", 1), ("b", 1)], 100);
    c
}

/// The status and the text of a reply that is all text.
fn told(r: &Reply) -> (Status, String) {
    let text: String = r
        .body
        .iter()
        .map(|p| match p {
            Piece::Text(t) => t.clone(),
            other => format!("<{other:?}>"),
        })
        .collect();
    (r.status, text)
}

fn ok(text: &str) -> (Status, String) {
    (Status::Success, text.to_string())
}

#[test]
fn every_request_fails_where_the_cache_cannot_be_locked() {
    let failed = (
        Status::InternalServerError,
        "Couldn't lock mutex".to_string(),
    );
    assert_eq!(told(&Reply::lock_failed()), failed);
    assert_eq!(told(&api::root(None)), failed);
    assert_eq!(told(&api::uid_count_last_minute(None)), failed);
    assert_eq!(told(&api::field_count_last_minute(None)), failed);
    assert_eq!(told(&api::everything(None)), failed);
    assert_eq!(told(&api::uidinfo("u", None)), failed);
    assert_eq!(told(&api::uidfieldinfo("u", "m", "a", None)), failed);
    assert_eq!(told(&api::stats(None, Some("h"))), failed);
    assert_eq!(told(&api::list_inactive(None)), failed);
    assert_eq!(told(&api::remove_inactive(None)), failed);
    assert_eq!(told(&api::remove_inactive_uid("u", None)), failed);
    assert_eq!(told(&api::unique_field_names(None)), failed);
    assert_eq!(told(&api::count_changed_fields_last_seconds("5", None)), failed);
    assert_eq!(told(&api::least_changed_fields("5", None)), failed);
}

#[test]
fn the_root_shows_the_summary() {
    let c = sample();
    assert_eq!(told(&api::root(Some(&c))), ok(&c.uids_and_fields_to_string()));
}

#[test]
fn the_last_minute_is_counted() {
    let c = sample();
    assert_eq!(told(&api::uid_count_last_minute_at(Some(&c), 160)), ok("2"));
    assert_eq!(told(&api::uid_count_last_minute_at(Some(&c), 161)), ok("1"));
    assert_eq!(told(&api::field_count_last_minute_at(Some(&c), 160)), ok("3"));
    assert_eq!(told(&api::field_count_last_minute_at(Some(&c), 161)), ok("1"));
    assert_eq!(told(&api::uid_count_last_minute(Some(&c))), ok("0"));
    assert_eq!(told(&api::field_count_last_minute(Some(&c))), ok("0"));
}

#[test]
fn reports_on_uids_and_fields_are_given() {
    let c = sample();
    assert_eq!(told(&api::uidinfo("w", Some(&c))), ok("Uid not found"));
    assert_eq!(
        told(&api::uidfieldinfo("v", "m", "z", Some(&c))),
        ok("No fields found for uid v")
    );
    assert_eq!(
        told(&api::uidfieldinfo("u", "m", "a", Some(&c))),
        ok("Uid: \"u\", measurement: \"m\", last seen: 130, seen_count: 2, ts_differences_mean: 30, ts_differences_stddev: <Deviation(Undefined)>, last_timestamps: 100, 130")
    );
    assert_eq!(told(&api::uidinfo("u", Some(&c))).0, Status::Success);
    assert!(told(&api::everything(Some(&c))).1.starts_with("Uid: \"u\""));
}

#[test]
fn statistics_wait_for_data() {
    let c = ValueCache::new_at("stats".to_string(), 60, Precision::Second, 1);
    assert_eq!(
        told(&api::stats_at(Some(&c), None, 300)),
        ok("Not enough data collected")
    );
    assert_eq!(
        told(&api::stats(Some(&c), None)),
        ok("Not enough data collected")
    );
}

#[test]
fn statistics_are_one_line_of_the_line_protocol() {
    let mut c = sample();
    c.count_message();
    c.count_message();
    c.count_line();
    c.count_line();
    c.count_line();
    let numbers = " timeperiod_length_seconds=30,uid_all_count=2,uid_inactive_count=2,uid_plus_field_combination_count=3,uid_field_inactive_count=1,uid_age_min=170,uid_age_max=200,uid_age_mean=185,kafka_message_count=2,ilp_line_count=3,field_count=4,changed_fields_count=1,unique_field_name_count=2,fields_sent_initial_count=3,fields_sent_suppressed_count=0,fields_sent_changed_count=1,fields_sent_timeout=0\n";
    assert_eq!(
        told(&api::stats_at(Some(&c), Some("h"), 300)),
        ok(&format!("stats,host=h{numbers}"))
    );
    assert_eq!(
        told(&api::stats_at(Some(&c), None, 300)),
        ok(&format!("stats{numbers}"))
    );
    assert!(told(&api::stats(Some(&c), None)).1.starts_with("stats timeperiod_length_seconds=30,"));
}

#[test]
fn what_is_inactive_is_listed() {
    let c = sample();
    assert_eq!(
        told(&api::list_inactive_at(Some(&c), 300)),
        ok(&c.list_inactive_at(None, 300))
    );
    assert_eq!(told(&api::list_inactive_at(Some(&c), 200)), ok(""));
    assert!(told(&api::list_inactive(Some(&c))).1.contains("uid u equipment-tag unknown"));
}

#[test]
fn what_is_inactive_is_removed() {
    let mut c = sample();
    assert_eq!(
        told(&api::remove_inactive_at(Some(&mut c), 300)),
        ok("Inactive uid removed: 1, fields count for these uids: 1\nInactive fields in active uids removed: 0")
    );
    assert!(c.uid("u").is_none());
    assert!(c.uid("v").is_some());
    let mut d = sample();
    assert_eq!(
        told(&api::remove_inactive(Some(&mut d))),
        ok("Inactive uid removed: 1, fields count for these uids: 1\nInactive fields in active uids removed: 0")
    );
}

#[test]
fn one_uid_is_removed_where_it_is_inactive() {
    let mut c = sample();
    assert_eq!(
        told(&api::remove_inactive_uid_at("u", Some(&mut c), 200)),
        ok("UID was not inactive and was not removed: Uid u was not inactive")
    );
    assert_eq!(
        told(&api::remove_inactive_uid_at("w", Some(&mut c), 200)),
        ok("UID was not inactive and was not removed: UID not found")
    );
    assert_eq!(
        told(&api::remove_inactive_uid_at("u", Some(&mut c), 300)),
        ok("Removed inactive UID: u")
    );
    assert_eq!(
        told(&api::remove_inactive_uid("v", Some(&mut c))),
        ok("UID was not inactive and was not removed: Uid v was not inactive")
    );
}

#[test]
fn field_name_counts_are_told() {
    let c = sample();
    assert_eq!(
        told(&api::unique_field_names(Some(&c))),
        ok("total_count=3,unique_count=2")
    );
}

#[test]
fn changed_field_counts_are_told() {
    let c = sample();
    assert_eq!(
        told(&api::count_changed_fields_last_seconds_at("30", Some(&c), 130)),
        ok("changed_fields_last_30_seconds_count=3")
    );
    assert_eq!(
        told(&api::count_changed_fields_last_seconds_at("+29", Some(&c), 130)),
        ok("changed_fields_last_29_seconds_count=1")
    );
    assert_eq!(
        told(&api::count_changed_fields_last_seconds_at("-1", Some(&c), 130)),
        ok("changed_fields_last_-1_seconds_count=0")
    );
    assert_eq!(
        told(&api::count_changed_fields_last_seconds("60", Some(&c))),
        ok("changed_fields_last_60_seconds_count=0")
    );
}

#[test]
fn seconds_that_are_no_number_are_refused() {
    let c = sample();
    for bad in ["", "x", "1.5", " 1", "9223372036854775808", "--1", "+"] {
        let refused = (
            Status::UnprocessableEntity,
            format!("Couldn't parse {bad} into i64"),
        );
        assert_eq!(told(&api::count_changed_fields_last_seconds(bad, Some(&c))), refused);
        assert_eq!(told(&api::count_changed_fields_last_seconds(bad, None)), refused);
    }
}

#[test]
fn the_least_changed_fields_are_told() {
    let c = sample();
    assert_eq!(
        told(&api::least_changed_fields("10", Some(&c))),
        ok("a: 0\nb: 0\na: 1\n")
    );
    assert_eq!(told(&api::least_changed_fields("1", Some(&c))), ok("a: 0\n"));
    assert_eq!(told(&api::least_changed_fields("0", Some(&c))), ok(""));
}

#[test]
fn a_count_that_is_no_number_is_refused() {
    let c = sample();
    for bad in ["", "x", "-1", "18446744073709551616", "1 "] {
        let refused = (
            Status::UnprocessableEntity,
            format!("Couldn't parse {bad} into usize"),
        );
        assert_eq!(told(&api::least_changed_fields(bad, Some(&c))), refused);
        assert_eq!(told(&api::least_changed_fields(bad, None)), refused);
    }
}
