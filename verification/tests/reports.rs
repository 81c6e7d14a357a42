use kafkastats::cache::ValueCache;
use kafkastats::config::Precision;
use kafkastats::stats_utils::Spread;
use kafkastats::value::{InfluxValue, Piece};

fn empty() -> ValueCache {
    ValueCache::new_at("stats".to_string(), 60, Precision::Second, 1)
}

fn put(c: &mut ValueCache, uid: &str, tag: Option<&str>, name: &str, value: InfluxValue, ts: i64) {
    let set = vec![(name.to_string(), value)];
    c.add_or_update_fields(uid, tag.map(|t| t.to_string()), &set, ts, "m");
}

fn put_int(c: &mut ValueCache, uid: &str, name: &str, ts: i64) {
    put(c, uid, None, name, InfluxValue::I64(4), ts);
}

fn render(report: &[Piece]) -> String {
    report
        .iter()
        .map(|p| match p {
            Piece::Text(t) => t.clone(),
            Piece::Float(bits) => format!("{}", f64::from_bits(*bits)),
            Piece::Deviation(Spread::Undefined) => format!("{:.2}", -1.0),
            Piece::Deviation(Spread::TooLarge) => panic!("too large"),
            Piece::Deviation(Spread::Ratio { squares, divisor }) => {
                format!("{:.2}", (*squares as f64 / *divisor as f64).sqrt())
            }
        })
        .collect()
}

#[test]
fn the_summary_names_uids_tags_and_fields() {
    let mut c = empty();
    assert_eq!(c.uids_and_fields_to_string(), "");
    put(&mut c, "u", Some("T1"), "a", InfluxValue::I64(1), 100);
    put(&mut c, "u", None, "b", InfluxValue::I64(1), 100);
    put(&mut c, "u", None, "c", InfluxValue::I64(1), 100);
    put_int(&mut c, "v", "x", 100);
    assert_eq!(
        c.uids_and_fields_to_string(),
        "Uid: \"u\", equipment-tag: \"T1\"\nFields: a, b, c\n\nUid: \"v\", equipment-tag: \"unknown\"\nFields: x\n\n"
    );
}

#[test]
fn the_full_report_shows_every_field() {
    let mut c = empty();
    assert_eq!(render(&c.everything_to_string()), "");
    put(&mut c, "u", Some("T1"), "a", InfluxValue::I64(-7), 100);
    put(&mut c, "u", None, "a", InfluxValue::I64(-7), 110);
    put(&mut c, "u", None, "b", InfluxValue::Boolean(true), 105);
    assert_eq!(
        render(&c.everything_to_string()),
        concat_lines(&[
            "Uid: \"u\", equipment-tag \"T1\", first seen: \"100\", last seen: \"110\"",
            "Field: \"a\", measurement: \"m\", first seen: 100, last seen: 110, seen count: 2, estimated frequency: 10, ts_differences_mean: 10, differences_stddev: -1.00, value: \"-7\"",
            "",
            "Field: \"b\", measurement: \"m\", first seen: 105, last seen: 105, seen count: 1, estimated frequency: -1, ts_differences_mean: 0, differences_stddev: -1.00, value: \"true\"",
            "",
            "",
        ])
    );
}

fn concat_lines(lines: &[&str]) -> String {
    lines.iter().map(|l| format!("{l}\n")).collect()
}

#[test]
fn a_report_on_a_uid_shows_its_fields() {
    let mut c = empty();
    for ts in [10, 20, 40, 50] {
        put(&mut c, "u", None, "a", InfluxValue::F64(1.5f64.to_bits()), ts);
    }
    put(&mut c, "u", None, "t", InfluxValue::String("x y".to_string()), 50);
    put(&mut c, "u", None, "n", InfluxValue::U64(u64::MAX), 50);
    put(&mut c, "u", None, "no", InfluxValue::Boolean(false), 50);
    assert_eq!(
        render(&c.get_uid_info("u")),
        concat_lines(&[
            "Field: \"a\", measurement: \"m\", first seen: 10, last seen: 50, seen count: 4, estimated frequency: 13, ts_differences_mean: 13, ts_differences_stddev: 5.79, value: \"1.5\"",
            "Field: \"t\", measurement: \"m\", first seen: 50, last seen: 50, seen count: 1, estimated frequency: -1, ts_differences_mean: 0, ts_differences_stddev: -1.00, value: \"x y\"",
            "Field: \"n\", measurement: \"m\", first seen: 50, last seen: 50, seen count: 1, estimated frequency: -1, ts_differences_mean: 0, ts_differences_stddev: -1.00, value: \"18446744073709551615\"",
            "Field: \"no\", measurement: \"m\", first seen: 50, last seen: 50, seen count: 1, estimated frequency: -1, ts_differences_mean: 0, ts_differences_stddev: -1.00, value: \"false\"",
            "",
        ])
    );
    assert_eq!(render(&c.get_uid_info("w")), "Uid not found");
}

#[test]
fn a_report_on_a_field_shows_its_timestamps() {
    let mut c = empty();
    for ts in [10, 20, 40, 50, 60, 70] {
        put_int(&mut c, "u", "a", ts);
    }
    assert_eq!(
        render(&c.get_uid_field_info("u", "m", "a")),
        "Uid: \"u\", measurement: \"m\", last seen: 70, seen_count: 6, ts_differences_mean: 12, ts_differences_stddev: 5.03, last_timestamps: 20, 40, 50, 60, 70"
    );
    assert_eq!(
        render(&c.get_uid_field_info("u", "a", "m")),
        "No fields found for uid u"
    );
    assert_eq!(render(&c.get_uid_field_info("w", "m", "a")), "Uid not found");
}

#[test]
fn the_report_on_what_is_inactive_lists_uids_and_fields() {
    let mut c = empty();
    for ts in [100, 110] {
        put(&mut c, "old", Some("T1"), "b", InfluxValue::I64(1), ts);
        put(&mut c, "old", None, "a", InfluxValue::I64(1), ts);
        let set = vec![("a".to_string(), InfluxValue::I64(1))];
        c.add_or_update_fields("old", None, &set, ts, "l");
        put_int(&mut c, "mixed", "silent", ts);
        put_int(&mut c, "mixed", "loud", ts + 880);
        put_int(&mut c, "fresh", "a", ts + 880);
    }
    assert_eq!(
        c.list_inactive_at(None, 1000),
        concat_lines(&[
            "Inactive Uid (no data at all for more than 60 seconds, current age is 890 seconds): uid old equipment-tag T1",
            "Fields expected for Uid \"old\":",
            "\"a\" (measurement: \"l\", age: 890)",
            "\"a\" (measurement: \"m\", age: 890)",
            "\"b\" (measurement: \"m\", age: 890)",
            "",
            "Inactive fields (no field data for more than 60 seconds) for Uid \"mixed\" equipment-tag \"unknown\":",
            "\"silent\" (measurement: \"m\", age: 890)",
            "",
        ])
    );
    assert_eq!(c.list_inactive_at(Some(2000), 1000), "");
    assert!(c.list_inactive(None).contains("uid fresh equipment-tag unknown"));
}

#[test]
fn a_uid_without_fields_is_listed_as_inactive() {
    let mut c = empty();
    c.add_or_update_fields("bare", None, &Vec::new(), 100, "m");
    assert_eq!(
        c.list_inactive_at(Some(5), 90),
        "Inactive Uid (no data at all for more than 5 seconds, current age is -10 seconds): uid bare equipment-tag unknown\n"
    );
}

#[test]
fn fields_behind_their_uid_are_reported() {
    let mut c = empty();
    put(&mut c, "u", Some("T1"), "a", InfluxValue::I64(1), 100);
    assert_eq!(c.get_field_and_uid_ts_mismatches(), "");
    put(&mut c, "u", None, "b", InfluxValue::I64(1), 120);
    put_int(&mut c, "v", "x", 7);
    put_int(&mut c, "v", "y", 8);
    assert_eq!(
        c.get_field_and_uid_ts_mismatches(),
        "Uid \"u\" (equipment-tag T1) last seen 120, but field \"a\" last seen 100\nUid \"v\" (equipment-tag unknown) last seen 8, but field \"x\" last seen 7\n"
    );
}
