use kafkastats::cache::{FieldInfo, UidInfo, ValueCache};
use kafkastats::config::Precision;
use kafkastats::value::InfluxValue;

fn empty() -> ValueCache {
    ValueCache::new_at("stats".to_string(), 60, Precision::Second, 1)
}

fn ints(items: &[(&str, i64)]) -> Vec<(String, InfluxValue)> {
    items
        .iter()
        .map(|(k, v)| (k.to_string(), InfluxValue::I64(*v)))
        .collect()
}

fn floats(items: &[(&str, f64)]) -> Vec<(String, InfluxValue)> {
    items
        .iter()
        .map(|(k, v)| (k.to_string(), InfluxValue::F64(v.to_bits())))
        .collect()
}

fn put(c: &mut ValueCache, uid: &str, items: &[(&str, i64)], ts: i64) {
    c.add_or_update_fields(uid, None, &ints(items), ts, "m");
}

fn uid<'a>(c: &'a ValueCache, name: &str) -> &'a UidInfo {
    c.uid(name).unwrap()
}

fn field<'a>(c: &'a ValueCache, name: &str, key: &str) -> &'a FieldInfo {
    uid(c, name).field(key, "m").unwrap()
}

/// Initial, changed, timed out, suppressed, and all.
fn tally(c: &ValueCache) -> (usize, usize, usize, usize, usize) {
    let t = c.totals();
    assert_eq!(t.fields_changed_count, t.fields_sent_changed_count);
    (
        t.fields_sent_initial_count,
        t.fields_sent_changed_count,
        t.fields_sent_timeout_count,
        t.fields_sent_suppressed_count,
        t.fields_seen_count,
    )
}

#[test]
fn a_new_cache_has_seen_nothing() {
    let c = ValueCache::new_at("out".to_string(), 90, Precision::Nanosecond, 77);
    let t = c.totals();
    assert_eq!(t.created_timestamp, 77);
    assert_eq!(t.first_value_ts, i64::MAX);
    assert_eq!(t.last_value_ts, i64::MIN);
    assert_eq!(t.kafka_message_count, 0);
    assert_eq!(t.ilp_line_count, 0);
    assert_eq!(tally(&c), (0, 0, 0, 0, 0));
    assert_eq!(c.output_measurement(), "out");
    assert_eq!(c.precision(), Precision::Nanosecond);
    assert_eq!(c.added_seconds(None), 90);
    assert_eq!(c.added_seconds(Some(3)), 3);
    assert!(c.uids().is_empty());
    assert!(c.uid("u").is_none());
}

#[test]
fn a_new_cache_is_stamped_by_the_clock() {
    let c = ValueCache::new("out".to_string(), 60, Precision::Second);
    assert!(c.totals().created_timestamp > 1_600_000_000);
}

#[test]
fn the_first_line_of_a_uid_makes_its_fields() {
    let mut c = empty();
    c.add_or_update_fields(
        "u",
        Some("tag".to_string()),
        &ints(&[("a", 1), ("b", 2)]),
        100,
        "m",
    );
    assert_eq!(tally(&c), (2, 0, 0, 0, 2));
    let u = uid(&c, "u");
    assert_eq!(u.uid, "u");
    assert_eq!((u.first_seen_ts, u.last_seen_ts, u.seen_count), (100, 100, 1));
    assert_eq!(u.equipment_tag.as_deref(), Some("tag"));
    assert_eq!(u.fields.len(), 2);
    let b = field(&c, "u", "b");
    assert_eq!((b.name.as_str(), b.measurement.as_str()), ("b", "m"));
    assert!(b.value == InfluxValue::I64(2));
    assert_eq!((b.first_seen_ts, b.last_seen_ts), (100, 100));
    assert_eq!((b.last_changed_ts, b.last_sent_ts), (100, 100));
    assert_eq!((b.seen_count, b.changed_count), (1, 0));
    assert_eq!(b.last_5_ts.to_string(), "100");
    assert_eq!(c.totals().first_value_ts, 100);
    assert_eq!(c.totals().last_value_ts, 100);
}

#[test]
fn a_name_that_the_first_line_repeats_holds_the_last_value() {
    let mut c = empty();
    put(&mut c, "u", &[("a", 1), ("a", 2)], 100);
    assert_eq!(tally(&c), (2, 0, 0, 0, 2));
    assert_eq!(uid(&c, "u").fields.len(), 1);
    let a = field(&c, "u", "a");
    assert!(a.value == InfluxValue::I64(2));
    assert_eq!((a.seen_count, a.changed_count), (1, 0));
}

#[test]
fn a_name_that_a_later_line_repeats_is_updated_twice() {
    let mut c = empty();
    put(&mut c, "u", &[("a", 1)], 100);
    put(&mut c, "u", &[("a", 2), ("a", 3)], 101);
    assert_eq!(tally(&c), (1, 2, 0, 0, 3));
    let a = field(&c, "u", "a");
    assert!(a.value == InfluxValue::I64(3));
    assert_eq!((a.seen_count, a.changed_count), (3, 2));
    assert_eq!(a.last_5_ts.to_string(), "100, 101, 101");
}

#[test]
fn a_changed_value_is_sent() {
    let mut c = empty();
    put(&mut c, "u", &[("a", 1)], 100);
    put(&mut c, "u", &[("a", 2)], 110);
    assert_eq!(tally(&c), (1, 1, 0, 0, 2));
    let a = field(&c, "u", "a");
    assert!(a.value == InfluxValue::I64(2));
    assert_eq!((a.last_changed_ts, a.last_sent_ts), (110, 110));
    assert_eq!((a.seen_count, a.changed_count), (2, 1));
}

#[test]
fn an_unchanged_value_is_held_back_for_a_minute() {
    let mut c = empty();
    put(&mut c, "u", &[("a", 1)], 100);
    put(&mut c, "u", &[("a", 1)], 159);
    assert_eq!(tally(&c), (1, 0, 0, 1, 2));
    assert_eq!(field(&c, "u", "a").last_sent_ts, 100);
    assert_eq!(field(&c, "u", "a").last_seen_ts, 159);
    put(&mut c, "u", &[("a", 1)], 160);
    assert_eq!(tally(&c), (1, 0, 1, 1, 3));
    assert_eq!(field(&c, "u", "a").last_sent_ts, 160);
    assert_eq!(field(&c, "u", "a").last_changed_ts, 100);
    put(&mut c, "u", &[("a", 1)], 219);
    assert_eq!(tally(&c), (1, 0, 1, 2, 4));
    assert_eq!(field(&c, "u", "a").seen_count, 4);
    assert_eq!(field(&c, "u", "a").changed_count, 0);
}

#[test]
fn a_nan_is_always_sent() {
    let mut c = empty();
    let nan = floats(&[("a", f64::NAN)]);
    c.add_or_update_fields("u", None, &nan, 100, "m");
    c.add_or_update_fields("u", None, &nan, 101, "m");
    c.add_or_update_fields("u", None, &nan, 102, "m");
    assert_eq!(tally(&c), (1, 2, 0, 0, 3));
}

#[test]
fn the_two_zeros_are_the_same_value() {
    let mut c = empty();
    c.add_or_update_fields("u", None, &floats(&[("a", 0.0)]), 100, "m");
    c.add_or_update_fields("u", None, &floats(&[("a", -0.0)]), 101, "m");
    assert_eq!(tally(&c), (1, 0, 0, 1, 2));
    assert!(matches!(field(&c, "u", "a").value, InfluxValue::F64(0x8000_0000_0000_0000)));
}

#[test]
fn a_value_of_another_kind_is_a_change() {
    let mut c = empty();
    put(&mut c, "u", &[("a", 1)], 100);
    c.add_or_update_fields(
        "u",
        None,
        &vec![("a".to_string(), InfluxValue::U64(1))],
        101,
        "m",
    );
    assert_eq!(tally(&c), (1, 1, 0, 0, 2));
}

#[test]
fn a_field_that_appears_later_is_initial() {
    let mut c = empty();
    put(&mut c, "u", &[("a", 1)], 100);
    put(&mut c, "u", &[("b", 1)], 110);
    assert_eq!(tally(&c), (2, 0, 0, 0, 2));
    let names: Vec<&str> = uid(&c, "u").fields.iter().map(|f| f.name.as_str()).collect();
    assert_eq!(names, vec!["a", "b"]);
    assert_eq!(field(&c, "u", "b").first_seen_ts, 110);
}

#[test]
fn a_field_is_known_by_name_and_measurement() {
    let mut c = empty();
    c.add_or_update_fields("u", None, &ints(&[("a", 1)]), 100, "m");
    c.add_or_update_fields("u", None, &ints(&[("a", 2)]), 101, "n");
    assert_eq!(tally(&c), (2, 0, 0, 0, 2));
    assert!(uid(&c, "u").field("a", "m").unwrap().value == InfluxValue::I64(1));
    assert!(uid(&c, "u").field("a", "n").unwrap().value == InfluxValue::I64(2));
    assert!(uid(&c, "u").field("a", "o").is_none());
    assert!(uid(&c, "u").field("m", "a").is_none());
}

#[test]
fn what_was_written_is_read_back() {
    let mut c = empty();
    put(&mut c, "u", &[("a", 1), ("b", 2)], 100);
    put(&mut c, "v", &[("a", 3)], 100);
    put(&mut c, "u", &[("b", 4), ("c", 5), ("b", 6)], 101);
    assert!(field(&c, "u", "a").value == InfluxValue::I64(1));
    assert!(field(&c, "u", "b").value == InfluxValue::I64(6));
    assert!(field(&c, "u", "c").value == InfluxValue::I64(5));
    assert!(field(&c, "v", "a").value == InfluxValue::I64(3));
}

#[test]
fn other_uids_and_fields_stay_as_they_are() {
    let mut c = empty();
    put(&mut c, "u", &[("a", 1), ("b", 2)], 100);
    put(&mut c, "v", &[("a", 3)], 100);
    let v = format!("{:?}", uid(&c, "v"));
    let b = format!("{:?}", field(&c, "u", "b"));
    put(&mut c, "u", &[("a", 9)], 150);
    assert_eq!(format!("{:?}", uid(&c, "v")), v);
    assert_eq!(format!("{:?}", field(&c, "u", "b")), b);
}

#[test]
fn the_equipment_tag_stays_as_the_first_line_gave_it() {
    let mut c = empty();
    c.add_or_update_fields("u", Some("one".to_string()), &ints(&[("a", 1)]), 100, "m");
    c.add_or_update_fields("u", Some("two".to_string()), &ints(&[("a", 1)]), 101, "m");
    c.add_or_update_fields("v", None, &ints(&[("a", 1)]), 100, "m");
    c.add_or_update_fields("v", Some("two".to_string()), &ints(&[("a", 1)]), 101, "m");
    assert_eq!(uid(&c, "u").equipment_tag.as_deref(), Some("one"));
    assert_eq!(uid(&c, "v").equipment_tag, None);
    assert_eq!(uid(&c, "u").seen_count, 2);
}

#[test]
fn a_late_line_moves_no_last_timestamp_back() {
    let mut c = empty();
    put(&mut c, "u", &[("a", 1)], 100);
    put(&mut c, "u", &[("a", 2)], 50);
    let a = field(&c, "u", "a");
    assert_eq!((a.first_seen_ts, a.last_seen_ts), (100, 100));
    assert_eq!((a.last_changed_ts, a.last_sent_ts), (50, 50));
    assert_eq!(a.last_5_ts.to_string(), "100, 50");
    assert_eq!(uid(&c, "u").last_seen_ts, 100);
    assert_eq!(c.totals().first_value_ts, 50);
    assert_eq!(c.totals().last_value_ts, 100);
}

#[test]
fn extreme_timestamps_do_not_overflow() {
    let mut c = empty();
    put(&mut c, "u", &[("a", 1)], i64::MAX);
    put(&mut c, "u", &[("a", 1)], i64::MIN);
    assert_eq!(tally(&c), (1, 0, 0, 1, 2));
    assert_eq!(field(&c, "u", "a").estimated_frequency(), 0);
    put(&mut c, "v", &[("a", 1)], i64::MIN);
    put(&mut c, "v", &[("a", 1)], i64::MAX);
    assert_eq!(
        field(&c, "v", "a").estimated_frequency(),
        i64::MAX as i128 - i64::MIN as i128
    );
}

#[test]
fn a_line_without_values_makes_a_uid_without_fields() {
    let mut c = empty();
    put(&mut c, "u", &[], 100);
    assert_eq!(tally(&c), (0, 0, 0, 0, 0));
    assert_eq!(uid(&c, "u").fields.len(), 0);
    assert!(uid(&c, "u").is_inactive_at(0, 100));
}

#[test]
fn every_value_is_accounted_for_once() {
    let mut c = empty();
    for i in 0..200i64 {
        put(
            &mut c,
            if i % 3 == 0 { "u" } else { "v" },
            &[("a", i % 2), ("b", 7), ("a", i % 5)],
            1000 + 7 * i,
        );
        let t = tally(&c);
        assert_eq!(t.0 + t.1 + t.2 + t.3, t.4);
        assert_eq!(t.4 as i64, 3 * (i + 1));
    }
}

#[test]
fn messages_and_lines_are_counted() {
    let mut c = empty();
    c.count_message();
    c.count_message();
    c.count_line();
    assert_eq!(c.totals().kafka_message_count, 2);
    assert_eq!(c.totals().ilp_line_count, 1);
}

#[test]
fn there_is_room_for_a_line_that_fits() {
    let mut c = empty();
    assert!(c.has_room("u", usize::MAX));
    put(&mut c, "u", &[("a", 1)], 100);
    assert!(c.has_room("u", usize::MAX - 1));
    assert!(!c.has_room("u", usize::MAX));
    assert!(!c.has_room("v", usize::MAX));
}

#[test]
fn uids_stand_in_the_order_in_which_they_were_first_seen() {
    let mut c = empty();
    for name in ["z", "a", "m", "a", "z"] {
        put(&mut c, name, &[("f", 1)], 100);
    }
    let names: Vec<&str> = c.uids().iter().map(|u| u.uid.as_str()).collect();
    assert_eq!(names, vec!["z", "a", "m"]);
}
