use kafkastats::cache::ValueCache;
use kafkastats::config::Precision;
use kafkastats::value::InfluxValue;

fn empty() -> ValueCache {
    ValueCache::new_at("stats".to_string(), 60, Precision::Second, 1)
}

fn put(c: &mut ValueCache, uid: &str, items: &[(&str, i64)], ts: i64) {
    let set: Vec<(String, InfluxValue)> = items
        .iter()
        .map(|(k, v)| (k.to_string(), InfluxValue::I64(*v)))
        .collect();
    c.add_or_update_fields(uid, None, &set, ts, "m");
}

#[test]
fn the_frequency_is_the_mean_time_between_values() {
    let mut c = empty();
    put(&mut c, "u", &[("a", 1)], 100);
    assert_eq!(c.uids()[0].fields[0].estimated_frequency(), -1);
    put(&mut c, "u", &[("a", 1)], 110);
    assert_eq!(c.uids()[0].fields[0].estimated_frequency(), 10);
    put(&mut c, "u", &[("a", 1)], 115);
    assert_eq!(c.uids()[0].fields[0].estimated_frequency(), 7);
}

#[test]
fn a_field_is_inactive_past_its_frequency_and_the_added_seconds() {
    let mut c = empty();
    put(&mut c, "u", &[("a", 1)], 100);
    put(&mut c, "u", &[("a", 1)], 110);
    let f = &c.uids()[0].fields[0];
    assert!(!f.is_inactive_at(60, 180));
    assert!(f.is_inactive_at(60, 181));
    assert!(!f.is_inactive_at(61, 181));
    assert!(f.is_inactive_at(0, 121));
    assert!(!f.is_inactive_at(0, 120));
    assert!(!f.is_inactive_at(u64::MAX, i64::MAX));
}

#[test]
fn a_field_that_was_seen_once_is_never_inactive() {
    let mut c = empty();
    put(&mut c, "u", &[("a", 1)], 100);
    assert!(!c.uids()[0].fields[0].is_inactive_at(0, i64::MAX));
    assert!(!c.uids()[0].fields[0].is_inactive(0));
    assert!(!c.uids()[0].is_inactive(0));
}

#[test]
fn inactivity_grows_with_time_and_shrinks_with_the_added_seconds() {
    let mut c = empty();
    put(&mut c, "u", &[("a", 1)], 100);
    put(&mut c, "u", &[("a", 1)], 130);
    let u = &c.uids()[0];
    for now in 100..400 {
        for added in 0..100 {
            if u.is_inactive_at(added, now) {
                assert!(u.is_inactive_at(added, now + 1));
                assert!(added == 0 || u.is_inactive_at(added - 1, now));
            }
        }
    }
}

#[test]
fn a_uid_is_inactive_once_all_its_fields_are() {
    let mut c = empty();
    put(&mut c, "u", &[("a", 1), ("b", 1)], 100);
    put(&mut c, "u", &[("a", 1), ("b", 1)], 110);
    put(&mut c, "u", &[("b", 1)], 300);
    let u = &c.uids()[0];
    assert!(u.fields[0].is_inactive_at(60, 310));
    assert!(!u.fields[1].is_inactive_at(60, 310));
    assert!(!u.is_inactive_at(60, 310));
    assert!(u.is_inactive_at(60, 1000));
    assert!(u.is_inactive(60));
    assert!(u.fields[0].is_inactive(60));
}

#[test]
fn uids_seen_lately_are_counted() {
    let mut c = empty();
    put(&mut c, "u", &[("a", 1)], 100);
    put(&mut c, "v", &[("a", 1)], 150);
    assert_eq!(c.uid_count_last_seconds_at(60, 160), 2);
    assert_eq!(c.uid_count_last_seconds_at(60, 161), 1);
    assert_eq!(c.uid_count_last_seconds_at(60, 211), 0);
    assert_eq!(c.uid_count_last_seconds_at(-10, 110), 1);
    assert_eq!(c.uid_count_last_seconds_at(i64::MIN, i64::MAX), 0);
    assert_eq!(c.uid_count_last_seconds_at(i64::MAX, i64::MIN), 2);
    assert_eq!(c.total_uid_count(), 2);
    assert_eq!(c.uid_count_last_seconds(60), 0);
    assert_eq!(c.uid_count_last_seconds(i64::MAX), 2);
}

#[test]
fn silent_uids_are_counted_whatever_their_frequency() {
    let mut c = empty();
    put(&mut c, "once", &[("a", 1)], 100);
    put(&mut c, "slow", &[("a", 1)], 0);
    put(&mut c, "slow", &[("a", 1)], 100);
    put(&mut c, "late", &[("a", 1)], 150);
    assert_eq!(c.inactive_uid_count_at(None, 160), 0);
    assert_eq!(c.inactive_uid_count_at(None, 161), 2);
    assert_eq!(c.inactive_uid_count_at(Some(10), 161), 3);
    assert_eq!(c.inactive_uid_count_at(Some(u64::MAX), i64::MAX), 0);
    assert_eq!(c.inactive_uid_count(None), 3);
}

#[test]
fn every_uid_was_seen_lately_or_is_silent() {
    let mut c = empty();
    for i in 0..20i64 {
        put(&mut c, &format!("u{i}"), &[("a", 1)], 100 + 5 * i);
    }
    for seconds in 0..200u64 {
        assert_eq!(
            c.uid_count_last_seconds_at(seconds as i64, 210)
                + c.inactive_uid_count_at(Some(seconds), 210),
            20
        );
    }
}

#[test]
fn fields_seen_lately_are_counted() {
    let mut c = empty();
    put(&mut c, "u", &[("a", 1), ("b", 1)], 100);
    put(&mut c, "u", &[("a", 1)], 150);
    put(&mut c, "v", &[("a", 1)], 90);
    assert_eq!(c.field_count_last_seconds_at(60, 150), 3);
    assert_eq!(c.field_count_last_seconds_at(50, 150), 2);
    assert_eq!(c.field_count_last_seconds_at(49, 150), 1);
    assert_eq!(c.field_count_last_seconds_at(0, 151), 0);
    assert_eq!(c.total_field_count(), 3);
    assert_eq!(c.field_count_last_seconds(60), 0);
    assert_eq!(c.field_count_last_seconds(i64::MAX), 3);
}

#[test]
fn inactive_fields_of_repeated_uids_are_counted() {
    let mut c = empty();
    put(&mut c, "u", &[("a", 1), ("b", 1)], 100);
    assert_eq!(c.inactive_field_count_at(None, 1000), 0);
    put(&mut c, "u", &[("a", 1)], 110);
    assert_eq!(c.inactive_field_count_at(None, 1000), 1);
    put(&mut c, "u", &[("b", 1)], 120);
    assert_eq!(c.inactive_field_count_at(None, 1000), 2);
    assert_eq!(c.inactive_field_count_at(Some(900), 1000), 0);
    assert_eq!(c.inactive_field_count(None), 2);
}

#[test]
fn changed_fields_are_counted() {
    let mut c = empty();
    put(&mut c, "u", &[("a", 1), ("b", 1)], 100);
    put(&mut c, "u", &[("a", 2), ("b", 1)], 150);
    assert_eq!(c.changed_fields_last_seconds_at(50, 150), 2);
    assert_eq!(c.changed_fields_last_seconds_at(49, 150), 1);
    assert_eq!(c.changed_fields_last_seconds_at(0, 150), 1);
    assert_eq!(c.changed_fields_last_seconds_at(0, 151), 0);
    assert_eq!(c.changed_fields_last_seconds(60), 0);
    assert_eq!(c.changed_fields_last_seconds(i64::MAX), 2);
}

#[test]
fn counts_grow_with_the_time_they_cover() {
    let mut c = empty();
    for i in 0..10i64 {
        put(&mut c, &format!("u{}", i % 4), &[("a", i % 3), ("b", i)], 100 + 9 * i);
    }
    for s in 0..150 {
        assert!(c.uid_count_last_seconds_at(s, 200) <= c.uid_count_last_seconds_at(s + 1, 200));
        assert!(
            c.field_count_last_seconds_at(s, 200) <= c.field_count_last_seconds_at(s + 1, 200)
        );
        assert!(
            c.changed_fields_last_seconds_at(s, 200)
                <= c.changed_fields_last_seconds_at(s + 1, 200)
        );
        assert!(c.field_count_last_seconds_at(s, 200) <= c.total_field_count());
    }
}

#[test]
fn ages_of_no_uids_are_zero() {
    let ages = empty().get_uid_age_stats_at(500);
    assert_eq!((ages.min, ages.max, ages.average), (0, 0, 0));
}

#[test]
fn ages_are_measured_from_the_last_value() {
    let mut c = empty();
    put(&mut c, "u", &[("a", 1)], 100);
    put(&mut c, "v", &[("a", 1)], 90);
    put(&mut c, "w", &[("a", 1)], 40);
    let ages = c.get_uid_age_stats_at(100);
    assert_eq!((ages.min, ages.max, ages.average), (0, 60, 23));
    assert!(c.get_uid_age_stats().min > 1_600_000_000);
}

#[test]
fn ages_before_the_last_values_are_negative() {
    let mut c = empty();
    put(&mut c, "u", &[("a", 1)], 100);
    put(&mut c, "v", &[("a", 1)], 105);
    let ages = c.get_uid_age_stats_at(90);
    assert_eq!((ages.min, ages.max, ages.average), (-15, 0, -12));
    put(&mut c, "w", &[("a", 1)], 60);
    let ages = c.get_uid_age_stats_at(90);
    assert_eq!((ages.min, ages.max, ages.average), (-15, 30, 1));
    assert!(ages.min <= ages.average && ages.average <= ages.max);
}

#[test]
fn extreme_ages_do_not_overflow() {
    let mut c = empty();
    put(&mut c, "u", &[("a", 1)], i64::MIN);
    put(&mut c, "v", &[("a", 1)], i64::MIN);
    let ages = c.get_uid_age_stats_at(i64::MAX);
    let all = u64::MAX as i128;
    assert_eq!((ages.min, ages.max, ages.average), (all, all, all));
}

#[test]
fn field_names_are_counted_once_and_over_all() {
    let mut c = empty();
    assert_eq!(c.unique_field_name_count(), (0, 0));
    put(&mut c, "u", &[("a", 1), ("b", 1)], 100);
    put(&mut c, "v", &[("a", 1), ("c", 1)], 100);
    assert_eq!(c.unique_field_name_count(), (3, 4));
    let set = vec![("a".to_string(), InfluxValue::I64(1))];
    c.add_or_update_fields("u", None, &set, 100, "other");
    assert_eq!(c.unique_field_name_count(), (3, 5));
    assert_eq!(c.total_field_count(), 5);
}

#[test]
fn the_least_changed_fields_come_first() {
    let mut c = empty();
    put(&mut c, "u", &[("x", 1), ("y", 1)], 100);
    put(&mut c, "u", &[("x", 2), ("y", 1)], 101);
    put(&mut c, "u", &[("x", 3), ("y", 2)], 102);
    put(&mut c, "v", &[("z", 1), ("w", 1)], 100);
    put(&mut c, "v", &[("w", 2)], 101);
    let all: Vec<(String, usize)> = c.least_changed(100);
    let expected: Vec<(String, usize)> = [("z", 0), ("y", 1), ("w", 1), ("x", 2)]
        .iter()
        .map(|(n, k)| (n.to_string(), *k))
        .collect();
    assert_eq!(all, expected);
    assert_eq!(c.least_changed(2), expected[..2].to_vec());
    assert!(c.least_changed(0).is_empty());
    assert!(empty().least_changed(5).is_empty());
}

#[test]
fn a_long_ranking_is_ascending_and_keeps_equals_in_order() {
    let mut c = empty();
    for i in 0..40i64 {
        let name = format!("f{i}");
        put(&mut c, "u", &[(name.as_str(), 0)], 100);
        for k in 0..(i * 7) % 5 {
            put(&mut c, "u", &[(name.as_str(), k + 1)], 101 + k);
        }
    }
    let all = c.least_changed(usize::MAX);
    assert_eq!(all.len(), 40);
    for pair in all.windows(2) {
        assert!(pair[0].1 <= pair[1].1);
        if pair[0].1 == pair[1].1 {
            let a: i64 = pair[0].0[1..].parse().unwrap();
            let b: i64 = pair[1].0[1..].parse().unwrap();
            assert!(a < b);
        }
    }
}
