use kafkastats::cache::ValueCache;
use kafkastats::config::Precision;
use kafkastats::consumer;
use kafkastats::consumer::{Line, LineOutcome, MessageError};
use kafkastats::value::InfluxValue;

fn empty(precision: Precision) -> ValueCache {
    ValueCache::new_at("stats".to_string(), 60, precision, 1)
}

fn seconds() -> ValueCache {
    empty(Precision::Second)
}

fn value<'a>(c: &'a ValueCache, uid: &str, name: &str, measurement: &str) -> &'a InfluxValue {
    &c.uid(uid).unwrap().field(name, measurement).unwrap().value
}

fn line(tags: Option<&[(&str, &str)]>, timestamp: Option<i64>) -> Line {
    Line {
        measurement: "m".to_string(),
        tags: tags.map(|t| {
            t.iter()
                .map(|(k, v)| (k.to_string(), v.to_string()))
                .collect()
        }),
        fields: vec![("a".to_string(), InfluxValue::I64(1))],
        timestamp,
    }
}

#[test]
fn values_of_every_kind_are_read() {
    let mut c = seconds();
    let payload = "m,uid=u1,Equipment-tag=T1 f=1.5,i=-3i,u=7u,b=true,s=\"a b\" 1000\n";
    let outcomes = consumer::process_message_at(&mut c, payload, 5).unwrap();
    assert_eq!(outcomes.len(), 1);
    assert!(matches!(outcomes[0], LineOutcome::Recorded));
    assert!(matches!(value(&c, "u1", "f", "m"), InfluxValue::F64(b) if *b == 1.5f64.to_bits()));
    assert!(matches!(value(&c, "u1", "i", "m"), InfluxValue::I64(-3)));
    assert!(matches!(value(&c, "u1", "u", "m"), InfluxValue::U64(7)));
    assert!(matches!(value(&c, "u1", "b", "m"), InfluxValue::Boolean(true)));
    assert!(matches!(value(&c, "u1", "s", "m"), InfluxValue::String(s) if s == "a b"));
    let u = c.uid("u1").unwrap();
    assert_eq!(u.equipment_tag.as_deref(), Some("T1"));
    assert_eq!(u.last_seen_ts, 1000);
    assert_eq!(c.totals().kafka_message_count, 1);
    assert_eq!(c.totals().ilp_line_count, 1);
    assert_eq!(c.totals().fields_seen_count, 5);
}

#[test]
fn escaped_names_are_read_without_their_escapes() {
    let mut c = seconds();
    let payload = "my\\ meas,uid=u\\,1 a\\ b=1i,s=\"say \\\"hi\\\"\" 7";
    let _ = consumer::process_message_at(&mut c, payload, 5).unwrap();
    assert!(matches!(value(&c, "u,1", "a b", "my meas"), InfluxValue::I64(1)));
    assert!(
        matches!(value(&c, "u,1", "s", "my meas"), InfluxValue::String(s) if s == "say \"hi\"")
    );
}

#[test]
fn lines_without_a_timestamp_take_the_time_of_the_message() {
    let mut c = seconds();
    let _ = consumer::process_message_at(&mut c, "m,uid=u a=1i", 50).unwrap();
    assert_eq!(c.uid("u").unwrap().last_seen_ts, 50);
    let mut n = empty(Precision::Nanosecond);
    let _ = consumer::process_message_at(&mut n, "m,uid=u a=1i\nm,uid=v a=1i 9", 50).unwrap();
    assert_eq!(n.uid("u").unwrap().last_seen_ts, 50_000_000_000);
    assert_eq!(n.uid("v").unwrap().last_seen_ts, 9);
}

#[test]
fn fallback_timestamps_follow_the_precision() {
    assert_eq!(consumer::fallback_timestamp(Precision::Second, -4), Some(-4));
    assert_eq!(consumer::fallback_timestamp(Precision::Second, i64::MAX), Some(i64::MAX));
    assert_eq!(
        consumer::fallback_timestamp(Precision::Nanosecond, 3),
        Some(3_000_000_000)
    );
    assert_eq!(consumer::fallback_timestamp(Precision::Nanosecond, i64::MAX), None);
    assert_eq!(consumer::fallback_timestamp(Precision::Millisecond, 3), None);
}

#[test]
fn a_message_without_a_fallback_timestamp_is_counted_and_refused() {
    let mut c = empty(Precision::Millisecond);
    let r = consumer::process_message_at(&mut c, "m,uid=u a=1i 5", 50);
    assert_eq!(r.err(), Some(MessageError::NoTimestamp));
    assert_eq!(c.totals().kafka_message_count, 1);
    assert_eq!(c.totals().ilp_line_count, 0);
    assert_eq!(c.total_uid_count(), 0);
}

#[test]
fn each_line_has_its_outcome() {
    let mut c = seconds();
    let payload = "m,uid=u a=1i 1\nno fields here\nm a=1i 2\n\nm,other=x a=1i 3\nm,uid=v a=2i 4";
    let outcomes = consumer::process_message_at(&mut c, payload, 50).unwrap();
    assert_eq!(outcomes.len(), 5);
    assert!(matches!(outcomes[0], LineOutcome::Recorded));
    assert!(matches!(&outcomes[1], LineOutcome::Unparseable(e) if !e.is_empty()));
    assert!(matches!(outcomes[2], LineOutcome::Untagged));
    assert!(matches!(outcomes[3], LineOutcome::NoUid));
    assert!(matches!(outcomes[4], LineOutcome::Recorded));
    assert_eq!(c.totals().kafka_message_count, 1);
    assert_eq!(c.totals().ilp_line_count, 2);
    assert_eq!(c.total_uid_count(), 2);
}

#[test]
fn notices_say_why_a_line_was_skipped() {
    let mut c = seconds();
    let payload = "m,uid=u a=1i 1 trailing\nm a=1i 2\nm,other=x a=1i 3\nm,uid=v a=2i 4";
    let outcomes = consumer::process_message_at(&mut c, payload, 50).unwrap();
    let notices: Vec<Option<String>> = outcomes.iter().map(|o| o.notice()).collect();
    assert_eq!(
        notices,
        vec![
            Some(
                "Skipping unparseable line: Could not parse entire line. Found trailing content: 'trailing'"
                    .to_string()
            ),
            None,
            Some("Skipping line without uid tag".to_string()),
            None,
        ]
    );
    assert_eq!(LineOutcome::CountersFull.notice(), None);
}

#[test]
fn an_empty_payload_holds_no_lines() {
    let mut c = seconds();
    let outcomes = consumer::process_message(&mut c, "").unwrap();
    assert!(outcomes.is_empty());
    assert_eq!(c.totals().kafka_message_count, 1);
    assert_eq!(consumer::payload_text(None), "");
    assert_eq!(consumer::payload_text(Some("x")), "x");
}

#[test]
fn a_message_takes_the_time_of_the_clock() {
    let mut c = seconds();
    let _ = consumer::process_message(&mut c, "m,uid=u a=1i").unwrap();
    assert!(c.uid("u").unwrap().last_seen_ts > 1_600_000_000);
    assert_eq!(c.uid_count_last_seconds(60), 1);
}

#[test]
fn the_first_tag_with_the_key_counts() {
    let mut c = seconds();
    let l = line(
        Some(&[
            ("x", "1"),
            ("uid", "first"),
            ("uid", "second"),
            ("Equipment-tag", "T1"),
            ("Equipment-tag", "T2"),
        ]),
        None,
    );
    assert!(matches!(consumer::process_line(&mut c, Ok(l), 9), LineOutcome::Recorded));
    let u = c.uid("first").unwrap();
    assert_eq!(u.equipment_tag.as_deref(), Some("T1"));
    assert_eq!(u.last_seen_ts, 9);
    assert!(c.uid("second").is_none());
}

#[test]
fn a_skipped_line_leaves_the_cache_as_it_is() {
    let mut c = seconds();
    let _ = consumer::process_line(&mut c, Ok(line(Some(&[("uid", "u")]), Some(3))), 9);
    let before = format!("{:?} {:?}", c.totals(), c.uids());
    let skipped: Vec<Result<Line, String>> = vec![
        Err("bad".to_string()),
        Ok(line(None, Some(4))),
        Ok(line(Some(&[("UID", "u")]), Some(4))),
        Ok(line(Some(&[]), Some(4))),
    ];
    for l in skipped {
        let outcome = consumer::process_line(&mut c, l, 9);
        assert!(!matches!(outcome, LineOutcome::Recorded));
        assert_eq!(format!("{:?} {:?}", c.totals(), c.uids()), before);
    }
}

#[test]
fn lines_in_one_message_or_two_come_to_the_same() {
    let first = "m,uid=u a=1i 1\nm,uid=v a=1i 2\n";
    let second = "m,uid=u a=2i 3\nm,uid=w b=1i\n";
    let mut one = seconds();
    let _ = consumer::process_message_at(&mut one, &format!("{first}{second}"), 50).unwrap();
    let mut two = seconds();
    let _ = consumer::process_message_at(&mut two, first, 50).unwrap();
    let _ = consumer::process_message_at(&mut two, second, 50).unwrap();
    assert_eq!(format!("{:?}", one.uids()), format!("{:?}", two.uids()));
    assert_eq!(one.totals().ilp_line_count, two.totals().ilp_line_count);
    assert_eq!(one.totals().kafka_message_count + 1, two.totals().kafka_message_count);
}

#[test]
fn parsed_lines_are_recorded_one_behind_the_other() {
    let mut c = seconds();
    let lines: Vec<Result<Line, String>> = vec![
        Ok(line(Some(&[("uid", "u")]), Some(1))),
        Err("bad".to_string()),
        Ok(line(Some(&[("uid", "u")]), None)),
    ];
    let outcomes = consumer::process_parsed(&mut c, lines, 20).unwrap();
    assert_eq!(outcomes.len(), 3);
    assert!(matches!(&outcomes[1], LineOutcome::Unparseable(e) if e == "bad"));
    assert_eq!(c.uid("u").unwrap().seen_count, 2);
    assert_eq!(c.uid("u").unwrap().last_seen_ts, 20);
    let rest = consumer::process_lines(&mut c, vec![Ok(line(None, None))], 30);
    assert!(matches!(rest[0], LineOutcome::Untagged));
}
