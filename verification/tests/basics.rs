use kafkastats::arith;
use kafkastats::config;
use kafkastats::config::{Precision, ServerMode};
use kafkastats::stats_utils;
use kafkastats::stats_utils::{Last5Timestamps, Spread};
use kafkastats::text;
use kafkastats::value::{InfluxValue, Piece};

fn timestamps(all: &[i64]) -> Last5Timestamps {
    let mut t = Last5Timestamps::new();
    for v in all {
        t.push(*v);
    }
    t
}

#[test]
fn division_rounds_toward_zero() {
    assert_eq!(arith::divide(7, 2), 3);
    assert_eq!(arith::divide(-7, 2), -3);
    assert_eq!(arith::divide(-6, 2), -3);
    assert_eq!(arith::divide(0, 5), 0);
}

#[test]
fn the_clock_shows_a_time_after_this_was_written() {
    let a = stats_utils::curtime();
    let b = stats_utils::curtime();
    assert!(a > 1_600_000_000);
    assert!(b - a < 20);
}

#[test]
fn the_clock_is_read_on_both_sides_of_the_epoch() {
    assert_eq!(stats_utils::seconds_of(Ok(0)), 0);
    assert_eq!(stats_utils::seconds_of(Ok(1_700_000_000)), 1_700_000_000);
    assert_eq!(stats_utils::seconds_of(Err(5)), -5);
    assert_eq!(stats_utils::seconds_of(Ok(i64::MAX as u64)), i64::MAX);
    assert_eq!(stats_utils::seconds_of(Ok(u64::MAX)), i64::MAX);
    assert_eq!(stats_utils::seconds_of(Err(u64::MAX)), -i64::MAX);
}

#[test]
fn log_lines_name_the_thread_where_asked() {
    assert_eq!(
        stats_utils::log_line("10:11:12.345", true, Some("main"), "INFO", "app", "hello"),
        "10:11:12.345 (t: main) INFO - app - hello\n"
    );
    assert_eq!(
        stats_utils::log_line("10:11:12.345", true, None, "WARN", "app", "hello"),
        "10:11:12.345 (t: unknown) WARN - app - hello\n"
    );
    assert_eq!(
        stats_utils::log_line("10:11:12.345", false, Some("main"), "INFO", "app", ""),
        "10:11:12.345 INFO - app - \n"
    );
}

#[test]
fn the_last_five_timestamps_are_kept() {
    let mut t = Last5Timestamps::new();
    assert_eq!(t.len(), 0);
    assert_eq!(t.to_string(), "");
    for i in 1..=7i64 {
        t.push(i);
        assert!(t.len() <= 5);
    }
    assert_eq!(t.to_string(), "3, 4, 5, 6, 7");
    assert_eq!(t.clone().to_string(), "3, 4, 5, 6, 7");
    assert_eq!(t.pop(), Some(3));
    t.drop_front();
    assert_eq!(t.to_string(), "5, 6, 7");
    assert_eq!(t.len(), 3);
}

#[test]
fn there_is_nothing_to_take_from_no_timestamps() {
    let mut t = Last5Timestamps::new_with_val(-9);
    assert_eq!(t.to_string(), "-9");
    t.drop_front();
    t.drop_front();
    assert_eq!(t.pop(), None);
    assert_eq!(t.len(), 0);
}

#[test]
fn differences_are_those_of_neighbours() {
    assert!(timestamps(&[]).differences().is_empty());
    assert!(timestamps(&[5]).differences().is_empty());
    assert_eq!(timestamps(&[10, 20, 15]).differences(), vec![10, -5]);
    assert_eq!(
        timestamps(&[i64::MIN, i64::MAX]).differences(),
        vec![u64::MAX as i128]
    );
}

#[test]
fn the_mean_of_the_differences_rounds_toward_zero() {
    assert_eq!(timestamps(&[]).differences_mean(), 0);
    assert_eq!(timestamps(&[5]).differences_mean(), 0);
    assert_eq!(timestamps(&[10, 20, 40, 50]).differences_mean(), 13);
    assert_eq!(timestamps(&[50, 40, 20, 10]).differences_mean(), -13);
    assert_eq!(timestamps(&[i64::MIN, i64::MAX]).differences_mean(), u64::MAX as i128);
}

#[test]
fn the_spread_is_the_mean_square_distance() {
    assert_eq!(timestamps(&[]).differences_spread(), Spread::Undefined);
    assert_eq!(timestamps(&[1, 2]).differences_spread(), Spread::Undefined);
    assert_eq!(
        timestamps(&[10, 20, 40, 50]).differences_spread(),
        Spread::Ratio { squares: 67, divisor: 2 }
    );
    assert_eq!(
        timestamps(&[1, 2, 3, 4, 5]).differences_spread(),
        Spread::Ratio { squares: 0, divisor: 3 }
    );
    assert_eq!(
        timestamps(&[i64::MIN, i64::MAX, i64::MIN, i64::MAX]).differences_spread(),
        Spread::TooLarge
    );
}

#[test]
fn numerals_are_written_in_decimal() {
    assert_eq!(text::decimal_text(0), "0");
    assert_eq!(text::decimal_text(-5), "-5");
    assert_eq!(text::decimal_text(1230), "1230");
    assert_eq!(text::decimal_text(i128::MIN), "-170141183460469231731687303715884105728");
    assert_eq!(text::decimal_text(i128::MAX), "170141183460469231731687303715884105727");
    let mut out = "x=".to_string();
    text::push_decimal(&mut out, -10);
    assert_eq!(out, "x=-10");
}

#[test]
fn numerals_are_read_back() {
    for v in [0, 7, -7, 10, 100, -999, i64::MAX, i64::MIN] {
        assert_eq!(text::parse_i64(&text::decimal_text(v as i128)), Some(v));
    }
    for n in [0, 9, 10, 12345, usize::MAX] {
        assert_eq!(text::parse_usize(&text::decimal_text(n as i128)), Some(n));
    }
}

#[test]
fn signs_and_zeros_before_numerals_are_read() {
    assert_eq!(text::parse_i64("+5"), Some(5));
    assert_eq!(text::parse_i64("-0"), Some(0));
    assert_eq!(text::parse_i64("007"), Some(7));
    assert_eq!(text::parse_i64("-9223372036854775808"), Some(i64::MIN));
    assert_eq!(text::parse_usize("+5"), Some(5));
    assert_eq!(text::parse_usize("0000000000000000000000000000001"), Some(1));
}

#[test]
fn what_is_no_numeral_is_not_read() {
    for bad in ["", "+", "-", "+-1", "-+1", " 1", "1 ", "1_0", "a", "\u{0661}", "9223372036854775808", "-9223372036854775809", "99999999999999999999999999"] {
        assert_eq!(text::parse_i64(bad), None);
        assert_eq!(text::parse_i64(bad), bad.parse::<i64>().ok());
    }
    for bad in ["", "-1", "-0", "+", "++1", "18446744073709551616", "x"] {
        assert_eq!(text::parse_usize(bad), None);
        assert_eq!(text::parse_usize(bad), bad.parse::<usize>().ok());
    }
}

#[test]
fn texts_are_split_at_commas() {
    for s in ["", "a", "a,b", ",", "a,,b", ",a,", "ü,é b"] {
        let parts = text::split_commas(s);
        let expected: Vec<String> = s.split(',').map(|p| p.to_string()).collect();
        assert_eq!(parts, expected);
        assert_eq!(parts.join(","), s);
    }
}

#[test]
fn texts_are_ordered_by_code_points() {
    let all = ["", "A", "B", "a", "a b", "ab", "b", "é", "\u{10000}"];
    for (i, a) in all.iter().enumerate() {
        for (j, b) in all.iter().enumerate() {
            assert_eq!(text::text_not_after(a, b), i <= j);
            assert_eq!(text::text_not_after(a, b), a <= b);
            assert_eq!(text::same_text(a, b), i == j);
        }
    }
    assert_eq!(text::characters("aé"), vec!['a', 'é']);
}

#[test]
fn values_are_compared_by_kind_and_content() {
    let float = |x: f64| InfluxValue::F64(x.to_bits());
    assert!(InfluxValue::I64(1) == InfluxValue::I64(1));
    assert!(InfluxValue::I64(1) != InfluxValue::I64(2));
    assert!(InfluxValue::I64(1) != InfluxValue::U64(1));
    assert!(InfluxValue::U64(1) == InfluxValue::U64(1));
    assert!(InfluxValue::Boolean(true) != InfluxValue::Boolean(false));
    assert!(InfluxValue::String("a".to_string()) == InfluxValue::String("a".to_string()));
    assert!(InfluxValue::String("a".to_string()) != InfluxValue::String("b".to_string()));
    let numbers = [
        0.0,
        -0.0,
        1.5,
        -1.5,
        f64::INFINITY,
        f64::NEG_INFINITY,
        f64::NAN,
        -f64::NAN,
        f64::MIN_POSITIVE,
        5e-324,
    ];
    for a in numbers {
        for b in numbers {
            assert_eq!(float(a) == float(b), a == b);
        }
    }
}

#[test]
fn values_are_shown_as_text_or_bits() {
    let shown = |v: InfluxValue| match v.shown() {
        Piece::Text(t) => t,
        other => format!("{other:?}"),
    };
    assert_eq!(shown(InfluxValue::I64(-1)), "-1");
    assert_eq!(shown(InfluxValue::U64(u64::MAX)), "18446744073709551615");
    assert_eq!(shown(InfluxValue::String("a\"b".to_string())), "a\"b");
    assert_eq!(shown(InfluxValue::Boolean(true)), "true");
    assert_eq!(shown(InfluxValue::Boolean(false)), "false");
    assert_eq!(shown(InfluxValue::F64(9)), "Float(9)");
    assert!(InfluxValue::String("x".to_string()).clone() == InfluxValue::String("x".to_string()));
}

#[test]
fn precisions_go_by_their_abbreviations() {
    for p in [Precision::Second, Precision::Millisecond, Precision::Nanosecond] {
        assert_eq!(Precision::recognise(&p.to_string()), Some(p));
        assert_eq!(Precision::from(p.to_string()), p);
    }
    assert_eq!(Precision::from("ms".to_string()), Precision::Millisecond);
    assert_eq!(Precision::Nanosecond.to_string(), "ns");
    for bad in ["", "S", "us", "sec", " s"] {
        assert_eq!(Precision::recognise(bad), None);
    }
}

#[test]
fn tls_needs_both_files() {
    let cert = || Some("c.pem".to_string());
    let key = || Some("k.pem".to_string());
    assert!(matches!(config::server_mode(false, None, None), Some(ServerMode::Http)));
    assert!(matches!(config::server_mode(false, cert(), key()), Some(ServerMode::Http)));
    assert!(config::server_mode(true, None, key()).is_none());
    assert!(config::server_mode(true, cert(), None).is_none());
    assert!(config::server_mode(true, None, None).is_none());
    match config::server_mode(true, cert(), key()) {
        Some(ServerMode::Https { cert_file, key_file }) => {
            assert_eq!((cert_file.as_str(), key_file.as_str()), ("c.pem", "k.pem"));
        }
        other => panic!("{other:?}"),
    }
}

#[test]
fn the_kafka_client_reads_from_the_end_and_commits_by_itself() {
    let settings = config::client_settings("g", "h:9092");
    let expected = [
        ("group.id", "g"),
        ("bootstrap.servers", "h:9092"),
        ("enable.partition.eof", "false"),
        ("session.timeout.ms", "30000"),
        ("enable.auto.commit", "true"),
        ("auto.offset.reset", "latest"),
        ("client.id", "kafka-stats"),
    ];
    assert_eq!(settings.len(), expected.len());
    for (a, b) in settings.iter().zip(expected) {
        assert_eq!((a.0.as_str(), a.1.as_str()), b);
    }
}
