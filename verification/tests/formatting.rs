use broski::decimal::{one_place_string, rounded, tenths, two_places_string};
use broski::number::{dec2_string, dec_string, parse_usize};
use broski::single::format_duration;
use broski::text::{
    find, has_part, has_prefix, joined, lower_chars, padded_left, padded_right, strip_prefix,
    to_chars, trimmed, words_of,
};
use broski::text_map::{comes_before, TextMap};
use broski::time::{
    format_ago, format_dur, format_duration_ms, format_ms, format_relative, format_unix_ts,
    timestamp, unix_timestamp_secs, Duration,
};
use broski::widgets::stats::format_bytes;

fn chars(s: &str) -> Vec<char> {
    s.chars().collect()
}

#[test]
fn format_bytes_picks_human_unit() {
    assert_eq!(format_bytes(0), "0 B");
    assert_eq!(format_bytes(512), "512 B");
    assert_eq!(format_bytes(1024), "1.0 KB");
    assert_eq!(format_bytes(1024 * 1024), "1.0 MB");
    assert_eq!(format_bytes(2 * 1024 * 1024 * 1024), "2.00 GB");
}

#[test]
fn format_ago_buckets_into_units() {
    assert_eq!(format_ago(-5), "0s");
    assert_eq!(format_ago(45), "45s");
    assert_eq!(format_ago(120), "2m");
    assert_eq!(format_ago(7_200), "2h");
    assert_eq!(format_ago(2 * 86_400), "2d");
}

#[test]
fn bytes_are_rounded_like_binary_fractions() {
    let expected = |bytes: u64| -> String {
        const KB: f64 = 1024.0;
        let b = bytes as f64;
        if b < KB {
            format!("{} B", bytes)
        } else if b < KB * KB {
            format!("{:.1} KB", b / KB)
        } else if b < KB * KB * KB {
            format!("{:.1} MB", b / (KB * KB))
        } else {
            format!("{:.2} GB", b / (KB * KB * KB))
        }
    };
    let mut samples: Vec<u64> = (0..5000).collect();
    let mut n: u64 = 1;
    for i in 0..63u64 {
        samples.push(n);
        samples.push(n + 1);
        samples.push(n * 2 - 1);
        samples.push(n.wrapping_mul(2654435761).wrapping_add(i * 977));
        n = n.wrapping_mul(2);
    }
    samples.extend([u64::MAX, u64::MAX - 1023, (1 << 53) + 1, 1075, 1126, 1331, 1536 * 1024]);
    for bytes in samples {
        assert_eq!(format_bytes(bytes), expected(bytes), "{bytes}");
    }
}

#[test]
fn short_durations_are_rounded_like_binary_fractions() {
    for ms in 0..60_000u64 {
        let expected = if ms < 1_000 {
            format!("{}ms", ms)
        } else {
            format!("{:.1}s", ms as f64 / 1000.0)
        };
        assert_eq!(format_ms(ms), expected, "{ms}");
        assert_eq!(format_dur(Duration::from_millis(ms)), expected, "{ms}");
    }
}

#[test]
fn long_durations_are_counted_in_minutes() {
    assert_eq!(format_dur(Duration::from_secs(60)), "1m0s");
    assert_eq!(format_dur(Duration::from_secs(3_725)), "62m5s");
    assert_eq!(format_duration_ms(0), "?");
    assert_eq!(format_duration_ms(999), "999ms");
    assert_eq!(format_duration_ms(1_500), "1.5s");
    assert_eq!(format_duration_ms(65_000), "1m05s");
    assert_eq!(format_relative(Duration::from_secs(59)), "59s ago");
    assert_eq!(format_relative(Duration::from_secs(3_599)), "59m ago");
    assert_eq!(format_relative(Duration::from_secs(86_399)), "23h ago");
    assert_eq!(format_relative(Duration::from_secs(86_400)), "1d ago");
}

#[test]
fn times_are_told_by_their_distance() {
    let now = Duration::from_secs(1_000_000);
    assert_eq!(format_unix_ts(1_000_000 - 120, now), format_relative(Duration::from_secs(120)));
    assert_eq!(format_unix_ts(0, now), "?");
    assert_eq!(format_unix_ts(1_000_001, now), "ts:1000001");
    assert_eq!(timestamp(Some(77)), 77);
    assert_eq!(timestamp(None), 0);
    assert!(unix_timestamp_secs() > 1_600_000_000);
}

/// The same text by way of single-precision numbers.
fn by_floats(d: std::time::Duration) -> String {
    let secs = d.as_secs_f32();
    if secs < 1.0 {
        format!("{}ms", d.as_millis())
    } else if secs < 60.0 {
        format!("{:.1}s", secs)
    } else {
        let m = (secs / 60.0).floor() as u64;
        let s = secs - (m * 60) as f32;
        format!("{}m{:.0}s", m, s)
    }
}

#[test]
fn task_durations_are_rounded_like_single_precision_numbers() {
    let mut samples: Vec<u128> = Vec::new();
    for ms in 0..4_000u128 {
        samples.push(ms * 1_000_000);
        samples.push(ms * 1_000_000 + 500_000);
        samples.push(ms * 10_000_000 + 4_999_999);
    }
    let mut n: u128 = 1;
    while n < 10_000_000_000_000_000 {
        samples.push(n);
        samples.push(n + 7);
        n = n * 3 / 2 + 1;
    }
    for nanos in samples {
        let d = std::time::Duration::new(
            (nanos / 1_000_000_000) as u64,
            (nanos % 1_000_000_000) as u32,
        );
        assert_eq!(format_duration(Duration { nanos }), by_floats(d), "{nanos}");
    }
}

#[test]
fn decimals_are_written_in_full() {
    assert_eq!(dec_string(0), "0");
    assert_eq!(dec_string(u128::MAX), u128::MAX.to_string());
    assert_eq!(dec2_string(7), "07");
    assert_eq!(dec2_string(123), "123");
    assert_eq!(one_place_string(123), "12.3");
    assert_eq!(two_places_string(5), "0.05");
    assert_eq!(rounded(5, 2), 2);
    assert_eq!(rounded(7, 2), 4);
    assert_eq!(tenths(1_050), 11);
    assert_eq!(tenths(1_250), 12);
}

#[test]
fn numbers_are_read_as_std_reads_them() {
    for text in ["", "0", "7", "+7", "-7", "007", "1 ", "x", "+", "18446744073709551616"] {
        assert_eq!(parse_usize(&chars(text)), text.parse::<usize>().ok(), "{text:?}");
    }
    let most = usize::MAX.to_string();
    assert_eq!(parse_usize(&chars(&most)), Some(usize::MAX));
}

#[test]
fn texts_are_cut_as_std_cuts_them() {
    for text in ["", "  ", " a b ", "\u{a0}x\u{2003}", "tab\tnew\nline", "é ü", "\u{200b}z"] {
        assert_eq!(trimmed(text), text.trim(), "{text:?}");
        let v = chars(text);
        let split: Vec<&str> = text.split_whitespace().collect();
        assert_eq!(words_of(&v, 0, v.len()), split, "{text:?}");
        assert_eq!(to_chars(text), v);
    }
    for code in 0..0x3100u32 {
        if let Some(c) = char::from_u32(code) {
            let text = format!("{c}x{c}");
            assert_eq!(trimmed(&text), text.trim(), "{code:#x}");
        }
    }
    assert_eq!(find(&chars("abcabc"), &chars("ca")), Some(2));
    assert_eq!(find(&chars("abc"), &chars("x")), None);
    assert_eq!(strip_prefix("input:a", "input:").as_deref(), Some("a"));
    assert_eq!(strip_prefix("inpu", "input:"), None);
    assert!(has_prefix("abc", "") && has_part("abc", "bc") && !has_part("abc", "cb"));
    assert_eq!(joined(&vec!["a".to_string(), "b".to_string()], ", "), "a, b");
    assert_eq!(padded_right("ab", 4), "ab  ");
    assert_eq!(padded_left("ab", 4), "  ab");
    assert_eq!(padded_left("abcde", 4), "abcde");
}

#[test]
fn ascii_letters_are_lowered() {
    let v: Vec<char> = (0..128u8).map(|b| b as char).collect();
    let lowered: Vec<char> = v.iter().map(|c| c.to_ascii_lowercase()).collect();
    assert_eq!(lower_chars(&v), lowered);
}

#[test]
fn maps_keep_their_keys_in_order() {
    let mut ours: TextMap<i32> = TextMap::new();
    let mut theirs = std::collections::BTreeMap::new();
    for (i, key) in ["b", "a", "é", "z", "ab", "", "a", "\u{1F600}", "\u{FFFD}"].iter().enumerate() {
        ours.insert(key, i as i32);
        theirs.insert(key.to_string(), i as i32);
    }
    assert_eq!(ours.len(), theirs.len());
    for (i, (key, value)) in theirs.iter().enumerate() {
        assert_eq!(ours.key_at(i), key);
        assert_eq!(ours.value_at(i), value);
        assert_eq!(ours.index_of(key), Some(i));
    }
    assert!(!ours.contains_key("x"));
    if let Some(held) = ours.get_mut("b") {
        *held = 50;
    }
    assert_eq!(ours.get("b"), Some(&50));
    *ours.get_or_insert("x", 1) += 1;
    assert_eq!(ours.get("x"), Some(&2));
    assert!(comes_before("a", "ab") && !comes_before("b", "ab"));
}
