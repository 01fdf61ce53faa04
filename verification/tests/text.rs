use warp::number::{parse_u64, to_decimal};
use warp::path::{extension, file_name, parent, sibling, with_extension};
use warp::scan::{is_whitespace, lines, split_whitespace, trim};
use warp::speed::{parse_speed_limit, SpeedError};
use warp::table::{align_right, can_show_head, can_show_tail, pad, show_head, show_tail, to_signed_decimal};
use warp::text::{chars_of, contains, find_first, find_last, string_of, to_ascii_lower};

#[test]
fn white_space_is_that_of_unicode() {
    for n in 0..=0x10ffffu32 {
        if let Some(c) = char::from_u32(n) {
            assert_eq!(is_whitespace(c), c.is_whitespace(), "{n:x}");
        }
    }
}

#[test]
fn texts_are_cut_as_in_std() {
    for s in ["", " a b ", "\u{2003}x\r\n", "a\r\nb\n\nc", "\n", "a\r", "  ", "one\ttwo  three"] {
        let v = chars_of(s);
        assert_eq!(string_of(&trim(&v)), s.trim());
        let ls: Vec<String> = lines(&v).iter().map(string_of).collect();
        assert_eq!(ls, s.lines().collect::<Vec<_>>());
        let ws: Vec<String> = split_whitespace(&v).iter().map(string_of).collect();
        assert_eq!(ws, s.split_whitespace().collect::<Vec<_>>());
        assert_eq!(string_of(&to_ascii_lower(&v)), s.to_ascii_lowercase());
        for needle in ["", "a", "b", " ", "two", "\r\n"] {
            assert_eq!(contains(&v, &chars_of(needle)), s.contains(needle));
        }
    }
    assert_eq!(find_first(&chars_of("a/b/c"), '/'), Some(1));
    assert_eq!(find_last(&chars_of("a/b/c"), '/'), Some(3));
    assert_eq!(find_first(&chars_of("abc"), '/'), None);
}

#[test]
fn numbers_are_read_as_in_std() {
    for s in [
        "", "0", "007", "+5", "+", "-1", "18446744073709551615", "18446744073709551616", "1x",
        " 1", "99999999999999999999999999",
    ] {
        assert_eq!(parse_u64(&chars_of(s)), s.parse::<u64>().ok(), "{s:?}");
    }
    for n in [0u128, 9, 10, 12345, u64::MAX as u128, u128::MAX] {
        assert_eq!(string_of(&to_decimal(n)), n.to_string());
    }
    for n in [0i64, -1, 7, i64::MAX, i64::MIN] {
        assert_eq!(to_signed_decimal(n), n.to_string());
    }
}

#[test]
fn paths_are_taken_apart_as_in_std() {
    for p in [
        "", "a", "a.b", "d/a.tar.gz", ".hidden", "d/.hidden", "d/..", "..", ".", "/", "/a", "d/",
        "d/e/", "d/./a.b", "a.", "d//a.b", "/d/a.b/.", "./a",
    ] {
        let q = std::path::Path::new(p);
        let name = q.file_name().map(|s| s.to_string_lossy().into_owned());
        let ext = q.extension().map(|s| s.to_string_lossy().into_owned());
        assert_eq!(file_name(p), name, "{p:?}");
        assert_eq!(extension(p), ext, "{p:?}");
        assert_eq!(
            with_extension(p, "warp"),
            q.with_extension("warp").to_string_lossy(),
            "{p:?}"
        );
        assert_eq!(
            parent(p).map(std::path::PathBuf::from),
            q.parent().map(std::path::Path::to_path_buf),
            "{p:?}"
        );
    }
    assert_eq!(sibling("d/a.b", "c"), "d/c");
}

#[test]
fn test_parse_speed_limit() {
    assert_eq!(parse_speed_limit("1M").unwrap(), 1024 * 1024);
    assert_eq!(parse_speed_limit("500K").unwrap(), 500 * 1024);
    assert_eq!(parse_speed_limit("2G").unwrap(), 2 * 1024 * 1024 * 1024);
    assert_eq!(parse_speed_limit("1000").unwrap(), 1000);
    assert_eq!(parse_speed_limit("2.5M").unwrap(), (2.5 * 1024.0 * 1024.0) as u64);
}

fn reference(input: &str) -> Option<u64> {
    let input = input.trim().to_uppercase();
    if let Some(v) = input.strip_suffix('K') {
        v.parse::<f64>().ok().map(|n| (n * 1024.0) as u64)
    } else if let Some(v) = input.strip_suffix('M') {
        v.parse::<f64>().ok().map(|n| (n * 1024.0 * 1024.0) as u64)
    } else if let Some(v) = input.strip_suffix('G') {
        v.parse::<f64>().ok().map(|n| (n * 1024.0 * 1024.0 * 1024.0) as u64)
    } else {
        input.parse::<u64>().ok()
    }
}

#[test]
fn limits_are_read_as_doubles() {
    let numbers = [
        "", "0", "-0", "-1", "+1", "1.", ".5", ".", "+.", "1e3", "1E-3", "1e", "1e+", "1e400", "1e-400",
        "-1e400", "inf", "INF", "-inf", "infinity", "nan", "NaN", "+nan", "1_0", "0x1", " 1", "1 ",
        "0.1", "0.3", "2.5", "4.35", "9007199254740993", "9007199254740992.5", "18014398509481983",
        "17179869183.999999", "17179869184", "1.7976931348623157e308", "1.7976931348623159e308",
        "4.9e-324", "2.4703282292062327e-324", "123456789012345678901234567890",
        "0.000000000000000000000000000000000000001", "1e22", "1e23", "8.5e15",
        "0.00097656249999999999", "0.0009765625", "9.765625e-4", "00012.3400", "1e00005", "e5", "1e5.5",
        "99999999999.99999999999", "16777216.0000001", "6.8719476736e10",
    ];
    for n in numbers {
        for unit in ["", "k", "K", "m", "M", "g", "G", " M", "KB"] {
            let s = format!("{n}{unit}");
            assert_eq!(parse_speed_limit(&s).ok(), reference(&s), "{s:?}");
        }
    }
    let mut seed: u64 = 0x2545_f491_4f6c_dd1d;
    for _ in 0..20_000 {
        seed ^= seed << 13;
        seed ^= seed >> 7;
        seed ^= seed << 17;
        let a = seed % 1_000_000_000_000;
        let b = (seed >> 20) % 1_000_000;
        let e = (seed >> 45) as i64 % 40 - 25;
        let unit = ["K", "M", "G"][(seed % 3) as usize];
        let s = format!("{a}.{b:06}e{e}{unit}");
        assert_eq!(parse_speed_limit(&s).ok(), reference(&s), "{s:?}");
    }
    assert_eq!(parse_speed_limit("xK"), Err(SpeedError::BadNumber));
    assert_eq!(parse_speed_limit("x"), Err(SpeedError::BadInteger));
    assert_eq!(parse_speed_limit("\u{2003}3ſk\u{2003}").ok(), reference("\u{2003}3ſk\u{2003}"));
    assert_eq!(parse_speed_limit("ßK").ok(), reference("ßK"));
}

#[test]
fn columns_are_filled_as_in_std() {
    for s in ["", "abc", "äöü", "a longer text than ten"] {
        assert_eq!(pad(s, ' ', 10), format!("{s:<10}"));
        assert_eq!(pad(s, '-', 10), format!("{s:-<10}"));
        assert_eq!(align_right(s, 10), format!("{s:>10}"));
    }
    assert_eq!(show_head("0123456789", 10), "0123456789");
    assert_eq!(show_head("0123456789a", 10), "0123456...");
    assert_eq!(show_tail("0123456789a", 10), "...456789a");
    assert!(can_show_head("0123456789a", 10));
    assert!(!can_show_head("012345ä6789a", 10));
    assert!(can_show_tail("012ä456789a", 10));
    assert!(!can_show_tail("0123ä56789a", 10));
}
