use archive_relay::numbers::{gib, grouped, mib};
use archive_relay::text::{
    chars_of, decimal, find_after_last, find_first, has_text, replace_all, same_ignoring_ascii_case,
    same_text, string_of, to_ascii_lower,
};

fn chars(s: &str) -> Vec<char> {
    s.chars().collect()
}

#[test]
fn chars_and_strings_convert_both_ways() {
    assert_eq!(chars_of("añb"), vec!['a', 'ñ', 'b']);
    assert_eq!(chars_of(""), Vec::<char>::new());
    assert_eq!(string_of(&['x', 'é', '!']), "xé!");
    assert_eq!(string_of(&chars_of("events_20240101.jsonl")), "events_20240101.jsonl");
}

#[test]
fn ascii_case_is_folded_for_letters_only() {
    assert_eq!(to_ascii_lower('A'), 'a');
    assert_eq!(to_ascii_lower('Z'), 'z');
    assert_eq!(to_ascii_lower('q'), 'q');
    assert_eq!(to_ascii_lower('@'), '@');
    assert_eq!(to_ascii_lower('['), '[');
    assert_eq!(to_ascii_lower('É'), 'É');
    assert!(same_ignoring_ascii_case(&chars("WebSocket"), &chars("websocket")));
    assert!(!same_ignoring_ascii_case(&chars("websocket"), &chars("websockets")));
    assert!(!same_ignoring_ascii_case(&chars("websocket"), &chars("webs0cket")));
    assert!(same_ignoring_ascii_case(&chars(""), &chars("")));
}

#[test]
fn texts_are_compared_and_searched() {
    assert!(same_text(&chars("abc"), &chars("abc")));
    assert!(!same_text(&chars("abc"), &chars("abd")));
    assert!(!same_text(&chars("abc"), &chars("ab")));
    assert!(has_text(&chars("/a/../b"), &chars("..")));
    assert!(has_text(&chars(".."), &chars("..")));
    assert!(has_text(&chars("ab.."), &chars("..")));
    assert!(!has_text(&chars("a.b.c"), &chars("..")));
    assert!(has_text(&chars("abc"), &chars("")));
    assert!(has_text(&chars(""), &chars("")));
    assert!(!has_text(&chars(""), &chars("a")));
    assert_eq!(find_first(&chars("a,b,c"), ','), 1);
    assert_eq!(find_first(&chars("abc"), ','), 3);
    assert_eq!(find_first(&chars(""), ','), 0);
    assert_eq!(find_after_last(&chars("a/b/c"), '/'), 4);
    assert_eq!(find_after_last(&chars("abc"), '/'), 0);
    assert_eq!(find_after_last(&chars("abc/"), '/'), 4);
}

#[test]
fn replace_all_scans_from_the_left() {
    assert_eq!(string_of(&replace_all(&chars("a%%b%%c"), &chars("%%"), &chars("-"))), "a-b-c");
    assert_eq!(string_of(&replace_all(&chars("aaa"), &chars("aa"), &chars("b"))), "ba");
    assert_eq!(string_of(&replace_all(&chars("abc"), &chars("x"), &chars("y"))), "abc");
    assert_eq!(string_of(&replace_all(&chars("abc"), &chars(""), &chars("y"))), "abc");
    assert_eq!(string_of(&replace_all(&chars("xx"), &chars("x"), &chars("xx"))), "xxxx");
    assert_eq!(string_of(&replace_all(&chars(""), &chars("x"), &chars("y"))), "");
    assert_eq!(string_of(&replace_all(&chars("abc"), &chars("abc"), &chars(""))), "");
}

#[test]
fn replace_all_agrees_with_the_standard_library() {
    let cases = [
        ("<p>%%_LINKS_%%</p>", "%%_LINKS_%%", "x"),
        ("%%%%_A_%%%%", "%%_A_%%", "<>"),
        ("ababab", "aba", "c"),
        ("no match here", "zzz", "y"),
        ("tail match xx", "xx", ""),
    ];
    for (text, from, to) in cases {
        assert_eq!(
            string_of(&replace_all(&chars(text), &chars(from), &chars(to))),
            text.replace(from, to)
        );
    }
}

#[test]
fn decimal_writes_numbers_without_leading_zeros() {
    assert_eq!(decimal(0), "0");
    assert_eq!(decimal(7), "7");
    assert_eq!(decimal(10), "10");
    assert_eq!(decimal(2097152), "2097152");
    assert_eq!(decimal(u64::MAX), "18446744073709551615");
}

#[test]
fn counts_are_grouped_by_thousands() {
    assert_eq!(grouped(0), "0");
    assert_eq!(grouped(999), "999");
    assert_eq!(grouped(1000), "1,000");
    assert_eq!(grouped(12345), "12,345");
    assert_eq!(grouped(1000000), "1,000,000");
    assert_eq!(grouped(1002003), "1,002,003");
    assert_eq!(grouped(u64::MAX), "18,446,744,073,709,551,615");
}

#[test]
fn sizes_in_mebibytes_have_two_decimals() {
    assert_eq!(mib(0), "0.00");
    assert_eq!(mib(1048576), "1.00");
    assert_eq!(mib(2 * 1048576), "2.00");
    assert_eq!(mib(1572864), "1.50");
    assert_eq!(mib(5243), "0.01");
    assert_eq!(mib(5242), "0.00");
    assert_eq!(mib(1048575), "1.00");
    assert_eq!(mib(10 * 1048576 + 104857), "10.10");
    assert_eq!(mib(u64::MAX), "17592186044416.00");
}

#[test]
fn a_tie_in_mebibytes_goes_to_the_even_hundredth() {
    // 0.125, 0.375 and 0.625 MiB lie exactly between two hundredths
    assert_eq!(mib(131072), "0.12");
    assert_eq!(mib(393216), "0.38");
    assert_eq!(mib(655360), "0.62");
    assert_eq!(mib(1048576 + 131072), "1.12");
}

#[test]
fn sizes_in_gibibytes_have_three_decimals() {
    assert_eq!(gib(0), "0.000");
    assert_eq!(gib(3 * 1048576), "0.003");
    assert_eq!(gib(1073741824), "1.000");
    assert_eq!(gib(1073741824 + 536870912), "1.500");
    assert_eq!(gib(1073741823), "1.000");
    assert_eq!(gib(12 * 1073741824 + 107374182), "12.100");
    // 2^19 bytes are 0.00048828125 GiB, below the tie; 2^29 + 2^19 are 0.50048828125
    assert_eq!(gib(524288), "0.000");
    assert_eq!(gib(536870912 + 524288), "0.500");
    // 0.0625 GiB is exact at four decimals; 0.0005 GiB is no whole number of bytes
    assert_eq!(gib(67108864), "0.062");
    assert_eq!(gib(201326592), "0.188");
    assert_eq!(gib(u64::MAX as u128 + 1), "17179869184.000");
}

#[test]
fn sizes_agree_with_floating_point_formatting() {
    let mut size: u64 = 1;
    let mut n: u64 = 0;
    while n < 4000 {
        let as_mib = format!("{:.2}", size as f64 / 1024. / 1024.);
        let as_gib = format!("{:.3}", size as f64 / 1024.0 / 1024.0 / 1024.0);
        assert_eq!(mib(size), as_mib, "size {}", size);
        assert_eq!(gib(size as u128), as_gib, "size {}", size);
        // a spread of sizes below 2^53, where the conversion to f64 is exact
        size = size.wrapping_mul(6364136223846793005).wrapping_add(1442695040888963407)
            % 9007199254740992;
        n += 1;
    }
    for k in 0..2048u64 {
        let size = k * 65536;
        assert_eq!(mib(size), format!("{:.2}", size as f64 / 1024. / 1024.), "size {}", size);
        let size = k * 1048576 * 16;
        assert_eq!(
            gib(size as u128),
            format!("{:.3}", size as f64 / 1024.0 / 1024.0 / 1024.0),
            "size {}",
            size
        );
    }
}
