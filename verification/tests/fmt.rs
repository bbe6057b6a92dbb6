use i2u::fmt::{
    binary, binary_pad, binary_zero_pad, chunk_join, debug, debug_pretty, lower_hex_pad,
    lower_hex_zeropad, octal, to_string, upper_hex_pad, upper_hex_zeropad, Record,
};

#[test]
fn binary_of_small_numbers() {
    assert_eq!(binary(0), "0");
    assert_eq!(binary(1), "1");
    assert_eq!(binary(8), "1000");
    assert_eq!(binary(10), "1010");
}

#[test]
fn binary_matches_host_formatter() {
    let vec: Vec<u64> = vec![0, 1, 2, 3, 4, 5, 6, 7, 8, 9, 10, 255, 1024, u64::MAX];
    let ours: Vec<String> = vec.iter().map(|b| binary(*b)).collect();
    let host: Vec<String> = vec.iter().map(|b| format!("{:b}", b)).collect();
    assert_eq!(ours, host);
}

#[test]
fn octal_of_small_numbers() {
    assert_eq!(octal(8), "10");
    assert_eq!(octal(0), "0");
    assert_eq!(octal(64), "100");
}

#[test]
fn octal_matches_host_formatter() {
    let vec: Vec<u64> = vec![0, 1, 2, 3, 4, 5, 6, 7, 8, 9, 10, 255, u64::MAX];
    let ours: Vec<String> = vec.iter().map(|o| octal(*o)).collect();
    let host: Vec<String> = vec.iter().map(|o| format!("{:o}", o)).collect();
    assert_eq!(ours, host);
}

#[test]
fn to_string_matches_host_display() {
    let vec: Vec<u64> = vec![0, 1, 9, 10, 12345, u64::MAX];
    let ours: Vec<String> = vec.iter().map(|t| to_string(*t)).collect();
    let host: Vec<String> = vec.iter().map(|t| format!("{}", t)).collect();
    assert_eq!(ours, host);
}

#[test]
fn binary_pad_of_three_bit_range() {
    let vec: Vec<u64> = vec![0, 1, 2, 3, 4, 5, 6, 7];
    let ours: Vec<String> = vec.iter().map(|b| binary_pad(3, *b)).collect();
    let expected = vec!["  0", "  1", " 10", " 11", "100", "101", "110", "111"];
    assert_eq!(ours, expected);
    let host: Vec<String> = vec.iter().map(|b| format!("{:3b}", b)).collect();
    assert_eq!(ours, host);
}

#[test]
fn binary_zero_pad_matches_host_formatter() {
    let vec: Vec<u64> = vec![0, 1, 2, 3, 4, 5, 6, 7, 8, 9, 10, 255, 256];
    let ours: Vec<String> = vec.iter().map(|b| binary_zero_pad(8, *b)).collect();
    let host: Vec<String> = vec.iter().map(|b| format!("{:08b}", b)).collect();
    assert_eq!(ours, host);
    assert_eq!(binary_zero_pad(8, 5), "00000101");
}

#[test]
fn padding_never_truncates() {
    assert_eq!(binary_zero_pad(0, 10), "1010");
    assert_eq!(binary_zero_pad(2, 10), "1010");
    assert_eq!(binary_pad(0, 10), "1010");
    assert_eq!(lower_hex_pad(1, 255), "ff");
    assert_eq!(upper_hex_zeropad(1, 255), "FF");
}

#[test]
fn hex_zeropad_of_known_values() {
    assert_eq!(upper_hex_zeropad(2, 255), "FF");
    assert_eq!(lower_hex_zeropad(2, 10), "0a");
    assert_eq!(upper_hex_pad(2, 255), "FF");
    assert_eq!(lower_hex_pad(2, 10), " a");
}

#[test]
fn hex_matches_host_formatter() {
    let vec: Vec<u64> = vec![0, 1, 9, 10, 15, 16, 255, 256, 0xDEADBEEF, u64::MAX];
    let lower: Vec<String> = vec.iter().map(|h| lower_hex_zeropad(2, *h)).collect();
    let host_lower: Vec<String> = vec.iter().map(|h| format!("{:02x}", h)).collect();
    assert_eq!(lower, host_lower);
    let upper: Vec<String> = vec.iter().map(|h| upper_hex_pad(2, *h)).collect();
    let host_upper: Vec<String> = vec.iter().map(|h| format!("{:2X}", h)).collect();
    assert_eq!(upper, host_upper);
    let padded: Vec<String> = vec.iter().map(|h| lower_hex_pad(10, *h)).collect();
    let host_padded: Vec<String> = vec.iter().map(|h| format!("{:10x}", h)).collect();
    assert_eq!(padded, host_padded);
    let zeros: Vec<String> = vec.iter().map(|h| upper_hex_zeropad(16, *h)).collect();
    let host_zeros: Vec<String> = vec.iter().map(|h| format!("{:016X}", h)).collect();
    assert_eq!(zeros, host_zeros);
}

#[test]
fn negative_values_render_as_bit_patterns() {
    // A negative number shows the two's-complement bits of its storage, not a
    // minus sign, exactly as the host renders it at the same width.
    let n: i8 = -2;
    assert_eq!(binary(n as u8 as u64), "11111110");
    assert_eq!(binary(n as u8 as u64), format!("{:b}", n as u8));
    let m: i64 = -1;
    assert_eq!(upper_hex_zeropad(2, m as u64), "FFFFFFFFFFFFFFFF");
    assert_eq!(upper_hex_zeropad(2, m as u64), format!("{:02X}", m as u64));
}

#[test]
fn debug_of_options() {
    assert_eq!(debug(Some(1)), "Some(1)");
    assert_eq!(debug(None), "None");
    assert_eq!(debug(Some(1)), format!("{:?}", Some(1u64)));
    assert_eq!(debug(None), format!("{:?}", Option::<u64>::None));
}

#[test]
fn debug_pretty_matches_host_layout() {
    let rec = Record { id: 12, value: 34 };
    let result = debug_pretty(rec);
    assert_eq!(result, "Record {\n    id: 12,\n    value: 34,\n}");
    assert_eq!(result, format!("{:#?}", rec));
}

#[test]
fn chunk_join_groups_of_two() {
    assert_eq!(chunk_join("FEEDC0FFEE", 2, " "), "FE ED C0 FF EE");
}

#[test]
fn chunk_join_edges() {
    assert_eq!(chunk_join("", 2, " "), "");
    assert_eq!(chunk_join("AB", 2, " "), "AB");
    assert_eq!(chunk_join("ABC", 2, "-"), "AB-C");
    assert_eq!(chunk_join("ABC", 5, "-"), "ABC");
    assert_eq!(chunk_join("ABC", 1, "--"), "A--B--C");
}

#[test]
fn chunk_join_counts_characters_not_bytes() {
    assert_eq!(chunk_join("\u{3b1}\u{3b2}\u{3b3}\u{3b4}", 2, "-"), "\u{3b1}\u{3b2}-\u{3b3}\u{3b4}");
}

#[test]
fn repeated_calls_agree() {
    assert_eq!(binary(37), binary(37));
    assert_eq!(octal(37), octal(37));
    assert_eq!(to_string(37), to_string(37));
    assert_eq!(binary_pad(7, 37), binary_pad(7, 37));
    assert_eq!(binary_zero_pad(7, 37), binary_zero_pad(7, 37));
    assert_eq!(lower_hex_pad(7, 37), lower_hex_pad(7, 37));
    assert_eq!(upper_hex_pad(7, 37), upper_hex_pad(7, 37));
    assert_eq!(lower_hex_zeropad(7, 37), lower_hex_zeropad(7, 37));
    assert_eq!(upper_hex_zeropad(7, 37), upper_hex_zeropad(7, 37));
    assert_eq!(debug(Some(37)), debug(Some(37)));
    assert_eq!(debug_pretty(Record { id: 3, value: 7 }), debug_pretty(Record { id: 3, value: 7 }));
    assert_eq!(chunk_join("abcdef", 2, ":"), chunk_join("abcdef", 2, ":"));
}
