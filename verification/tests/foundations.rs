use redir_rust::bytes::{
    push_i64_be, push_low_three_le, push_u16_be, read_u16_be, read_u24_le, read_u32_be,
};
use redir_rust::net::SocketAddr;
use redir_rust::text::{
    bytes_eq, chars_of, parse_at_most, parse_u64, parse_usize, push_decimal, push_hex_byte,
    push_signed_decimal, str_eq,
};
use redir_rust::time::Duration;
use redir_rust::varint::{decode_at, push_varint, to_signed, to_unsigned};

#[test]
fn numbers_are_written_in_decimal() {
    let mut text = String::new();
    push_decimal(&mut text, 0);
    text.push(' ');
    push_decimal(&mut text, u64::MAX);
    text.push(' ');
    push_signed_decimal(&mut text, i64::MIN);
    text.push(' ');
    push_signed_decimal(&mut text, -1);
    assert_eq!(text, "0 18446744073709551615 -9223372036854775808 -1");
    let mut hex = String::new();
    push_hex_byte(&mut hex, 0xa9);
    push_hex_byte(&mut hex, 0x0f);
    assert_eq!(hex, "a90f");
}

#[test]
fn numbers_are_read_as_std_reads_them() {
    for text in [
        "0",
        "007",
        "+5",
        "18446744073709551615",
        "18446744073709551616",
        "99999999999999999999999",
        "",
        "+",
        "-",
        "-0",
        "-1",
        "++1",
        " 1",
        "1 ",
        "1_0",
        "0x1",
        "１",
    ] {
        assert_eq!(parse_u64(text), text.parse::<u64>().ok(), "{text:?}");
        assert_eq!(parse_usize(text), text.parse::<usize>().ok(), "{text:?}");
    }
    assert_eq!(parse_at_most("255", 255), Some(255));
    assert_eq!(parse_at_most("256", 255), None);
}

#[test]
fn text_is_compared_by_its_contents() {
    assert!(str_eq("é", "é"));
    assert!(!str_eq("a", "ab"));
    assert!(bytes_eq(b"ab", b"ab"));
    assert!(!bytes_eq(b"ab", b"ac"));
    assert_eq!(chars_of("aé伺"), vec!['a', 'é', '伺']);
}

#[test]
fn integers_are_laid_out_as_std_lays_them_out() {
    let mut out = Vec::new();
    push_u16_be(&mut out, 0x1234);
    push_i64_be(&mut out, -2);
    push_i64_be(&mut out, 0x0102_0304_0506_0708);
    push_low_three_le(&mut out, 0xaabb_ccdd);
    let mut expected = Vec::new();
    expected.extend_from_slice(&0x1234u16.to_be_bytes());
    expected.extend_from_slice(&(-2i64).to_be_bytes());
    expected.extend_from_slice(&0x0102_0304_0506_0708i64.to_be_bytes());
    expected.extend_from_slice(&0xaabb_ccddu32.to_le_bytes()[..3]);
    assert_eq!(out, expected);
    assert_eq!(read_u16_be(&[0, 1, 2], 1), 0x0102);
    assert_eq!(read_u32_be(&[1, 2, 3, 4], 0), 0x0102_0304);
    assert_eq!(read_u24_le(&[1, 2, 3], 0), 0x03_0201);
}

#[test]
fn variable_length_integers_read_back() {
    for value in [0u32, 127, 128, 16_383, 16_384, u32::MAX] {
        let mut out = vec![9];
        push_varint(&mut out, value);
        out.push(7);
        assert_eq!(decode_at(&out, 1), Some((value, out.len() - 2)));
    }
    assert_eq!(to_signed(u32::MAX), -1);
    assert_eq!(to_unsigned(i32::MIN), 0x8000_0000);
    for i in [i32::MIN, -1, 0, 1, i32::MAX] {
        assert_eq!(to_signed(to_unsigned(i)), i);
    }
}

#[test]
fn spans_of_time() {
    assert_eq!(Duration::from_secs(2), Duration::from_millis(2_000));
    assert_eq!(Duration::from_millis(1_999).as_secs(), 1);
    assert_eq!(Duration::from_nanos(1_999_999).as_millis(), 1);
    let one = Duration::from_secs(1);
    let two = Duration::from_secs(2);
    assert_eq!(two.saturating_sub(one), one);
    assert_eq!(one.saturating_sub(two), Duration::from_nanos(0));
}

#[test]
fn addresses_have_their_usual_notation() {
    let v4 = SocketAddr::v4([10, 0, 255, 1], 65535);
    let v6 = SocketAddr::v6("fe80::1%3".to_string(), 1);
    assert_eq!(v4.to_text(), "10.0.255.1:65535");
    assert_eq!(v6.to_text(), "[fe80::1%3]:1");
    assert!(!v4.is_ipv6());
    assert!(v6.is_ipv6());
    assert_eq!(v6.port(), 1);
    assert!(v4.same(&v4.clone()));
    assert!(!v4.same(&SocketAddr::v4([10, 0, 255, 1], 1)));
    assert!(!v4.same(&v6));
    let flow = SocketAddr::v6_with_flowinfo("fe80::1%3".to_string(), 1, 7);
    assert_eq!(flow.to_text(), "[fe80::1%3]:1");
    assert_eq!((v4.flowinfo(), v6.flowinfo(), flow.flowinfo()), (0, 0, 7));
    assert!(flow.same(&flow.clone()));
    assert!(!flow.same(&v6));
}
