use emoji_builder::codepoints::{parse_hex, sequence_to_hex};
use emoji_builder::hexfmt::{hex_len, u32_to_hex};

#[test]
fn mod_test_hex() {
    let a = 0x1f914;
    let b = 0xfffff;
    let c = 0x00000;
    let d = 0x00001;
    assert_eq!(5, hex_len(a));
    assert_eq!(5, hex_len(b));
    assert_eq!(0, hex_len(c));
    assert_eq!(1, hex_len(d));
}

#[test]
fn codepoint_hex_has_no_leading_zeros() {
    assert_eq!(u32_to_hex(0x1f600), "1f600");
    assert_eq!(u32_to_hex(0), "0");
    assert_eq!(u32_to_hex(0xffffffff), "ffffffff");
    assert_eq!(hex_len(0xffffffff), 8);
}

#[test]
fn sequence_text_round_trip() {
    let seq = vec![0x1f3f3, 0xfe0f, 0x200d, 0x1f308];
    let text = sequence_to_hex(&seq);
    assert_eq!(text, "1f3f3 fe0f 200d 1f308");
    assert_eq!(parse_hex(&text), seq);
    assert_eq!(sequence_to_hex(&vec![]), "");
}

#[test]
fn parse_hex_is_lenient() {
    assert_eq!(parse_hex("  1F600  zz 1f601\t"), vec![0x1f600, 0x1f601]);
    assert_eq!(parse_hex("+a  100000000 b"), vec![0xa, 0xb]);
    assert_eq!(parse_hex(""), Vec::<u32>::new());
}
