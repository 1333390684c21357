use rfc2253::chars::decode_hex_pair;
use rfc2253::{is_alpha, is_digit, is_escape, is_hexchar, is_quotation, is_special};

fn members(class: fn(char) -> bool) -> String {
    (0u32..0x2000).filter_map(char::from_u32).filter(|c| class(*c)).collect()
}

#[test]
fn alpha_is_the_ascii_letters() {
    assert_eq!(members(is_alpha), "ABCDEFGHIJKLMNOPQRSTUVWXYZabcdefghijklmnopqrstuvwxyz");
    assert!(!is_alpha('\u{e9}'));
}

#[test]
fn digit_is_the_ascii_digits() {
    assert_eq!(members(is_digit), "0123456789");
    assert!(!is_digit('\u{0663}'));
}

#[test]
fn special_is_the_seven_delimiters() {
    assert_eq!(members(is_special), "#+,;<=>");
}

#[test]
fn quotation_is_the_quotation_mark() {
    assert_eq!(members(is_quotation), "\"");
    assert!(!is_quotation('\''));
}

#[test]
fn escape_is_the_backslash() {
    assert_eq!(members(is_escape), "\\");
    assert!(!is_escape('/'));
}

#[test]
fn hexchar_is_the_hexadecimal_digits() {
    assert_eq!(members(is_hexchar), "0123456789ABCDEFabcdef");
}

#[test]
fn hex_pair_is_the_code_of_a_character() {
    assert_eq!(decode_hex_pair('4', 'E'), Some('N'));
    assert_eq!(decode_hex_pair('4', 'e'), Some('N'));
    assert_eq!(decode_hex_pair('2', '1'), Some('!'));
    assert_eq!(decode_hex_pair('0', '0'), Some('\u{0}'));
    assert_eq!(decode_hex_pair('0', 'a'), Some('\n'));
    assert_eq!(decode_hex_pair('a', '0'), Some('\u{a0}'));
    assert_eq!(decode_hex_pair('F', 'f'), Some('\u{ff}'));
    assert_eq!(decode_hex_pair('9', '9'), Some('\u{99}'));
}

#[test]
fn hex_pair_of_other_characters_is_none() {
    assert_eq!(decode_hex_pair('G', '0'), None);
    assert_eq!(decode_hex_pair('0', 'g'), None);
    assert_eq!(decode_hex_pair('+', 'A'), None);
    assert_eq!(decode_hex_pair('-', '1'), None);
    assert_eq!(decode_hex_pair(' ', '1'), None);
    assert_eq!(decode_hex_pair('1', ' '), None);
    assert_eq!(decode_hex_pair('\u{ff11}', '1'), None);
}

#[test]
fn every_hex_pair_decodes_to_its_code() {
    let digits: Vec<char> = "0123456789abcdef".chars().collect();
    for code in 0u32..256 {
        let high = digits[(code / 16) as usize];
        let low = digits[(code % 16) as usize];
        let expected = char::from_u32(code);
        assert_eq!(decode_hex_pair(high, low), expected);
        assert_eq!(decode_hex_pair(high.to_ascii_uppercase(), low), expected);
        assert_eq!(decode_hex_pair(high, low.to_ascii_uppercase()), expected);
    }
}
