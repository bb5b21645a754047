use melba_stt::text::{is_white_space, join, trim, write_decimal, write_padded, write_signed};

#[test]
fn decimals_are_written_as_std_writes_them() {
    for n in [0u128, 1, 9, 10, 99, 100, 12_345, u64::MAX as u128, u128::MAX] {
        assert_eq!(write_decimal(n), n.to_string());
    }
    for i in [0i128, 1, -1, -10, 1_700_000_000_000_000_000, i128::MIN, i128::MAX] {
        assert_eq!(write_signed(i), i.to_string());
    }
}

#[test]
fn padding_goes_in_front() {
    assert_eq!(write_padded("7", 3, "0"), "007");
    assert_eq!(write_padded("1234", 3, "0"), "1234");
    assert_eq!(write_padded("", 2, "x"), "xx");
}

#[test]
fn lists_are_joined() {
    let parts = vec!["a".to_string(), "".to_string(), "bc".to_string()];
    assert_eq!(join(&parts, ", "), "a, , bc");
    assert_eq!(join(&vec!["only".to_string()], ", "), "only");
    assert_eq!(join(&vec![], ", "), "");
}

#[test]
fn white_space_is_what_std_takes_for_it() {
    for u in 0..=0x10_ffffu32 {
        if let Some(c) = char::from_u32(u) {
            assert_eq!(is_white_space(c), c.is_whitespace());
        }
    }
}

#[test]
fn both_ends_are_trimmed() {
    for s in ["", " ", "  a b\t", "\u{3000}x\u{a0}", "plain", "\n\n", " \u{e9} "] {
        assert_eq!(trim(s), s.trim());
    }
}
