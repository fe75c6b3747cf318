use request_trace::text::{to_decimal, to_zero_padded, to_zero_padded_signed, trim, TrimSet};

#[test]
fn numbers_are_padded_with_zeros() {
    for n in [0, 7, 10, 99, 100, 999_999, 1_000_000, u64::MAX] {
        assert_eq!(to_decimal(n), format!("{n}"));
        assert_eq!(to_zero_padded(n, 0), format!("{n:00}"));
        assert_eq!(to_zero_padded(n, 2), format!("{n:02}"));
        assert_eq!(to_zero_padded(n, 6), format!("{n:06}"));
    }
}

#[test]
fn a_sign_counts_as_padding() {
    for n in [0, 1, -1, -99, -999, -1000, 12345, i32::MIN, i32::MAX] {
        assert_eq!(to_zero_padded_signed(n, 4), format!("{n:04}"));
        assert_eq!(to_zero_padded_signed(n, 0), format!("{n}"));
    }
}

#[test]
fn trimming_takes_off_both_ends_only() {
    assert_eq!(trim("//a/b//", TrimSet::Slash), "a/b");
    assert_eq!(trim("////", TrimSet::Slash), "");
    assert_eq!(trim("", TrimSet::Slash), "");
    assert_eq!(trim(" /a ", TrimSet::Slash), " /a ");
    assert_eq!(trim("\u{3000}\t pod a\u{a0}\r\n", TrimSet::WhiteSpace), "pod a");
}

#[test]
fn white_space_is_what_std_trims() {
    for v in 0..0x11_0000u32 {
        if let Some(c) = char::from_u32(v) {
            assert_eq!(TrimSet::WhiteSpace.contains(c), c.is_whitespace(), "{v:x}");
        }
    }
}
