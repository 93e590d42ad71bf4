use awake_core::transitable::{base58_round_trip, base64_round_trip, bytes_round_trip, Transitable};
use awake_core::utils::u64_to_decimal;

const TEST_STRINGS: &[&str] = &[
    "This is a first test",
    "!@#$%^&*(){}[]:\"';<>,.?\\|",
    "T8796543213251324658479876543421654687498324438927342234fodiu>?ASS/Fds/.df/D.,sf';[]pro[pww",
];

#[test]
fn can_convert_transitable_base58() {
    for s in TEST_STRINGS {
        let base_58 = Transitable::from_readable(s).as_base58();
        let s_mod = Transitable::from_base58(&base_58)
            .unwrap()
            .as_readable()
            .unwrap();
        assert_eq!(*s, s_mod);
    }
}

#[test]
fn can_convert_transitable_base64() {
    for s in TEST_STRINGS {
        let base_64 = Transitable::from_readable(s).as_base64();
        let s_mod = Transitable::from_base64(&base_64)
            .unwrap()
            .as_readable()
            .unwrap();
        assert_eq!(*s, s_mod);
    }
}

#[test]
fn can_convert_transitable_bytes() {
    for s in TEST_STRINGS {
        let bytes = Transitable::from_readable(s).as_bytes();
        let s_mod = Transitable::from_bytes(&bytes).as_readable().unwrap();
        assert_eq!(*s, s_mod);
    }
}

#[test]
fn base64_projection_matches_known_value() {
    let t = Transitable::from_readable("hello");
    assert_eq!(t.as_base64(), "aGVsbG8=");
}

#[test]
fn base58_projection_matches_known_values() {
    assert_eq!(Transitable::from_bytes(&[0u8]).as_base58(), "1");
    assert_eq!(Transitable::from_bytes(&[1u8]).as_base58(), "2");
    let via_crate = bs58::encode(b"hello").into_string();
    assert_eq!(Transitable::from_readable("hello").as_base58(), via_crate);
}

#[test]
fn base58_rejects_invalid_text() {
    // '0' and 'O' are not in the Bitcoin base58 alphabet
    assert!(Transitable::from_base58("0OIl").is_err());
}

#[test]
fn base64_rejects_invalid_text() {
    assert!(Transitable::from_base64("not base64!!!").is_err());
}

#[test]
fn readable_projection_fails_on_invalid_utf8() {
    let t = Transitable::from_bytes(&[0xffu8, 0xfe, 0x80]);
    assert!(t.as_readable().is_none());
}

#[test]
fn readable_projection_keeps_unicode_text() {
    let s = "caf\u{e9} \u{1f600} text";
    let t = Transitable::from_readable(s);
    assert_eq!(t.as_readable().unwrap(), s);
}

#[test]
fn decimal_rendering_matches() {
    assert_eq!(u64_to_decimal(0), "0");
    assert_eq!(u64_to_decimal(7), "7");
    assert_eq!(u64_to_decimal(42), "42");
    assert_eq!(u64_to_decimal(1000000), "1000000");
    assert_eq!(u64_to_decimal(u64::MAX), "18446744073709551615");
}

#[test]
fn verified_round_trip_laws_hold_at_runtime() {
    for s in TEST_STRINGS {
        assert_eq!(base58_round_trip(s).unwrap(), *s);
        assert_eq!(base64_round_trip(s).unwrap(), *s);
        assert_eq!(bytes_round_trip(s).unwrap(), *s);
    }
}
