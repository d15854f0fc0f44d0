use pagi_core::encoding::is_utf8;

fn agrees_with_std(bytes: &[u8]) {
    assert_eq!(is_utf8(bytes), std::str::from_utf8(bytes).is_ok(), "bytes {bytes:02x?}");
}

#[test]
fn text_is_utf8() {
    assert!(is_utf8(b""));
    assert!(is_utf8(b"plain ascii_123"));
    assert!(is_utf8("caf\u{e9} \u{20ac} \u{1f600} \u{7ff} \u{800} \u{ffff} \u{10000} \u{10ffff}".as_bytes()));
    assert!(is_utf8(&[0x00]));
    assert!(is_utf8(&[0x7f]));
    assert!(is_utf8(&[0xed, 0x9f, 0xbf]));
    assert!(is_utf8(&[0xee, 0x80, 0x80]));
}

#[test]
fn broken_encodings_are_not_utf8() {
    assert!(!is_utf8(&[0x80]));
    assert!(!is_utf8(&[0xbf]));
    assert!(!is_utf8(&[0xc3]));
    assert!(!is_utf8(&[0xc3, 0x28]));
    assert!(!is_utf8(&[0xc0, 0x80]));
    assert!(!is_utf8(&[0xc1, 0xbf]));
    assert!(!is_utf8(&[0xe0, 0x80, 0x80]));
    assert!(!is_utf8(&[0xe0, 0x9f, 0xbf]));
    assert!(!is_utf8(&[0xed, 0xa0, 0x80]));
    assert!(!is_utf8(&[0xed, 0xbf, 0xbf]));
    assert!(!is_utf8(&[0xf0, 0x80, 0x80, 0x80]));
    assert!(!is_utf8(&[0xf0, 0x8f, 0xbf, 0xbf]));
    assert!(!is_utf8(&[0xf4, 0x90, 0x80, 0x80]));
    assert!(!is_utf8(&[0xf5, 0x80, 0x80, 0x80]));
    assert!(!is_utf8(&[0xf8, 0x88, 0x80, 0x80, 0x80]));
    assert!(!is_utf8(&[0xff]));
    assert!(!is_utf8(&[0xe2, 0x82]));
    assert!(!is_utf8(&[0xf0, 0x9f, 0x98]));
    assert!(!is_utf8(b"ok\xffok"));
    assert!(!is_utf8(&[b'a', 0xe2, 0x82, 0xac, 0x80]));
}

#[test]
fn every_string_of_two_bytes_is_judged_as_std_judges_it() {
    for first in 0..=255u8 {
        agrees_with_std(&[first]);
        for second in 0..=255u8 {
            agrees_with_std(&[first, second]);
        }
    }
}

#[test]
fn strings_of_three_and_four_bytes_are_judged_as_std_judges_them() {
    let edges = [0x00u8, 0x7f, 0x80, 0x8f, 0x90, 0x9f, 0xa0, 0xbf, 0xc0, 0xc2, 0xdf, 0xff];
    for first in 0xc0..=255u8 {
        for second in edges {
            for third in edges {
                agrees_with_std(&[first, second, third]);
                agrees_with_std(&[b'a', first, second, third]);
                for fourth in edges {
                    agrees_with_std(&[first, second, third, fourth]);
                    agrees_with_std(&[first, second, third, fourth, b'z']);
                }
            }
        }
    }
}
