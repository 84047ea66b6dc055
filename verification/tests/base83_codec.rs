use blurhash::decode83;
use blurhash::encode83;

#[test]
fn encode83_single_digits() {
    assert_eq!(encode83(0, 1), "0");
    assert_eq!(encode83(9, 1), "9");
    assert_eq!(encode83(10, 1), "A");
    assert_eq!(encode83(35, 1), "Z");
    assert_eq!(encode83(36, 1), "a");
    assert_eq!(encode83(61, 1), "z");
    assert_eq!(encode83(62, 1), "#");
    assert_eq!(encode83(82, 1), "~");
}

#[test]
fn encode83_fixed_width() {
    assert_eq!(encode83(0, 4), "0000");
    assert_eq!(encode83(83, 2), "10");
    assert_eq!(encode83(18, 2), "0I");
    assert_eq!(encode83(6888, 2), "~~");
    assert_eq!(encode83(47458320, 4), "~~~~");
    assert_eq!(encode83(16777215, 4), "TSUA");
}

#[test]
fn decode83_values() {
    assert_eq!(decode83(""), Some(0));
    assert_eq!(decode83("0"), Some(0));
    assert_eq!(decode83("~"), Some(82));
    assert_eq!(decode83("%"), Some(64));
    assert_eq!(decode83("10"), Some(83));
    assert_eq!(decode83("~~"), Some(6888));
    assert_eq!(decode83("~~~~"), Some(47458320));
}

#[test]
fn decode83_rejects_foreign_characters() {
    assert_eq!(decode83("!"), None);
    assert_eq!(decode83(" "), None);
    assert_eq!(decode83("12!4"), None);
    assert_eq!(decode83("\u{00e9}"), None);
}

#[test]
fn base83_round_trips() {
    for n in [0u32, 1, 82, 83, 6888, 6889, 571786, 571787, 47458320] {
        let s = encode83(n, 4);
        assert_eq!(s.chars().count(), 4);
        assert_eq!(decode83(&s), Some(n as u64));
    }
    for n in [0u32, 41, 82] {
        assert_eq!(decode83(&encode83(n, 1)), Some(n as u64));
    }
    for n in [0u32, 84, 6888] {
        assert_eq!(decode83(&encode83(n, 2)), Some(n as u64));
    }
}
