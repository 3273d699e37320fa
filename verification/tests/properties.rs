use std::cmp::Ordering;
use std::collections::hash_map::DefaultHasher;
use std::hash::{Hash, Hasher};

use tinystr::{Error, GenMask, TinyStr16, TinyStr4, TinyStr8};

const FULL: &str = "abcdefghijklmnop";

fn hash_of<T: Hash>(value: &T) -> u64 {
    let mut hasher = DefaultHasher::new();
    value.hash(&mut hasher);
    hasher.finish()
}

#[test]
fn genmask_repeats_the_byte() {
    assert_eq!(u32::genmask(0x00), 0);
    assert_eq!(u32::genmask(0x01), 0x0101_0101);
    assert_eq!(u32::genmask(0x80), 0x8080_8080);
    assert_eq!(u32::genmask(0xff), 0xffff_ffff);
    assert_eq!(u64::genmask(0x7f), 0x7f7f_7f7f_7f7f_7f7f);
    assert_eq!(u64::genmask(0xff), u64::MAX);
    assert_eq!(u128::genmask(0x25), 0x2525_2525_2525_2525_2525_2525_2525_2525);
    assert_eq!(u128::genmask(0xff), u128::MAX);
}

#[test]
fn raw_value_has_the_first_character_lowest() {
    let s: TinyStr4 = "abc".parse().unwrap();
    assert_eq!(u32::from(s), 0x0063_6261);
    let s: TinyStr8 = "abcde".parse().unwrap();
    assert_eq!(u64::from(s), 0x0000_0065_6463_6261);
    let s: TinyStr16 = "abcdefghi".parse().unwrap();
    assert_eq!(u128::from(s), 0x0069_6867_6665_6463_6261);
    let s: TinyStr4 = "\u{7f}\u{1}".parse().unwrap();
    assert_eq!(u32::from(s), 0x017f);
}

#[test]
fn round_trip_every_length() {
    for len in 1..=4 {
        let text = &FULL[..len];
        let s: TinyStr4 = text.parse().unwrap();
        assert_eq!(s.as_str(), text);
        assert_eq!(s.len(), len);
    }
    for len in 1..=8 {
        let text = &FULL[..len];
        let s: TinyStr8 = text.parse().unwrap();
        assert_eq!(s.as_str(), text);
        assert_eq!(s.len(), len);
    }
    for len in 1..=16 {
        let text = &FULL[..len];
        let s: TinyStr16 = text.parse().unwrap();
        assert_eq!(s.as_str(), text);
        assert_eq!(s.len(), len);
    }
}

#[test]
fn round_trip_every_ascii_character() {
    for code in 1u8..=0x7f {
        let text = String::from(code as char);
        assert_eq!(text.parse::<TinyStr4>().unwrap().as_str(), text);
        assert_eq!(text.parse::<TinyStr8>().unwrap().as_str(), text);
        assert_eq!(text.parse::<TinyStr16>().unwrap().as_str(), text);
    }
}

#[test]
fn size_boundary() {
    assert_eq!("".parse::<TinyStr4>(), Err(Error::InvalidSize));
    assert_eq!("".parse::<TinyStr8>(), Err(Error::InvalidSize));
    assert_eq!("".parse::<TinyStr16>(), Err(Error::InvalidSize));
    assert!(FULL[..4].parse::<TinyStr4>().is_ok());
    assert!(FULL[..8].parse::<TinyStr8>().is_ok());
    assert!(FULL[..16].parse::<TinyStr16>().is_ok());
    assert_eq!(FULL[..5].parse::<TinyStr4>(), Err(Error::InvalidSize));
    assert_eq!(FULL[..9].parse::<TinyStr8>(), Err(Error::InvalidSize));
    assert_eq!("abcdefghijklmnopq".parse::<TinyStr16>(), Err(Error::InvalidSize));
}

#[test]
fn size_is_counted_in_bytes() {
    // Two characters, six bytes.
    assert_eq!("\u{4000}\u{4000}".parse::<TinyStr4>(), Err(Error::InvalidSize));
    assert_eq!("\u{4000}\u{4000}".parse::<TinyStr8>(), Err(Error::NonAscii));
    // Four characters, eight bytes.
    assert_eq!("éééé".parse::<TinyStr4>(), Err(Error::InvalidSize));
    assert_eq!("éééé".parse::<TinyStr8>(), Err(Error::NonAscii));
    assert_eq!("ééééé".parse::<TinyStr8>(), Err(Error::InvalidSize));
}

#[test]
fn size_is_judged_before_the_characters() {
    assert_eq!("a\u{0}bcd".parse::<TinyStr4>(), Err(Error::InvalidSize));
    assert_eq!("abcd\u{e9}".parse::<TinyStr4>(), Err(Error::InvalidSize));
}

#[test]
fn null_rejected_at_every_position() {
    for at in 0..4 {
        let mut text = String::from("abcd");
        text.replace_range(at..at + 1, "\u{0}");
        assert_eq!(text.parse::<TinyStr4>(), Err(Error::InvalidNull));
    }
    for at in 0..8 {
        let mut text = String::from("abcdefgh");
        text.replace_range(at..at + 1, "\u{0}");
        assert_eq!(text.parse::<TinyStr8>(), Err(Error::InvalidNull));
    }
    for at in 0..16 {
        let mut text = String::from(FULL);
        text.replace_range(at..at + 1, "\u{0}");
        assert_eq!(text.parse::<TinyStr16>(), Err(Error::InvalidNull));
    }
    assert_eq!("\u{0}".parse::<TinyStr4>(), Err(Error::InvalidNull));
    assert_eq!("a\u{0}".parse::<TinyStr8>(), Err(Error::InvalidNull));
    assert_eq!("\u{0}\u{0}".parse::<TinyStr16>(), Err(Error::InvalidNull));
}

#[test]
fn non_ascii_rejected_at_every_position() {
    for at in 0..3 {
        let mut text = String::from("abc");
        text.replace_range(at..at + 1, "\u{80}");
        assert_eq!(text.parse::<TinyStr4>(), Err(Error::NonAscii));
    }
    for at in 0..7 {
        let mut text = String::from("abcdefg");
        text.replace_range(at..at + 1, "\u{e9}");
        assert_eq!(text.parse::<TinyStr8>(), Err(Error::NonAscii));
    }
    for at in 0..15 {
        let mut text = String::from(&FULL[..15]);
        text.replace_range(at..at + 1, "\u{7ff}");
        assert_eq!(text.parse::<TinyStr16>(), Err(Error::NonAscii));
    }
}

#[test]
fn non_ascii_is_judged_before_null() {
    assert_eq!("\u{0}\u{e9}".parse::<TinyStr4>(), Err(Error::NonAscii));
    assert_eq!("\u{e9}\u{0}".parse::<TinyStr4>(), Err(Error::NonAscii));
    assert_eq!("a\u{0}\u{e9}".parse::<TinyStr8>(), Err(Error::NonAscii));
    assert_eq!("a\u{0}\u{e9}".parse::<TinyStr16>(), Err(Error::NonAscii));
}

#[test]
fn order_is_the_order_of_the_texts() {
    let texts = [
        "a", "ab", "abc", "abcd", "abd", "b", "B", "Z", "z", "fr", "zh", "0", "~", "\u{1}",
        "a\u{1}", "aa", "a~", "\u{7f}",
    ];
    for s in texts {
        for t in texts {
            let a: TinyStr4 = s.parse().unwrap();
            let b: TinyStr4 = t.parse().unwrap();
            assert_eq!(a.cmp(&b), s.cmp(t));
            assert_eq!(a.partial_cmp(&b), Some(s.cmp(t)));
            let a: TinyStr8 = s.parse().unwrap();
            let b: TinyStr8 = t.parse().unwrap();
            assert_eq!(a.cmp(&b), s.cmp(t));
            assert_eq!(a.partial_cmp(&b), Some(s.cmp(t)));
            let a: TinyStr16 = s.parse().unwrap();
            let b: TinyStr16 = t.parse().unwrap();
            assert_eq!(a.cmp(&b), s.cmp(t));
            assert_eq!(a.partial_cmp(&b), Some(s.cmp(t)));
        }
    }
}

#[test]
fn order_of_long_texts() {
    let texts = [
        "abcdefgh", "abcdefg", "abcdefgi", "abcdefghijklmnop", "abcdefghijklmnoq",
        "abcdefghijklmno", "bbcdefghijklmnop", "macos_xxxx", "nedis_xxxx",
    ];
    for s in texts {
        for t in texts {
            let a: TinyStr16 = s.parse().unwrap();
            let b: TinyStr16 = t.parse().unwrap();
            assert_eq!(a.cmp(&b), s.cmp(t));
        }
    }
}

#[test]
fn prefix_comes_first() {
    let ab: TinyStr4 = "ab".parse().unwrap();
    let abc: TinyStr4 = "abc".parse().unwrap();
    assert_eq!(ab.cmp(&abc), Ordering::Less);
    assert_eq!(abc.cmp(&ab), Ordering::Greater);
    assert_eq!(ab.cmp(&ab), Ordering::Equal);
    assert!(ab < abc);
    assert!(abc > ab);
    assert!(ab <= ab);
    let fr: TinyStr4 = "fr".parse().unwrap();
    let zh: TinyStr4 = "zh".parse().unwrap();
    assert!(fr < zh);
}

#[test]
fn sorting_by_the_order() {
    let mut v: Vec<TinyStr8> = ["pl", "en", "und", "Latn", "en-US", "e", "419"]
        .iter()
        .map(|s| s.parse().unwrap())
        .collect();
    v.sort_by(|a, b| a.cmp(b));
    let sorted: Vec<String> = v.iter().map(|s| s.as_str()).collect();
    assert_eq!(sorted, vec!["419", "Latn", "e", "en", "en-US", "pl", "und"]);
}

#[test]
fn case_folding_agrees_with_the_character_methods() {
    for code in 1u8..=0x7f {
        for at in 0..4 {
            let mut text = String::from("aZ9-");
            text.replace_range(at..at + 1, &String::from(code as char));
            let s: TinyStr4 = text.parse().unwrap();
            assert_eq!(s.to_ascii_uppercase().as_str(), text.to_ascii_uppercase());
            assert_eq!(s.to_ascii_lowercase().as_str(), text.to_ascii_lowercase());
            assert_eq!(
                s.is_ascii_alphanumeric(),
                text.bytes().all(|b| b.is_ascii_alphanumeric())
            );
        }
        for at in 0..8 {
            let mut text = String::from("aZ9-bY8_");
            text.replace_range(at..at + 1, &String::from(code as char));
            let s: TinyStr8 = text.parse().unwrap();
            assert_eq!(s.to_ascii_uppercase().as_str(), text.to_ascii_uppercase());
            assert_eq!(s.to_ascii_lowercase().as_str(), text.to_ascii_lowercase());
        }
        for at in 0..16 {
            let mut text = String::from("aZ9-bY8_cX7~dW6!");
            text.replace_range(at..at + 1, &String::from(code as char));
            let s: TinyStr16 = text.parse().unwrap();
            assert_eq!(s.to_ascii_uppercase().as_str(), text.to_ascii_uppercase());
            assert_eq!(s.to_ascii_lowercase().as_str(), text.to_ascii_lowercase());
        }
    }
}

#[test]
fn alphanumeric_agrees_with_the_character_method() {
    for code in 1u8..=0x7f {
        let expected = code.is_ascii_alphanumeric();
        for at in 0..4 {
            let mut text = String::from("aZ09");
            text.replace_range(at..at + 1, &String::from(code as char));
            assert_eq!(text.parse::<TinyStr4>().unwrap().is_ascii_alphanumeric(), expected);
        }
        for at in 0..8 {
            let mut text = String::from("aZ09bY18");
            text.replace_range(at..at + 1, &String::from(code as char));
            assert_eq!(text.parse::<TinyStr8>().unwrap().is_ascii_alphanumeric(), expected);
        }
        for at in 0..16 {
            let mut text = String::from("aZ09bY18cX27dW36");
            text.replace_range(at..at + 1, &String::from(code as char));
            assert_eq!(text.parse::<TinyStr16>().unwrap().is_ascii_alphanumeric(), expected);
        }
        let text = String::from(code as char);
        assert_eq!(text.parse::<TinyStr4>().unwrap().is_ascii_alphanumeric(), expected);
        assert_eq!(text.parse::<TinyStr8>().unwrap().is_ascii_alphanumeric(), expected);
        assert_eq!(text.parse::<TinyStr16>().unwrap().is_ascii_alphanumeric(), expected);
    }
}

#[test]
fn alphanumeric_examples() {
    assert!("abYZ".parse::<TinyStr4>().unwrap().is_ascii_alphanumeric());
    assert!(!"@aZ[".parse::<TinyStr4>().unwrap().is_ascii_alphanumeric());
    assert!("a1B2".parse::<TinyStr4>().unwrap().is_ascii_alphanumeric());
    assert!("0129".parse::<TinyStr4>().unwrap().is_ascii_alphanumeric());
    assert!("419".parse::<TinyStr8>().unwrap().is_ascii_alphanumeric());
    assert!("x".parse::<TinyStr16>().unwrap().is_ascii_alphanumeric());
    assert!(!"a b".parse::<TinyStr4>().unwrap().is_ascii_alphanumeric());
    assert!(!"/".parse::<TinyStr4>().unwrap().is_ascii_alphanumeric());
    assert!(!":".parse::<TinyStr4>().unwrap().is_ascii_alphanumeric());
    assert!(!"`".parse::<TinyStr8>().unwrap().is_ascii_alphanumeric());
    assert!(!"{".parse::<TinyStr16>().unwrap().is_ascii_alphanumeric());
    assert!(!"en-US".parse::<TinyStr8>().unwrap().is_ascii_alphanumeric());
}

#[test]
fn titlecase_examples() {
    assert_eq!("ABCD".parse::<TinyStr4>().unwrap().to_ascii_titlecase().as_str(), "Abcd");
    assert_eq!("123a".parse::<TinyStr4>().unwrap().to_ascii_titlecase().as_str(), "123a");
    assert_eq!("123A".parse::<TinyStr4>().unwrap().to_ascii_titlecase().as_str(), "123a");
    assert_eq!("a".parse::<TinyStr4>().unwrap().to_ascii_titlecase().as_str(), "A");
    assert_eq!("Z".parse::<TinyStr8>().unwrap().to_ascii_titlecase().as_str(), "Z");
    assert_eq!("hANS".parse::<TinyStr8>().unwrap().to_ascii_titlecase().as_str(), "Hans");
    assert_eq!("[A{z".parse::<TinyStr4>().unwrap().to_ascii_titlecase().as_str(), "[a{z");
    assert_eq!(
        "mACINTOSHosx2019".parse::<TinyStr16>().unwrap().to_ascii_titlecase().as_str(),
        "Macintoshosx2019"
    );
}

#[test]
fn titlecase_agrees_with_the_character_methods() {
    for code in 1u8..=0x7f {
        for at in 0..4 {
            let mut text = String::from("aZ9-");
            text.replace_range(at..at + 1, &String::from(code as char));
            let expected: String = text
                .chars()
                .enumerate()
                .map(|(i, c)| if i == 0 { c.to_ascii_uppercase() } else { c.to_ascii_lowercase() })
                .collect();
            assert_eq!(text.parse::<TinyStr4>().unwrap().to_ascii_titlecase().as_str(), expected);
        }
        for at in 0..16 {
            let mut text = String::from("aZ9-bY8_cX7~dW6!");
            text.replace_range(at..at + 1, &String::from(code as char));
            let expected: String = text
                .chars()
                .enumerate()
                .map(|(i, c)| if i == 0 { c.to_ascii_uppercase() } else { c.to_ascii_lowercase() })
                .collect();
            assert_eq!(
                text.parse::<TinyStr16>().unwrap().to_ascii_titlecase().as_str(),
                expected
            );
            let text = &text[..8];
            let expected = &expected[..8];
            assert_eq!(text.parse::<TinyStr8>().unwrap().to_ascii_titlecase().as_str(), expected);
        }
    }
}

#[test]
fn case_folding_twice_is_case_folding_once() {
    for text in ["abYZ", "@aZ[", "en", "Latn", "A1b2", "~"] {
        let s: TinyStr4 = text.parse().unwrap();
        assert_eq!(s.to_ascii_uppercase().to_ascii_uppercase(), s.to_ascii_uppercase());
        assert_eq!(s.to_ascii_lowercase().to_ascii_lowercase(), s.to_ascii_lowercase());
        assert_eq!(s.to_ascii_uppercase().to_ascii_lowercase(), s.to_ascii_lowercase());
        assert_eq!(s.to_ascii_titlecase().to_ascii_titlecase(), s.to_ascii_titlecase());
    }
    let s: TinyStr16 = "WindowsCE/ME/NT".parse().unwrap();
    assert_eq!(s.to_ascii_uppercase().to_ascii_uppercase(), s.to_ascii_uppercase());
    assert_eq!(s.to_ascii_lowercase().to_ascii_lowercase(), s.to_ascii_lowercase());
    assert_eq!(s.to_ascii_uppercase().to_ascii_lowercase(), s.to_ascii_lowercase());
    assert_eq!(s.to_ascii_uppercase().as_str(), "WINDOWSCE/ME/NT");
    assert_eq!(s.to_ascii_lowercase().as_str(), "windowsce/me/nt");
}

#[test]
fn unchecked_round_trip() {
    let v: TinyStr4 = "Hans".parse().unwrap();
    assert_eq!(TinyStr4::new_unchecked(u32::from(v)), v);
    let v: TinyStr8 = "macos".parse().unwrap();
    assert_eq!(TinyStr8::new_unchecked(u64::from(v)), v);
    let v: TinyStr16 = "MacintoshOSX2019".parse().unwrap();
    assert_eq!(TinyStr16::new_unchecked(u128::from(v)), v);
    assert_eq!(TinyStr4::new_unchecked(0x6e65).as_str(), "en");
}

#[test]
fn checked_raw_constructor() {
    let v: TinyStr4 = "en".parse().unwrap();
    assert_eq!(TinyStr4::from_raw(0x6e65), Some(v));
    assert_eq!(TinyStr4::from_raw(u32::from(v)), Some(v));
    assert_eq!(TinyStr4::from_raw(0x7f7f_7f7f).unwrap().len(), 4);
    assert_eq!(TinyStr4::from_raw(0), None);
    assert_eq!(TinyStr4::from_raw(0x0061_0061), None);
    assert_eq!(TinyStr4::from_raw(0x6100_0000), None);
    assert_eq!(TinyStr4::from_raw(0x0000_6100), None);
    assert_eq!(TinyStr4::from_raw(0x80), None);
    assert_eq!(TinyStr4::from_raw(0x6180), None);
    assert_eq!(TinyStr4::from_raw(0xe961), None);
    assert_eq!(TinyStr4::from_raw(0xffff_ffff), None);

    let v: TinyStr8 = "Windows".parse().unwrap();
    assert_eq!(TinyStr8::from_raw(u64::from(v)), Some(v));
    assert_eq!(TinyStr8::from_raw(0), None);
    assert_eq!(TinyStr8::from_raw(0x0061_0000_0000_0061), None);
    assert_eq!(TinyStr8::from_raw(0x8000_0000_0000_0000), None);
    assert_eq!(TinyStr8::from_raw(0x0100_0000_0000_0000), None);
    assert_eq!(TinyStr8::from_raw(0x0101_0101_0101_0101).unwrap().len(), 8);

    let v: TinyStr16 = "WindowsCE/ME/NT".parse().unwrap();
    assert_eq!(TinyStr16::from_raw(u128::from(v)), Some(v));
    assert_eq!(TinyStr16::from_raw(0), None);
    assert_eq!(TinyStr16::from_raw(1u128 << 120), None);
    assert_eq!(TinyStr16::from_raw(0x80u128 << 64), None);
    assert_eq!(TinyStr16::from_raw(0x61u128 << 64 | 0x61), None);
    assert_eq!(TinyStr16::from_raw(u128::MAX), None);
    assert_eq!(TinyStr16::from_raw(u128::genmask(0x7f)).unwrap().len(), 16);
}

#[test]
fn length_is_where_the_zero_bytes_begin() {
    assert_eq!(TinyStr4::new_unchecked(0x61).len(), 1);
    assert_eq!(TinyStr4::new_unchecked(0x0100).len() , 2);
    assert_eq!(TinyStr4::new_unchecked(0x01_0101).len(), 3);
    assert_eq!(TinyStr4::new_unchecked(0x0101_0101).len(), 4);
    assert_eq!(TinyStr8::new_unchecked(0x01).len(), 1);
    assert_eq!(TinyStr8::new_unchecked(0x01_0101_0101).len(), 5);
    assert_eq!(TinyStr8::new_unchecked(0x7f7f_7f7f_7f7f_7f7f).len(), 8);
    assert_eq!(TinyStr16::new_unchecked(0x7f).len(), 1);
    assert_eq!(TinyStr16::new_unchecked(0x01_0101_0101_0101_0101).len(), 9);
    assert_eq!(TinyStr16::new_unchecked(u128::genmask(0x01)).len(), 16);
}

#[test]
fn equality_with_a_string() {
    let s: TinyStr4 = "en".parse().unwrap();
    assert!(s == "en");
    assert!(s != "fr");
    assert!(s != "e");
    assert!(s != "en-");
    assert!(s != "");
    assert!(s != "en-US");
    assert!(s != "e\u{0}");
    assert!(s != "\u{e9}n");
    let s: TinyStr8 = "Windows".parse().unwrap();
    assert!(s == "Windows");
    assert!(s != "windows");
    assert!(s != "Windows98SE");
    let s: TinyStr16 = "windows98SE".parse().unwrap();
    assert!(s == "windows98SE");
    assert!(s != "windows98");
}

#[test]
fn equal_values_hash_alike() {
    let a: TinyStr4 = "en".parse().unwrap();
    let b = TinyStr4::new_unchecked(0x6e65);
    assert_eq!(a, b);
    assert_eq!(hash_of(&a), hash_of(&b));
    let a: TinyStr16 = "windows98SE".parse().unwrap();
    let b: TinyStr16 = "WINDOWS98se".parse().unwrap();
    assert_eq!(a.to_ascii_lowercase(), b.to_ascii_lowercase());
    assert_eq!(hash_of(&a.to_ascii_lowercase()), hash_of(&b.to_ascii_lowercase()));
}

#[test]
fn values_are_copied() {
    let a: TinyStr8 = "macos".parse().unwrap();
    let b = a;
    let c = a.clone();
    assert_eq!(a, b);
    assert_eq!(a, c);
    assert_eq!(b.to_ascii_uppercase().as_str(), "MACOS");
    assert_eq!(a.as_str(), "macos");
}

#[test]
fn debug_rendering_quotes_and_escapes() {
    let s: TinyStr4 = "a\"b".parse().unwrap();
    assert_eq!(s.to_debug_string(), "\"a\\\"b\"");
    let s: TinyStr4 = "a\\b".parse().unwrap();
    assert_eq!(s.to_debug_string(), "\"a\\\\b\"");
    let s: TinyStr8 = "a\tb\n".parse().unwrap();
    assert_eq!(s.to_debug_string(), "\"a\\tb\\n\"");
    let s: TinyStr16 = "it's \u{1}".parse().unwrap();
    assert_eq!(s.to_debug_string(), format!("{:?}", "it's \u{1}"));
    let s: TinyStr16 = "abcdefghijkl".parse().unwrap();
    assert_eq!(s.to_debug_string(), "\"abcdefghijkl\"");
}

#[test]
fn concrete_scenarios() {
    assert_eq!("en".parse::<TinyStr4>().unwrap().as_str(), "en");
    assert_eq!("".parse::<TinyStr4>(), Err(Error::InvalidSize));
    assert_eq!("a\u{0}b".parse::<TinyStr4>(), Err(Error::InvalidNull));
    assert_eq!("\u{4000}".parse::<TinyStr4>(), Err(Error::NonAscii));
    assert_eq!("12345".parse::<TinyStr4>(), Err(Error::InvalidSize));
    let mut v: Vec<TinyStr4> = vec!["zh".parse().unwrap(), "fr".parse().unwrap()];
    v.sort_by(|a, b| a.cmp(b));
    assert_eq!(v[0].as_str(), "fr");
    assert_eq!(v[1].as_str(), "zh");
}

#[test]
fn errors_are_told_apart() {
    assert_ne!(Error::InvalidSize, Error::InvalidNull);
    assert_ne!(Error::InvalidNull, Error::NonAscii);
    assert_ne!(Error::NonAscii, Error::InvalidSize);
    let e = Error::NonAscii;
    let copy = e;
    assert_eq!(e, copy);
    assert_eq!(format!("{:?}", Error::InvalidSize), "InvalidSize");
}
