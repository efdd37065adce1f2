use erased_registry::composite_id::{CompositeId, DecodeError, KeyText};
use erased_registry::decimal::{digit_of, format_u32, read_u32, write_u32};
use erased_registry::text::text_eq;

fn text_id(discriminator: u32, key: &str) -> CompositeId<String> {
    CompositeId(discriminator, key.to_string())
}

#[test]
fn encode_writes_discriminator_separator_key() {
    assert_eq!(CompositeId(0u32, 42u32).encode(), "0:42");
    assert_eq!(CompositeId(7u32, 0u32).encode(), "7:0");
    assert_eq!(text_id(1, "abc").encode(), "1:abc");
    assert_eq!(text_id(1, "").encode(), "1:");
    assert_eq!(CompositeId(u32::MAX, u32::MAX).encode(), "4294967295:4294967295");
}

#[test]
fn decode_reads_numeric_identifier() {
    assert_eq!(CompositeId::<u32>::decode("0:42"), Ok(CompositeId(0, 42)));
    assert_eq!(
        CompositeId::<u32>::decode("4294967295:4294967295"),
        Ok(CompositeId(u32::MAX, u32::MAX))
    );
}

#[test]
fn decode_reads_text_identifier() {
    assert_eq!(CompositeId::<String>::decode("1:abc"), Ok(text_id(1, "abc")));
    assert_eq!(CompositeId::<String>::decode("1:"), Ok(text_id(1, "")));
    assert_eq!(CompositeId::<String>::decode("1: a b "), Ok(text_id(1, " a b ")));
}

#[test]
fn round_trip_numeric_keys() {
    let samples = [0u32, 1, 9, 10, 11, 99, 100, 101, 12345, 1_000_000, u32::MAX - 1, u32::MAX];
    for &discriminator in samples.iter() {
        for &key in samples.iter() {
            let id = CompositeId(discriminator, key);
            assert!(id.is_valid());
            assert_eq!(CompositeId::<u32>::decode(&id.encode()), Ok(CompositeId(discriminator, key)));
        }
    }
}

#[test]
fn round_trip_text_keys() {
    let keys = ["", "k", "abc", " spaced out ", "+5", "007", "käse", "日本語", "a/b;c,d", "\t\n"];
    for &discriminator in [0u32, 1, 42, u32::MAX].iter() {
        for key in keys.iter() {
            let id = text_id(discriminator, key);
            assert!(id.is_valid());
            assert_eq!(CompositeId::<String>::decode(&id.encode()), Ok(text_id(discriminator, key)));
        }
    }
}

#[test]
fn decode_rejects_malformed_text() {
    assert!(CompositeId::<u32>::decode("1").is_err());
    assert!(CompositeId::<u32>::decode("1:2:3").is_err());
    assert!(CompositeId::<u32>::decode("x:1").is_err());
    assert!(CompositeId::<String>::decode("1").is_err());
    assert!(CompositeId::<String>::decode("1:2:3").is_err());
    assert!(CompositeId::<String>::decode("x:1").is_err());
}

#[test]
fn decode_reports_wrong_part_count() {
    assert_eq!(CompositeId::<u32>::decode(""), Err(DecodeError::PartCount));
    assert_eq!(CompositeId::<u32>::decode("1"), Err(DecodeError::PartCount));
    assert_eq!(CompositeId::<u32>::decode("1:2:3"), Err(DecodeError::PartCount));
    assert_eq!(CompositeId::<u32>::decode("::"), Err(DecodeError::PartCount));
    assert_eq!(CompositeId::<u32>::decode("x:y:z"), Err(DecodeError::PartCount));
    assert_eq!(CompositeId::<String>::decode("abc"), Err(DecodeError::PartCount));
    assert_eq!(CompositeId::<String>::decode("1:a:b"), Err(DecodeError::PartCount));
}

#[test]
fn decode_reports_bad_discriminator() {
    assert_eq!(CompositeId::<u32>::decode("x:1"), Err(DecodeError::Discriminator));
    assert_eq!(CompositeId::<u32>::decode(":1"), Err(DecodeError::Discriminator));
    assert_eq!(CompositeId::<u32>::decode("x:y"), Err(DecodeError::Discriminator));
    assert_eq!(CompositeId::<u32>::decode("-1:2"), Err(DecodeError::Discriminator));
    assert_eq!(CompositeId::<u32>::decode("4294967296:1"), Err(DecodeError::Discriminator));
    assert_eq!(CompositeId::<String>::decode("x:1"), Err(DecodeError::Discriminator));
    assert_eq!(CompositeId::<String>::decode(":key"), Err(DecodeError::Discriminator));
}

#[test]
fn decode_reports_bad_key() {
    assert_eq!(CompositeId::<u32>::decode("1:x"), Err(DecodeError::Key));
    assert_eq!(CompositeId::<u32>::decode("1:"), Err(DecodeError::Key));
    assert_eq!(CompositeId::<u32>::decode("1:4294967296"), Err(DecodeError::Key));
    assert_eq!(CompositeId::<u32>::decode("1:2.0"), Err(DecodeError::Key));
}

#[test]
fn decode_does_not_trim() {
    assert_eq!(CompositeId::<u32>::decode(" 1:2"), Err(DecodeError::Discriminator));
    assert_eq!(CompositeId::<u32>::decode("1 :2"), Err(DecodeError::Discriminator));
    assert_eq!(CompositeId::<u32>::decode("1: 2"), Err(DecodeError::Key));
    assert_eq!(CompositeId::<u32>::decode("1:2 "), Err(DecodeError::Key));
    assert_eq!(CompositeId::<u32>::decode("1:2\n"), Err(DecodeError::Key));
}

#[test]
fn decode_reads_numbers_as_the_standard_library_does() {
    let inputs = [
        "0", "7", "42", "007", "+5", "+", "", "-1", "1_0", " 1", "1 ", "0x10", "4294967295",
        "4294967296", "00000000000000000000000001", "99999999999999999999", "++1", "1+", "٣",
    ];
    for text in inputs.iter() {
        assert_eq!(read_u32(text), text.parse::<u32>().ok(), "reading {:?}", text);
    }
    assert_eq!(CompositeId::<u32>::decode("+1:+2"), Ok(CompositeId(1, 2)));
    assert_eq!(CompositeId::<u32>::decode("007:08"), Ok(CompositeId(7, 8)));
}

#[test]
fn key_with_separator_is_not_valid() {
    let id = text_id(1, "a:b");
    assert!(!id.is_valid());
    assert_eq!(id.encode(), "1:a:b");
    assert_eq!(CompositeId::<String>::decode(&id.encode()), Err(DecodeError::PartCount));
    assert!(!"a:b".to_string().is_encodable());
    assert!(":".to_string().is_encodable() == false);
    assert!("ab".to_string().is_encodable());
    assert!(17u32.is_encodable());
}

#[test]
fn whatever_decodes_is_valid_and_decodes_again() {
    for text in ["+1:+2", "007:08", "0:0", "12:345"].iter() {
        let id = CompositeId::<u32>::decode(text).unwrap();
        assert!(id.is_valid());
        assert_eq!(CompositeId::<u32>::decode(&id.encode()), Ok(id));
    }
    for text in ["1:", "+1:+2", "3: x "].iter() {
        let id = CompositeId::<String>::decode(text).unwrap();
        assert!(id.is_valid());
        assert_eq!(CompositeId::<String>::decode(&id.encode()), Ok(id));
    }
}

#[test]
fn key_text_writes_and_reads() {
    let mut out = String::from("k=");
    5u32.write_key(&mut out);
    assert_eq!(out, "k=5");
    "xy".to_string().write_key(&mut out);
    assert_eq!(out, "k=5xy");
    assert_eq!(<u32 as KeyText>::read_key("12"), Some(12));
    assert_eq!(<u32 as KeyText>::read_key("x"), None);
    assert_eq!(<String as KeyText>::read_key("x y"), Some("x y".to_string()));
}

#[test]
fn numerals_are_shortest_decimal() {
    assert_eq!(format_u32(0), "0");
    assert_eq!(format_u32(9), "9");
    assert_eq!(format_u32(10), "10");
    assert_eq!(format_u32(1203), "1203");
    assert_eq!(format_u32(u32::MAX), "4294967295");
    let mut out = String::from("n");
    write_u32(&mut out, 70);
    write_u32(&mut out, 8);
    assert_eq!(out, "n708");
    for n in [0u32, 5, 10, 99, 100, 65_535, 65_536, 999_999_999, 1_000_000_000, u32::MAX].iter() {
        assert_eq!(format_u32(*n), n.to_string());
        assert_eq!(read_u32(&format_u32(*n)), Some(*n));
    }
}

#[test]
fn digits_are_ascii_only() {
    assert_eq!(digit_of('0'), Some(0));
    assert_eq!(digit_of('9'), Some(9));
    assert_eq!(digit_of('/'), None);
    assert_eq!(digit_of(':'), None);
    assert_eq!(digit_of('a'), None);
    assert_eq!(digit_of('٣'), None);
}

#[test]
fn default_identifier_is_zero() {
    assert_eq!(CompositeId::<u32>::default(), CompositeId(0, 0));
    assert_eq!(CompositeId::<String>::default(), text_id(0, ""));
    assert_eq!(CompositeId::<u32>::default().encode(), "0:0");
}

#[test]
fn errors_are_told_apart() {
    let all = [DecodeError::PartCount, DecodeError::Discriminator, DecodeError::Key];
    for (i, a) in all.iter().enumerate() {
        for (j, b) in all.iter().enumerate() {
            assert_eq!(i == j, a == b);
        }
    }
    assert_eq!(DecodeError::Key.clone(), DecodeError::Key);
}

#[test]
fn texts_compare_by_content() {
    assert!(text_eq("", ""));
    assert!(text_eq("foo", "foo"));
    assert!(text_eq("käse", "käse"));
    assert!(!text_eq("foo", "fo"));
    assert!(!text_eq("fo", "foo"));
    assert!(!text_eq("foo", "fop"));
    assert!(!text_eq("foo", "Foo"));
    assert!(!text_eq("foo", " foo"));
    assert!(!text_eq("", "x"));
    assert!(!text_eq("x", ""));
}
