use rtask::task_ref::{short_hex, TaskRef, TaskRefError};

#[test]
fn task_ref_test_numerical_ref() {
    assert_eq!(TaskRef::from_str("100"), Ok(TaskRef::Numerical(100)));
}

#[test]
fn numbers_are_read_as_the_standard_library_reads_them() {
    assert_eq!(TaskRef::from_str("+7"), Ok(TaskRef::Numerical(7)));
    assert_eq!(TaskRef::from_str("007"), Ok(TaskRef::Numerical(7)));
    assert_eq!(
        TaskRef::from_str("18446744073709551615"),
        Ok(TaskRef::Numerical(18446744073709551615))
    );
    assert_eq!(
        TaskRef::from_str("18446744073709551616"),
        Err(TaskRefError("18446744073709551616".to_string()))
    );
    assert_eq!(TaskRef::from_str(""), Err(TaskRefError("".to_string())));
    assert_eq!(TaskRef::from_str("+"), Err(TaskRefError("+".to_string())));
    assert_eq!(TaskRef::from_str("1 "), Err(TaskRefError("1 ".to_string())));
    assert_eq!(TaskRef::from_str("1_0"), Err(TaskRefError("1_0".to_string())));
}

#[test]
fn a_whole_identifier_is_read_in_hyphenated_form_only() {
    let id: u128 = 0x67e5_5044_10b1_426f_9247_bb68_0e5f_e0c8;
    for text in [
        "67e55044-10b1-426f-9247-bb680e5fe0c8",
        "67E55044-10B1-426F-9247-BB680E5FE0C8",
        "67e55044-10B1-426f-9247-bb680E5FE0c8",
    ] {
        assert_eq!(TaskRef::from_str(text), Ok(TaskRef::FullUUID(id)));
    }
    assert_eq!(
        TaskRef::from_str("00000000-0000-0000-0000-000000000001"),
        Ok(TaskRef::FullUUID(1))
    );
    for text in [
        "67e5504410b1426f9247bb680e5fe0c8",
        "0123456789abcdef0123456789abcdef",
        "urn:uuid:67e55044-10b1-426f-9247-bb680e5fe0c8",
        "{67e55044-10b1-426f-9247-bb680e5fe0c8}",
        "67e55044-10b1-426f-9247-bb680e5fe0c",
        "67e55044-10b1-426f-9247-bb680e5fe0c8a",
        "67e55044-10b1-426f-9247-bb680e5fe0cg",
        "67e55044+10b1-426f-9247-bb680e5fe0c8",
        "67e5504410b1-426f-9247-bb680e5fe0c8-",
        "67e5504é-10b1-426f-9247-bb680e5fe0c8",
        "{7e55044-10b1-426f-9247-bb680e5f0c8é}",
    ] {
        assert_eq!(TaskRef::from_str(text), Err(TaskRefError(text.to_string())), "{}", text);
    }
}

#[test]
fn digits_in_the_length_of_an_identifier_are_a_number() {
    assert_eq!(TaskRef::from_str("00000000000000000000000000000001"), Ok(TaskRef::Numerical(1)));
    assert_eq!(
        TaskRef::from_str("000000000000000000000000000000000007"),
        Ok(TaskRef::Numerical(7))
    );
    assert_eq!(TaskRef::from_str("0000007"), Ok(TaskRef::Numerical(7)));
    assert_eq!(
        TaskRef::from_str("12345678901234567890123456789012"),
        Err(TaskRefError("12345678901234567890123456789012".to_string()))
    );
}

#[test]
fn the_hyphenated_form_is_read_back() {
    for id in [0u128, 1, 0xabcdef, u128::MAX, 0x67e5_5044_10b1_426f_9247_bb68_0e5f_e0c8] {
        let text = TaskRef::FullUUID(id).to_string();
        assert_eq!(text.chars().count(), 36);
        assert_eq!(TaskRef::from_str(&text), Ok(TaskRef::FullUUID(id)));
        assert_eq!(TaskRef::from_str(&text.to_uppercase()), Ok(TaskRef::FullUUID(id)));
    }
}

#[test]
fn classify_takes_the_identifier_that_was_read() {
    assert_eq!(TaskRef::classify("123456", Some(5)), Ok(TaskRef::FullUUID(5)));
    assert_eq!(TaskRef::classify("123456", None), Ok(TaskRef::ShortUUID("123456".to_string())));
    assert_eq!(TaskRef::classify("12345", None), Ok(TaskRef::Numerical(12345)));
    assert_eq!(TaskRef::classify("1234567", None), Ok(TaskRef::Numerical(1234567)));
    assert_eq!(TaskRef::classify("abcdeg", None), Err(TaskRefError("abcdeg".to_string())));
    assert_eq!(TaskRef::classify("ABCDEF", None), Ok(TaskRef::ShortUUID("ABCDEF".to_string())));
}

#[test]
fn six_hexadecimal_digits_agree_with_the_pattern() {
    let pattern = regex::Regex::new("^[0-9a-fA-F]{6}$").unwrap();
    for text in [
        "", "abcdef", "ABCDEF", "12345", "123456", "1234567", "12345g", "g12345", "abcde\n",
        "abcdef\n", "\nabcdef", "abc def", "àbcdef", "abcdeé", "000000", "aAbBcC", "ffffff",
        "FFFFFG", "12 456", "١٢٣٤٥٦",
    ] {
        assert_eq!(short_hex(text), pattern.is_match(text), "{:?}", text);
    }
}

#[test]
fn references_are_shown_as_they_are_typed() {
    assert_eq!(TaskRef::ShortUUID("abcdef".to_string()).to_string(), "abcdef");
    assert_eq!(TaskRef::Numerical(42).to_string(), "42");
    assert_eq!(TaskRef::Numerical(0).to_string(), "0");
    let id: u128 = 0x67e5_5044_10b1_426f_9247_bb68_0e5f_e0c8;
    assert_eq!(TaskRef::FullUUID(id).to_string(), "67e55044-10b1-426f-9247-bb680e5fe0c8");
    assert_eq!(TaskRef::FullUUID(0x0a).to_string(), "00000000-0000-0000-0000-00000000000a");
    assert_eq!(TaskRef::from(id), TaskRef::FullUUID(id));
    assert_eq!(
        TaskRefError("a\"b".to_string()).to_string(),
        "Unknown task reference \"a\\\"b\""
    );
}
