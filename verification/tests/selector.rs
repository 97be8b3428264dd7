use labkit::cut::extract_bytes;
use labkit::cut::extract_chars;
use labkit::cut::extract_fields;
use labkit::cut::parse_range;
use labkit::cut::Span;

#[test]
fn test_parse_range() {
    // Zero is an error
    assert!(parse_range("0").is_err());

    let res = parse_range("0");
    assert!(res.is_err());
    assert_eq!(res.unwrap_err().message(), "illegal list value: \"0\"");
    let res = parse_range("0-1");
    assert!(res.is_err());
    assert_eq!(res.unwrap_err().message(), "illegal list value: \"0\"");
    // A leading "+" is an error
    let res = parse_range("+1");
    assert!(res.is_err());
    assert_eq!(res.unwrap_err().message(), "illegal list value: \"+1\"");
    let res = parse_range("+1-2");
    assert!(res.is_err());
    assert_eq!(res.unwrap_err().message(), "illegal list value: \"+1-2\"");

    let res = parse_range("1");
    assert!(res.is_ok());
    assert_eq!(res.unwrap(), vec![Span::new(0, 1)]);
    let res = parse_range("01");
    assert!(res.is_ok());
    assert_eq!(res.unwrap(), vec![Span::new(0, 1)]);
    let res = parse_range("1,3");
    assert!(res.is_ok());
    assert_eq!(res.unwrap(), vec![Span::new(0, 1), Span::new(2, 3)]);
    let res = parse_range("001,0003");
    assert!(res.is_ok());
    assert_eq!(res.unwrap(), vec![Span::new(0, 1), Span::new(2, 3)]);
    let res = parse_range("1-3");
    assert!(res.is_ok());
    assert_eq!(res.unwrap(), vec![Span::new(0, 3)]);
    let res = parse_range("0001-03");
    assert!(res.is_ok());
    assert_eq!(res.unwrap(), vec![Span::new(0, 3)]);
    let res = parse_range("1,7,3-5");
    assert!(res.is_ok());
    assert_eq!(res.unwrap(), vec![Span::new(0, 1), Span::new(6, 7), Span::new(2, 5)]);
    let res = parse_range("15,19-20");
    assert!(res.is_ok());
    assert_eq!(res.unwrap(), vec![Span::new(14, 15), Span::new(18, 20)]);
}

#[test]
fn test_extract_chars() {
    assert_eq!(extract_chars("", &[Span::new(0, 1)]), "".to_string());
    assert_eq!(extract_chars("Ébc", &[Span::new(0, 1)]), "É".to_string());
    assert_eq!(extract_chars("Ébc", &[Span::new(0, 1), Span::new(2, 3)]), "Éc".to_string());
    assert_eq!(extract_chars("Ébc", &[Span::new(0, 3)]), "Ébc".to_string());
    assert_eq!(extract_chars("Ébc", &[Span::new(2, 3), Span::new(1, 2)]), "cb".to_string());
    assert_eq!(
        extract_chars("Ébc", &[Span::new(0, 1), Span::new(1, 2), Span::new(4, 5)]),
        "Éb".to_string()
    );
}

#[test]
fn test_extract_bytes() {
    assert_eq!(extract_bytes("Ébc", &[Span::new(0, 1)]), "�".to_string());
    assert_eq!(extract_bytes("Ébc", &[Span::new(0, 2)]), "É".to_string());
    assert_eq!(extract_bytes("Ébc", &[Span::new(0, 3)]), "Éb".to_string());
    assert_eq!(extract_bytes("Ébc", &[Span::new(0, 4)]), "Ébc".to_string());
    assert_eq!(extract_bytes("Ébc", &[Span::new(3, 4), Span::new(2, 3)]), "cb".to_string());
    assert_eq!(extract_bytes("Ébc", &[Span::new(0, 2), Span::new(5, 6)]), "É".to_string());
}

#[test]
fn test_extract_fields() {
    let rec: Vec<String> =
        vec!["Captain".to_string(), "Sham".to_string(), "12345".to_string()];

    assert_eq!(extract_fields(&rec, &[Span::new(0, 1)]), &["Captain"]);
    assert_eq!(extract_fields(&rec, &[Span::new(1, 2)]), &["Sham"]);
    assert_eq!(extract_fields(&rec, &[Span::new(0, 1), Span::new(2, 3)]), &["Captain", "12345"]);
    assert_eq!(extract_fields(&rec, &[Span::new(0, 1), Span::new(3, 4)]), &["Captain"]);
    assert_eq!(extract_fields(&rec, &[Span::new(1, 2), Span::new(0, 1)]), &["Sham", "Captain"]);
}

#[test]
fn parse_range_is_deterministic() {
    let a = parse_range("1,7,3-5").unwrap();
    let b = parse_range("1,7,3-5").unwrap();
    assert_eq!(a, b);
    let e1 = parse_range("5-1").unwrap_err();
    let e2 = parse_range("5-1").unwrap_err();
    assert_eq!(e1.message(), e2.message());
}

#[test]
fn parse_range_inverted_message() {
    let res = parse_range("5-1");
    assert!(res.is_err());
    assert_eq!(
        res.unwrap_err().message(),
        "First number in range (5) must be lower than second number (1)"
    );
}

#[test]
fn parse_range_rejects_empty_and_stray_tokens() {
    assert_eq!(parse_range("").unwrap_err().message(), "illegal list value: \"\"");
    assert_eq!(parse_range("1,,3").unwrap_err().message(), "illegal list value: \"\"");
    assert_eq!(parse_range("1-2-3").unwrap_err().message(), "illegal list value: \"1-2-3\"");
    assert_eq!(parse_range("a").unwrap_err().message(), "illegal list value: \"a\"");
    assert_eq!(parse_range("1-").unwrap_err().message(), "illegal list value: \"1-\"");
}

#[test]
fn extraction_never_clips() {
    // A range that only partly fits contributes nothing at all.
    assert_eq!(extract_chars("abc", &[Span::new(1, 5)]), "");
    assert_eq!(extract_chars("abc", &[Span::new(0, 2), Span::new(1, 5)]), "ab");
    assert_eq!(extract_bytes("abc", &[Span::new(2, 4)]), "");
    let rec: Vec<String> = vec!["a".to_string(), "b".to_string()];
    assert_eq!(extract_fields(&rec, &[Span::new(1, 3)]), Vec::<String>::new());
}

#[test]
fn extraction_is_idempotent() {
    let ranges = [Span::new(0, 1), Span::new(2, 3), Span::new(7, 9)];
    let once = extract_chars("hello world", &ranges);
    let twice = extract_chars("hello world", &ranges);
    assert_eq!(once, twice);
    assert_eq!(extract_bytes("hello", &ranges), extract_bytes("hello", &ranges));
}
