use decode_bench::number::parse_int;

#[test]
fn parses_decimal() {
    assert_eq!(parse_int("10"), Ok(10));
    assert_eq!(parse_int("0"), Ok(0));
    assert_eq!(parse_int("+7"), Ok(7));
    assert_eq!(parse_int("0012"), Ok(12));
}

#[test]
fn parses_hexadecimal_after_prefix() {
    assert_eq!(parse_int("0x10"), Ok(16));
    assert_eq!(parse_int("0xff"), Ok(255));
    assert_eq!(parse_int("0xFF"), Ok(255));
    assert_eq!(parse_int("0x1f"), Ok(31));
}

#[test]
fn largest_value() {
    assert_eq!(parse_int(&usize::MAX.to_string()), Ok(usize::MAX));
    assert_eq!(parse_int(&format!("0x{:x}", usize::MAX)), Ok(usize::MAX));
}

#[test]
fn rejects_malformed_text() {
    assert_eq!(parse_int("abc"), Err("Failed to parse abc".to_string()));
    assert_eq!(parse_int(""), Err("Failed to parse ".to_string()));
    assert_eq!(parse_int("0x"), Err("Failed to parse 0x".to_string()));
    assert_eq!(parse_int("-1"), Err("Failed to parse -1".to_string()));
    assert_eq!(parse_int("0XFF"), Err("Failed to parse 0XFF".to_string()));
    assert_eq!(parse_int(" 1"), Err("Failed to parse  1".to_string()));
    assert_eq!(parse_int("+"), Err("Failed to parse +".to_string()));
}

#[test]
fn rejects_overflow() {
    let too_big = format!("{}0", usize::MAX);
    assert_eq!(parse_int(&too_big), Err(format!("Failed to parse {}", too_big)));
}
