use directrf::orders::{order_from, parse_number, parse_orders, FrequencyOrder, OrderError};

fn order(t_us: u32, freq_hz: u32, bandwidth_hz: u32, n: usize) -> FrequencyOrder {
    FrequencyOrder { t_us, freq_hz, bandwidth_hz, n }
}

fn field(text: &str) -> Option<Vec<u8>> {
    Some(text.as_bytes().to_vec())
}

#[test]
fn orders_are_read_line_by_line() {
    let file = "1000,430000000,10000,20\n2000, 431000000 ,5000 , 8\n";
    assert_eq!(
        parse_orders(file),
        Ok(vec![order(1000, 430_000_000, 10_000, 20), order(2000, 431_000_000, 5000, 8)])
    );
}

#[test]
fn empty_file_holds_no_orders() {
    assert_eq!(parse_orders(""), Ok(vec![]));
}

#[test]
fn carriage_returns_are_line_ends() {
    assert_eq!(
        parse_orders("1,2,3,4\r\n5,6,7,8"),
        Ok(vec![order(1, 2, 3, 4), order(5, 6, 7, 8)])
    );
}

#[test]
fn text_around_the_numbers_is_passed_over() {
    assert_eq!(parse_orders("order: 10,20,30,40;"), Ok(vec![order(10, 20, 30, 40)]));
    assert_eq!(parse_orders("12 34,5,6,7"), Ok(vec![order(34, 5, 6, 7)]));
    assert_eq!(parse_orders("1,2,3,4,5,6"), Ok(vec![order(1, 2, 3, 4)]));
    assert_eq!(parse_orders("1\t,\t2 ,3,  4"), Ok(vec![order(1, 2, 3, 4)]));
}

#[test]
fn line_without_four_numbers_is_malformed() {
    assert_eq!(parse_orders("1,2,3"), Err(OrderError::Malformed));
    assert_eq!(parse_orders("1,2,3,4\n\n5,6,7,8"), Err(OrderError::Malformed));
    assert_eq!(parse_orders("a,b,c,d"), Err(OrderError::Malformed));
    assert_eq!(parse_orders("1;2;3;4"), Err(OrderError::Malformed));
    assert_eq!(parse_orders("1,2,-3,4"), Err(OrderError::Malformed));
}

#[test]
fn number_beyond_its_field_is_refused() {
    assert_eq!(parse_orders("4294967295,4294967295,4294967295,7"), Ok(vec![order(
        u32::MAX,
        u32::MAX,
        u32::MAX,
        7
    )]));
    assert_eq!(parse_orders("4294967296,1,1,1"), Err(OrderError::Number));
    assert_eq!(parse_orders("1,4294967296,1,1"), Err(OrderError::Number));
    assert_eq!(parse_orders("1,1,99999999999999999999999,1"), Err(OrderError::Number));
    assert_eq!(parse_orders("1,1,1,99999999999999999999999"), Err(OrderError::Number));
}

#[test]
fn first_bad_line_decides_the_error() {
    assert_eq!(parse_orders("1,2,3,4\n4294967296,1,1,1\nnothing"), Err(OrderError::Number));
    assert_eq!(parse_orders("1,2,3,4\nnothing\n4294967296,1,1,1"), Err(OrderError::Malformed));
}

#[test]
fn digits_of_other_scripts_are_no_numbers() {
    // The pattern takes them for digits; the fields take the digits 0 to 9 only.
    assert_eq!(parse_orders("\u{0661},2,3,4"), Err(OrderError::Number));
}

#[test]
fn parse_number_values() {
    assert_eq!(parse_number(b"0", 10), Some(0));
    assert_eq!(parse_number(b"007", 10), Some(7));
    assert_eq!(parse_number(b"+7", 10), Some(7));
    assert_eq!(parse_number(b"10", 10), Some(10));
    assert_eq!(parse_number(b"11", 10), None);
    assert_eq!(parse_number(b"18446744073709551615", u64::MAX), Some(u64::MAX));
    assert_eq!(parse_number(b"18446744073709551616", u64::MAX), None);
    assert_eq!(parse_number(b"99999999999999999999", u64::MAX), None);
    assert_eq!(parse_number(b"4294967295", u32::MAX as u64), Some(4294967295));
    assert_eq!(parse_number(b"5", 0), None);
    assert_eq!(parse_number(b"0", 0), Some(0));
}

#[test]
fn parse_number_refusals() {
    assert_eq!(parse_number(b"", 10), None);
    assert_eq!(parse_number(b"+", 10), None);
    assert_eq!(parse_number(b"-1", 10), None);
    assert_eq!(parse_number(b"++1", 10), None);
    assert_eq!(parse_number(b"1+", 10), None);
    assert_eq!(parse_number(b"12a", 100), None);
    assert_eq!(parse_number(b" 1", 100), None);
    assert_eq!(parse_number(b"1 ", 100), None);
    assert_eq!(parse_number("\u{0661}".as_bytes(), 100), None);
}

#[test]
fn parse_number_agrees_with_std() {
    for text in ["0", "1", "+42", "4294967295", "4294967296", "", "+", "-0", "1_0", "0x10"] {
        assert_eq!(
            parse_number(text.as_bytes(), u32::MAX as u64),
            text.parse::<u32>().ok().map(|v| v as u64)
        );
    }
}

#[test]
fn order_from_fields() {
    assert_eq!(
        order_from(field("1"), field("2"), field("3"), field("4")),
        Ok(order(1, 2, 3, 4))
    );
    assert_eq!(order_from(None, field("2"), field("3"), field("4")), Err(OrderError::Malformed));
    assert_eq!(order_from(field("1"), field("2"), field("3"), None), Err(OrderError::Malformed));
    assert_eq!(order_from(None, field("x"), field("3"), field("4")), Err(OrderError::Malformed));
    assert_eq!(
        order_from(field("1"), field("x"), field("3"), field("4")),
        Err(OrderError::Number)
    );
    assert_eq!(
        order_from(field("1"), field("2"), field("3"), field("")),
        Err(OrderError::Number)
    );
}
