use pdf_mcp_server::{parse_page_range, Error};

#[test]
fn test_parse_page_range() {
    assert_eq!(parse_page_range("1-3", 10).unwrap(), vec![1, 2, 3]);
    assert_eq!(parse_page_range("1,3,5", 10).unwrap(), vec![1, 3, 5]);
    assert_eq!(
        parse_page_range("1-3,5,7-9", 10).unwrap(),
        vec![1, 2, 3, 5, 7, 8, 9]
    );
    assert_eq!(parse_page_range("1,1,2,2", 10).unwrap(), vec![1, 2]); // Dedup
}

#[test]
fn test_parse_page_range_invalid() {
    assert!(parse_page_range("0-3", 10).is_err()); // 0 is invalid
    assert!(parse_page_range("1-15", 10).is_err()); // Out of bounds
    assert!(parse_page_range("5-3", 10).is_err()); // Start > End
    assert!(parse_page_range("abc", 10).is_err()); // Not a number
}

#[test]
fn page_range_sorted_and_spaced() {
    assert_eq!(parse_page_range(" 7-9 , 2 ,, 3- 4,", 10).unwrap(), vec![2, 3, 4, 7, 8, 9]);
    assert_eq!(parse_page_range("+2", 10).unwrap(), vec![2]);
    assert_eq!(parse_page_range("", 10).unwrap(), Vec::<u32>::new());
    assert_eq!(parse_page_range(" , ", 10).unwrap(), Vec::<u32>::new());
    assert_eq!(parse_page_range("10", 10).unwrap(), vec![10]);
    assert_eq!(parse_page_range("4-4", 10).unwrap(), vec![4]);
}

#[test]
fn page_range_errors_name_the_input() {
    for bad in ["-5", "1-", "11", "4294967296", "1-2-3", "+", "2 3", "1,x"] {
        match parse_page_range(bad, 10) {
            Err(Error::InvalidPageRange { range }) => assert_eq!(range, bad),
            other => panic!("{} gave {:?}", bad, other.map(|v| v.len())),
        }
    }
}

#[test]
fn page_range_up_to_largest_page() {
    assert_eq!(
        parse_page_range("4294967294-4294967295", u32::MAX).unwrap(),
        vec![4294967294, 4294967295]
    );
}
