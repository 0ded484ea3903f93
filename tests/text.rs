use schematic_netlist::text::{decimal_string, parse_index_list};

#[test]
fn decimal_forms() {
    assert_eq!(decimal_string(0), "0");
    assert_eq!(decimal_string(7), "7");
    assert_eq!(decimal_string(10), "10");
    assert_eq!(decimal_string(4096), "4096");
}

#[test]
fn index_lists() {
    assert_eq!(parse_index_list("1 0"), Some(vec![1, 0]));
    assert_eq!(parse_index_list("  2\t10  3 "), Some(vec![2, 10, 3]));
    assert_eq!(parse_index_list(""), Some(vec![]));
    assert_eq!(parse_index_list("1,2"), None);
    assert_eq!(parse_index_list("-1"), None);
    assert_eq!(parse_index_list("99999999999999999999999"), None);
}
