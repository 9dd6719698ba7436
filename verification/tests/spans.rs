use table_extract::element_utils::{extract_rowspan_and_colspan, span_of};
use table_extract::node_utils::is_header_name;

#[test]
fn missing_attribute_gives_one() {
    assert_eq!(span_of(None), 1);
}

#[test]
fn number_gives_itself() {
    assert_eq!(span_of(Some("1")), 1);
    assert_eq!(span_of(Some("2")), 2);
    assert_eq!(span_of(Some("10")), 10);
    assert_eq!(span_of(Some("1234567")), 1234567);
}

#[test]
fn leading_zeros_and_plus_sign_are_read() {
    assert_eq!(span_of(Some("007")), 7);
    assert_eq!(span_of(Some("+3")), 3);
    assert_eq!(span_of(Some("+0012")), 12);
}

#[test]
fn text_that_is_no_number_gives_one() {
    for text in ["a", "", "+", "-", "-1", "-2", "1.5", "2a", "a2", " 2", "2 ", "++2", "2+", "0x10", "二", "٣"] {
        assert_eq!(span_of(Some(text)), 1, "{:?}", text);
    }
}

#[test]
fn zero_gives_one() {
    assert_eq!(span_of(Some("0")), 1);
    assert_eq!(span_of(Some("000")), 1);
    assert_eq!(span_of(Some("+0")), 1);
}

#[test]
fn largest_number_is_read_and_larger_ones_give_one() {
    let largest = usize::MAX.to_string();
    assert_eq!(span_of(Some(&largest)), usize::MAX);
    let padded = format!("000{}", largest);
    assert_eq!(span_of(Some(&padded)), usize::MAX);
    let beyond = format!("{}0", largest);
    assert_eq!(span_of(Some(&beyond)), 1);
    assert_eq!(span_of(Some("99999999999999999999999999999999999999999")), 1);
    let mut next = largest.clone().into_bytes();
    let last = next.len() - 1;
    next[last] += 1;
    let next = String::from_utf8(next).unwrap();
    assert_eq!(span_of(Some(&next)), 1);
}

#[test]
fn spans_are_read_from_the_element() {
    let package = sxd_document::Package::new();
    let document = package.as_document();
    let element = document.create_element("td");
    assert_eq!(extract_rowspan_and_colspan(element), (1, 1));
    element.set_attribute_value("rowspan", "2");
    assert_eq!(extract_rowspan_and_colspan(element), (2, 1));
    element.set_attribute_value("colspan", "3");
    assert_eq!(extract_rowspan_and_colspan(element), (2, 3));
    element.set_attribute_value("rowspan", "a");
    element.set_attribute_value("colspan", "b");
    assert_eq!(extract_rowspan_and_colspan(element), (1, 1));
    element.set_attribute_value("rowspan", "0");
    element.set_attribute_value("colspan", "-4");
    assert_eq!(extract_rowspan_and_colspan(element), (1, 1));
}

#[test]
fn header_name_is_th_without_namespace() {
    assert!(is_header_name(None, "th"));
    assert!(!is_header_name(None, "td"));
    assert!(!is_header_name(None, "t"));
    assert!(!is_header_name(None, "thead"));
    assert!(!is_header_name(None, ""));
    assert!(!is_header_name(None, "TH"));
    assert!(!is_header_name(Some("http://www.w3.org/1999/xhtml"), "th"));
}
