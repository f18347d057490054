use promptr::application::output::{plain_output, raw_output};
use promptr::application::Value;

#[test]
fn raw_refuses_non_xml_values() {
    assert!(raw_output(&vec![Value::Unit]).is_none());
    assert!(raw_output(&vec![Value::Xml(b"<A/>".to_vec()), Value::Text("t".into())]).is_none());
}

#[test]
fn human_xml_preserves_canonical_bytes_without_an_extra_newline() {
    let xml = "<Root>text</Root>\n";
    assert_eq!(plain_output(&Value::Xml(xml.as_bytes().to_vec())).unwrap(), xml.as_bytes());
}

#[test]
fn raw_output_concatenates_xml_values_byte_exactly() {
    let out = raw_output(&vec![Value::Xml(b"<A/>".to_vec()), Value::Xml(b"\n<B>\xc3\xa9</B>".to_vec())]).unwrap();
    assert_eq!(out, b"<A/>\n<B>\xc3\xa9</B>".to_vec());
    assert!(raw_output(&Vec::new()).unwrap().is_empty());
}

#[test]
fn human_text_ends_with_a_line_feed_and_unit_writes_nothing() {
    assert_eq!(plain_output(&Value::Text("héllo".into())).unwrap(), "héllo\n".as_bytes());
    assert!(plain_output(&Value::Unit).unwrap().is_empty());
    assert!(plain_output(&Value::Nodes(Vec::new())).is_none());
}
