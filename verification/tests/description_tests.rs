use satip_discovery::description::{extract_manufacturer, extract_model_name};

fn doc(text: &str) -> Vec<u8> {
    text.as_bytes().to_vec()
}

const WELL_FORMED: &str = "<?xml version=\"1.0\"?>\
    <root xmlns=\"urn:ses-com:device\">\
    <device>\
    <manufacturer>ACME</manufacturer>\
    <modelName>Tuner9000</modelName>\
    </device>\
    </root>";

#[test]
fn extracts_both_fields() {
    let d = doc(WELL_FORMED);
    assert_eq!(extract_manufacturer(&d), Some("ACME".to_string()));
    assert_eq!(extract_model_name(&d), Some("Tuner9000".to_string()));
}

#[test]
fn missing_model_is_absent_not_an_error() {
    let d = doc("<root><device><manufacturer>ACME</manufacturer></device></root>");
    assert_eq!(extract_manufacturer(&d), Some("ACME".to_string()));
    assert_eq!(extract_model_name(&d), None);
}

#[test]
fn missing_device_yields_both_absent() {
    let d = doc("<root><manufacturer>ACME</manufacturer></root>");
    assert_eq!(extract_manufacturer(&d), None);
    assert_eq!(extract_model_name(&d), None);
}

#[test]
fn malformed_document_yields_both_absent() {
    let d = doc("this is not xml at all");
    assert_eq!(extract_manufacturer(&d), None);
    assert_eq!(extract_model_name(&d), None);
}

#[test]
fn tags_with_attributes_are_found() {
    let d = doc("<root><device id=\"1\"><manufacturer lang=\"en\">ACME</manufacturer></device></root>");
    assert_eq!(extract_manufacturer(&d), Some("ACME".to_string()));
}

#[test]
fn self_closing_field_reads_as_empty() {
    let d = doc("<root><device><manufacturer/><modelName>M</modelName></device></root>");
    assert_eq!(extract_manufacturer(&d), Some(String::new()));
    assert_eq!(extract_model_name(&d), Some("M".to_string()));
}

#[test]
fn longer_tag_names_do_not_match() {
    let d = doc("<root><deviceList><manufacturerInfo>X</manufacturerInfo></deviceList></root>");
    assert_eq!(extract_manufacturer(&d), None);
    assert_eq!(extract_model_name(&d), None);
}

#[test]
fn field_outside_device_is_not_taken() {
    let d = doc("<root><manufacturer>Other</manufacturer><device><modelName>M</modelName></device></root>");
    assert_eq!(extract_manufacturer(&d), None);
    assert_eq!(extract_model_name(&d), Some("M".to_string()));
}

#[test]
fn unterminated_field_is_absent() {
    let d = doc("<root><device><manufacturer>ACME</device></root>");
    assert_eq!(extract_manufacturer(&d), None);
}
