use webtk::xmls_stream::{extract_root_attribute, extract_root_inner_content,
    transform_id_attributes};

#[test]
fn xmls_stream_test_support_xmls_extract_root_attribute_simple() {
    let xml = r#"<svg viewBox="0 0 24 24" width="24" height="24"></svg>"#;

    let result = extract_root_attribute(xml, "viewBox");

    assert_eq!(result, Some("0 0 24 24".to_string()));
}

#[test]
fn xmls_stream_test_support_xmls_extract_root_attribute_not_found() {
    let xml = r#"<svg width="24" height="24"></svg>"#;

    let result = extract_root_attribute(xml, "viewBox");

    assert_eq!(result, None);
}

#[test]
fn xmls_stream_test_support_xmls_extract_root_inner_content_simple() {
    let xml = r#"<svg viewBox="0 0 24 24"><path d="M0 0"/></svg>"#;

    let result = extract_root_inner_content(xml);

    assert_eq!(result, Some(r#"<path d="M0 0"/>"#.to_string()));
}

#[test]
fn xmls_stream_test_support_xmls_extract_root_inner_content_empty() {
    let xml = r#"<svg viewBox="0 0 24 24"/>"#;

    let result = extract_root_inner_content(xml);

    assert_eq!(result, Some(String::new()));
}

#[test]
fn test_support_xmls_transform_id_attributes_simple() {
    let xml = r#"<svg><g id="ico/user/fill"><path id="path-1"/></g></svg>"#;

    let result = transform_id_attributes(xml);

    assert!(result.contains(r#"id="ico-user-fill""#));
    assert!(result.contains(r#"id="path-1""#));
}

#[test]
fn stream_transform_keeps_everything_but_id_values() {
    let xml = r#"<svg><g id="a/b" stroke="none">text &amp; more</g><!--note--></svg>"#;

    let result = transform_id_attributes(xml);

    assert_eq!(
        result,
        r#"<svg><g id="a-b" stroke="none">text &amp; more</g><!--note--></svg>"#
    );
}

#[test]
fn stream_inner_content_trims_surrounding_whitespace() {
    let xml = "<svg>\n    <path d=\"M0 0\"/>\n</svg>";

    let result = extract_root_inner_content(xml);

    assert_eq!(result, Some("<path d=\"M0 0\"/>".to_string()));
}

#[test]
fn stream_inner_content_rejects_unclosed_root() {
    assert_eq!(extract_root_inner_content("<svg><path/>"), None);
}

#[test]
fn stream_root_attribute_values_are_entity_decoded() {
    let xml = r#"<svg viewBox="0 &amp; 24"></svg>"#;
    assert_eq!(extract_root_attribute(xml, "viewBox"), Some("0 & 24".to_string()));
}

#[test]
fn stream_transform_decodes_ids_and_reescapes_other_values() {
    let xml = r#"<svg><g id="a&amp;b" t="x&amp;y"/></svg>"#;
    let result = transform_id_attributes(xml);
    assert_eq!(result, r#"<svg><g id="a-b" t="x&amp;y"/></svg>"#);
}
