use webtk::xml_model::{nodes_to_string, transform_nodes_id_attributes};
use webtk::xmls::{extract_root_attribute, extract_root_inner_content, extract_root_inner_nodes};

#[test]
fn xmls_test_support_xmls_extract_root_attribute_simple() {
    let xml = r#"<svg viewBox="0 0 24 24" width="24" height="24"></svg>"#;

    let result = extract_root_attribute(xml, "viewBox");

    assert_eq!(result, Some("0 0 24 24".to_string()));
}

#[test]
fn xmls_test_support_xmls_extract_root_attribute_not_found() {
    let xml = r#"<svg width="24" height="24"></svg>"#;

    let result = extract_root_attribute(xml, "viewBox");

    assert_eq!(result, None);
}

#[test]
fn test_support_xmls_extract_root_inner_content_simple() {
    let xml = r#"<svg viewBox="0 0 24 24"><path d="M0 0"/></svg>"#;

    let result = extract_root_inner_content(xml);

    let content = result.expect("Should have content");
    assert!(content.contains("path"));
    assert!(content.contains(r#"d="M0 0"#));
}

#[test]
fn test_support_xmls_extract_root_inner_content_with_xml_decl() {
    let xml = r##"<?xml version="1.0" encoding="UTF-8"?>
<svg width="16px" height="16px" viewBox="0 0 16 16" version="1.1" xmlns="http://www.w3.org/2000/svg" xmlns:xlink="http://www.w3.org/1999/xlink">
    <title>ico/chevron-down</title>
    <g id="ico/chevron-down" stroke="none" fill="none" fill-rule="evenodd">
        <polygon id="Shape" fill="#CECECE" points="3.41 4.58 8 9.17 12.59 4.58 14 6 8 12 2 6"></polygon>
    </g>
</svg>"##;

    let result = extract_root_inner_content(xml);

    let content = result.expect("Should have content");
    assert!(content.contains("<title>"));
    assert!(content.contains("<g id="));
    assert!(content.contains("<polygon"));
    assert!(content.contains("points="));
}

#[test]
fn xmls_test_support_xmls_extract_root_inner_content_empty() {
    let xml = r#"<svg viewBox="0 0 24 24"/>"#;

    let result = extract_root_inner_content(xml);

    assert_eq!(result, Some(String::new()));
}

#[test]
fn test_support_xmls_transform_nodes_id_attributes_siblings() {
    let xml = r##"<svg>
    <title>ico/chevron-down</title>
    <g id="ico/chevron-down">
        <polygon id="Shape"/>
    </g>
</svg>"##;

    let nodes = extract_root_inner_nodes(xml).expect("Should have nodes");
    let transformed = transform_nodes_id_attributes(nodes);
    let result = nodes_to_string(&transformed);

    assert!(result.contains("<title>"));
    assert!(result.contains(r#"id="ico-chevron-down""#));
    assert!(result.contains(r#"id="Shape""#));
}

#[test]
fn extract_root_inner_nodes_self_closing_root_is_empty_not_none() {
    let nodes = extract_root_inner_nodes(r#"<svg viewBox="0 0 24 24"/>"#);
    let nodes = nodes.expect("a self-closing root still parses");
    assert_eq!(nodes.len(), 0);
}

#[test]
fn extract_root_inner_nodes_rejects_malformed_documents() {
    assert!(extract_root_inner_nodes("<svg><g></svg>").is_none());
    assert!(extract_root_inner_nodes("no markup at all").is_none());
    assert!(extract_root_inner_nodes("<a/><b/>").is_none());
    assert!(extract_root_inner_nodes("").is_none());
}

#[test]
fn transform_nodes_rewrites_ids_at_depth_and_keeps_other_attributes() {
    let xml = r#"<svg><g id="a/b" stroke="none"><path id="x/y" d="M0 0"/></g></svg>"#;
    let nodes = extract_root_inner_nodes(xml).expect("Should have nodes");
    let transformed = transform_nodes_id_attributes(nodes);
    let result = nodes_to_string(&transformed);

    assert!(result.contains(r#"id="a-b""#));
    assert!(result.contains(r#"id="x-y""#));
    assert!(result.contains(r#"stroke="none""#));
    assert!(result.contains(r#"d="M0 0""#));
}

#[test]
fn root_attribute_values_are_entity_decoded() {
    let xml = r#"<svg title="a &amp; b &#38; c"/>"#;
    assert_eq!(extract_root_attribute(xml, "title"), Some("a & b & c".to_string()));

    let xml2 = r#"<svg title="&lt;x&gt; &quot;q&quot; &apos;a&apos; &#x26;"/>"#;
    assert_eq!(
        extract_root_attribute(xml2, "title"),
        Some("<x> \"q\" 'a' &".to_string())
    );
}

#[test]
fn unknown_or_unterminated_references_stay_as_written() {
    let xml = r#"<svg title="a&unknown;b &#xZZ; c&amp"/>"#;
    assert_eq!(
        extract_root_attribute(xml, "title"),
        Some("a&unknown;b &#xZZ; c&amp".to_string())
    );
}

#[test]
fn serializer_escapes_attribute_values_back() {
    let xml = r#"<svg><t v="a&amp;b &lt;c&gt;"/></svg>"#;
    let content = extract_root_inner_content(xml).expect("parses");
    assert_eq!(content, r#"<t v="a&amp;b &lt;c&gt;"/>"#);
}
