use webtk::error::ExportError;
use webtk::sprite::{assemble_sprite, build_svg_symbols_file, convert_svg_to_symbol,
    indent_content};

#[test]
fn indent_content_strips_common_indent_and_adds_base() {
    let content = "  <a>\n    <b/>\n  </a>";

    let result = indent_content(content, 4);

    assert_eq!(result, "    <a>\n      <b/>\n    </a>");
}

#[test]
fn indent_content_blank_lines_become_empty() {
    let content = "<a/>\n   \n<b/>";

    let result = indent_content(content, 2);

    assert_eq!(result, "  <a/>\n\n  <b/>");
}

#[test]
fn indent_content_empty_input_stays_empty() {
    assert_eq!(indent_content("", 4), "");
}

#[test]
fn convert_svg_to_symbol_builds_the_symbol_fragment() {
    let svg = r#"<svg viewBox="0 0 24 24"><path d="M0 0"/></svg>"#;

    let result = convert_svg_to_symbol(svg, "icon");

    assert_eq!(
        result,
        Some(
            "  <symbol id=\"icon\" viewBox=\"0 0 24 24\">\n    <path d=\"M0 0\"/>\n  </symbol>"
                .to_string()
        )
    );
}

#[test]
fn convert_svg_to_symbol_requires_viewbox_and_content() {
    assert_eq!(convert_svg_to_symbol(r#"<svg><path d="M0 0"/></svg>"#, "icon"), None);
    assert_eq!(convert_svg_to_symbol(r#"<svg viewBox="0 0 24 24"/>"#, "icon"), None);
    assert_eq!(convert_svg_to_symbol(r#"<svg viewBox="0 0 24 24">   </svg>"#, "icon"), None);
    assert_eq!(convert_svg_to_symbol("not svg at all", "icon"), None);
}

#[test]
fn build_sprite_empty_has_wrapper_and_nothing_between() {
    let symbols: Vec<String> = Vec::new();

    let result = build_svg_symbols_file(&symbols);

    assert_eq!(result, "<svg width=\"0\" height=\"0\" style=\"position:absolute\">\n</svg>\n");
}

#[test]
fn build_sprite_two_symbols_have_one_blank_line_between_and_none_before_first() {
    let symbols = vec!["a".to_string(), "b".to_string()];

    let result = build_svg_symbols_file(&symbols);

    assert_eq!(
        result,
        "<svg width=\"0\" height=\"0\" style=\"position:absolute\">\na\n\nb\n</svg>\n"
    );
}

#[test]
fn assemble_sprite_builds_symbols_in_artboard_order() {
    let names = vec!["ico/user/fill".to_string(), "ico/user/line".to_string()];
    let texts = vec![
        r#"<svg viewBox="0 0 24 24"><path d="M0 0"/></svg>"#.to_string(),
        r#"<svg viewBox="0 0 16 16"><path d="M1 1"/></svg>"#.to_string(),
    ];

    let result = assemble_sprite(&names, &texts).expect("both documents convert");

    let first = result.find("id=\"ico-user-fill\"").expect("first symbol present");
    let second = result.find("id=\"ico-user-line\"").expect("second symbol present");
    assert!(first < second);
    assert!(result.contains("viewBox=\"0 0 24 24\""));
    assert!(result.contains("viewBox=\"0 0 16 16\""));
}

#[test]
fn assemble_sprite_names_the_artboard_that_fails() {
    let names = vec!["good".to_string(), "bad".to_string()];
    let texts = vec![
        r#"<svg viewBox="0 0 24 24"><path d="M0 0"/></svg>"#.to_string(),
        r#"<svg viewBox="0 0 24 24"/>"#.to_string(),
    ];

    let result = assemble_sprite(&names, &texts);

    match result {
        Err(ExportError::InvalidSvg(name)) => assert_eq!(name, "bad"),
        other => panic!("expected an invalid-svg error, got {:?}", other),
    }
}

#[test]
fn indent_content_strips_carriage_returns_before_line_feeds() {
    let content = "  <a>\r\n    <b/>\r\n  </a>";

    let result = indent_content(content, 4);

    assert_eq!(result, "    <a>\n      <b/>\n    </a>");
}
