use barrel_loader::parse::parse_exports;
use barrel_loader::parse::parse_named_export;
use barrel_loader::types::ExportKind;

#[test]
fn parser_tests_test_parse_named_exports() {
    let source = "export { Button, Form } from \"./Button\";";
    let exports = parse_exports(source);
    assert_eq!(exports.len(), 2);
    assert_eq!(exports[0].specifier, "Button");
    assert_eq!(exports[1].specifier, "Form");
}

#[test]
fn parse_named_two_specifiers() {
    let exports = parse_exports("export { Button, Form } from \"./components\";");
    assert_eq!(exports.len(), 2);
    assert_eq!(exports[0].specifier, "Button");
    assert_eq!(exports[0].source, "./components");
    assert_eq!(exports[0].export_type, ExportKind::Named);
    assert!(!exports[0].is_type_export);
    assert_eq!(exports[1].specifier, "Form");
    assert_eq!(exports[1].source, "./components");
    assert_eq!(exports[1].export_type, ExportKind::Named);
    assert!(!exports[1].is_type_export);
}

#[test]
fn parse_default_with_alias() {
    let exports = parse_exports("export { default as App } from \"./App\";");
    assert_eq!(exports.len(), 1);
    assert_eq!(exports[0].specifier, "App");
    assert_eq!(exports[0].source, "./App");
    assert_eq!(exports[0].export_type, ExportKind::Default);
}

#[test]
fn parse_default_bare() {
    let exports = parse_exports("export { default } from \"./App\";");
    assert_eq!(exports.len(), 1);
    assert_eq!(exports[0].specifier, "default");
    assert_eq!(exports[0].export_type, ExportKind::Default);
}

#[test]
fn parse_namespace_bare() {
    let exports = parse_exports("export * from \"./utils\";");
    assert_eq!(exports.len(), 1);
    assert_eq!(exports[0].specifier, "*");
    assert_eq!(exports[0].source, "./utils");
    assert_eq!(exports[0].export_type, ExportKind::Namespace);
}

#[test]
fn parse_namespace_with_alias() {
    let exports = parse_exports("export * as helpers from \"./helpers\";");
    assert_eq!(exports.len(), 1);
    assert_eq!(exports[0].specifier, "helpers");
    assert_eq!(exports[0].source, "./helpers");
    assert_eq!(exports[0].export_type, ExportKind::Namespace);
}

#[test]
fn parse_type_only_export() {
    let exports = parse_exports("export type { Props } from \"./types\";");
    assert_eq!(exports.len(), 1);
    assert_eq!(exports[0].specifier, "Props");
    assert!(exports[0].is_type_export);
    assert_eq!(exports[0].export_type, ExportKind::Named);
}

#[test]
fn parse_records_carry_line_numbers() {
    let source = "import x from \"./x\";\nexport { A } from \"./a\";\n\nexport { B } from \"./b\";";
    let exports = parse_exports(source);
    assert_eq!(exports.len(), 2);
    assert_eq!(exports[0].line, 2);
    assert_eq!(exports[1].line, 4);
}

#[test]
fn parse_inline_export_contributes_nothing() {
    let exports = parse_exports("export const x = 1;");
    assert_eq!(exports.len(), 0);
}

#[test]
fn parse_never_fails_on_malformed_lines() {
    let exports = parse_exports("export { unterminated\nexport * from nowhere\nexport;");
    assert_eq!(exports.len(), 0);
}

#[test]
fn parse_empty_specifier_list_matches_nothing() {
    let exports = parse_exports("export {  ,  } from \"./m\";");
    assert_eq!(exports.len(), 0);
}

#[test]
fn parse_single_quoted_module() {
    let exports = parse_exports("export { A } from './a';");
    assert_eq!(exports.len(), 1);
    assert_eq!(exports[0].source, "./a");
}

#[test]
fn parse_trims_specifier_whitespace() {
    let exports = parse_exports("export {  A ,  B  } from \"./m\";");
    assert_eq!(exports.len(), 2);
    assert_eq!(exports[0].specifier, "A");
    assert_eq!(exports[1].specifier, "B");
}

#[test]
fn parse_indented_export_line() {
    let exports = parse_exports("    export { A } from \"./a\";");
    assert_eq!(exports.len(), 1);
    assert_eq!(exports[0].specifier, "A");
}

#[test]
fn parse_default_among_named_specifiers_stays_named() {
    let exports = parse_exports("export { default, A } from \"./m\";");
    assert_eq!(exports.len(), 2);
    assert_eq!(exports[0].specifier, "default");
    assert_eq!(exports[0].export_type, ExportKind::Named);
    assert_eq!(exports[1].specifier, "A");
}

#[test]
fn parse_named_export_yields_pairs() {
    let pairs = parse_named_export("export { Button, Form } from \"./components\";").unwrap();
    assert_eq!(pairs.len(), 2);
    assert_eq!(pairs[0].0, "Button");
    assert_eq!(pairs[0].1, "./components");
    assert_eq!(pairs[1].0, "Form");
    assert_eq!(pairs[1].1, "./components");
    assert!(parse_named_export("export * from \"./utils\";").is_none());
    assert!(parse_named_export("export { , } from \"./m\";").is_none());
}
