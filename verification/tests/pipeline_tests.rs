use barrel_loader::BarrelLoader;
use barrel_loader::pipeline::process_file;
use barrel_loader::types::BarrelLoaderOptions;

fn default_loader() -> BarrelLoader {
    BarrelLoader::new(BarrelLoaderOptions::default())
}

#[test]
fn duplicate_named_export_collapses_to_one_line() {
    let source = "export { Button } from \"./Button\";\nexport { Button } from \"./Button\";";
    let result = default_loader().process(source, "/x/index.ts");
    assert_eq!(result, "export { Button } from \"./Button\";\n");
    assert_eq!(result.matches("export").count(), 1);
}

#[test]
fn non_barrel_path_passes_through_unchanged() {
    let source = "export { Button } from \"./Button\";\nexport { Button } from \"./Button\";";
    let result = default_loader().process(source, "/x/component.ts");
    assert_eq!(result, source);
    let all_on = BarrelLoader::new(BarrelLoaderOptions {
        optimize: Some(true),
        sort: Some(true),
        remove_duplicates: Some(true),
        verbose: Some(true),
        convert_namespace_to_named: Some(true),
        resolve_barrel_exports: Some(true),
    });
    assert_eq!(all_on.process(source, "/x/component.ts"), source);
}

#[test]
fn lone_inline_export_passes_through_via_empty_records() {
    let source = "export const x = 1;";
    let result = default_loader().process(source, "/x/index.ts");
    assert_eq!(result, source);
}

#[test]
fn inline_export_is_dropped_when_reconstruction_runs() {
    let source = "export { A } from \"./a\";\nexport const x = 1;";
    let result = default_loader().process(source, "/x/index.ts");
    assert_eq!(result, "export { A } from \"./a\";\n");
    assert!(!result.contains("const"));
}

#[test]
fn grouped_reconstruction_in_fixed_statement_order() {
    let source = "// comment\nimport { x } from \"./x\";\n\nexport * from \"./utils\";\nexport { default as App } from \"./App\";\nexport { A, B } from \"./mod\";\nexport type { T } from \"./mod\";\nexport * as ns from \"./mod\";";
    let result = default_loader().process(source, "/x/index.ts");
    let expected = "import { x } from \"./x\";\nexport * from \"./utils\";\nexport { default as App } from \"./App\";\nexport * as ns from \"./mod\";\nexport { A, B } from \"./mod\";\nexport type { T } from \"./mod\";\n";
    assert_eq!(result, expected);
}

#[test]
fn processing_twice_is_idempotent_under_default_config() {
    let sources = [
        "export { Button } from \"./Button\";\nexport { Button } from \"./Button\";",
        "// comment\nimport { x } from \"./x\";\n\nexport * from \"./utils\";\nexport { default as App } from \"./App\";\nexport { A, B } from \"./mod\";\nexport type { T } from \"./mod\";\nexport * as ns from \"./mod\";",
        "export { default } from \"./d\";\nexport type * from \"./t\";",
        "const x = 1;",
        "",
    ];
    for source in sources {
        let once = default_loader().process(source, "/x/index.ts");
        let twice = default_loader().process(&once, "/x/index.ts");
        assert_eq!(twice, once);
    }
}

#[test]
fn sort_option_orders_modules_and_specifiers() {
    let loader = BarrelLoader::new(BarrelLoaderOptions {
        sort: Some(true),
        ..Default::default()
    });
    let source = "export { Z } from \"./b\";\nexport { A } from \"./b\";\nexport { M } from \"./a\";";
    let result = loader.process(source, "/x/index.ts");
    assert_eq!(
        result,
        "export { M } from \"./a\";\nexport { A, Z } from \"./b\";\n"
    );
}

#[test]
fn dedupe_can_be_switched_off() {
    let loader = BarrelLoader::new(BarrelLoaderOptions {
        remove_duplicates: Some(false),
        ..Default::default()
    });
    let source = "export { B } from \"./m\";\nexport { B } from \"./m\";";
    let result = loader.process(source, "/x/index.ts");
    assert_eq!(result, "export { B, B } from \"./m\";\n");
}

#[test]
fn type_exports_come_after_value_exports_per_module() {
    let source = "export type { T } from \"./m\";\nexport { V } from \"./m\";";
    let result = default_loader().process(source, "/x/index.ts");
    assert_eq!(
        result,
        "export { V } from \"./m\";\nexport type { T } from \"./m\";\n"
    );
}

#[test]
fn default_and_namespace_statement_forms_round_trip() {
    let source = "export { default } from \"./d\";\nexport * as ns from \"./n\";\nexport type * from \"./t\";";
    let result = default_loader().process(source, "/x/index.ts");
    assert_eq!(
        result,
        "export { default } from \"./d\";\nexport * as ns from \"./n\";\nexport type * from \"./t\";\n"
    );
}

#[test]
fn free_process_file_matches_loader_process() {
    let options = BarrelLoaderOptions::default();
    let source = "export { A } from \"./a\";";
    let a = process_file(source, "/x/index.ts", &options);
    let b = BarrelLoader::new(options).process(source, "/x/index.ts");
    assert_eq!(a, b);
}

#[test]
fn report_counts_removed_duplicates() {
    let loader = default_loader();
    let source = "export { A } from \"./a\";\nexport { A } from \"./a\";\nexport { B } from \"./b\";";
    let (text, report) = loader.process_with_report(source, "/x/index.ts");
    assert!(report.is_barrel);
    assert_eq!(report.export_count, 3);
    assert_eq!(report.removed_duplicates, 1);
    assert!(!report.sorted);
    assert!(report.transformed);
    assert_eq!(text, "export { A } from \"./a\";\nexport { B } from \"./b\";\n");
}

#[test]
fn report_for_non_barrel_path() {
    let (text, report) = default_loader().process_with_report("anything", "/x/a.ts");
    assert!(!report.is_barrel);
    assert_eq!(report.export_count, 0);
    assert_eq!(report.removed_duplicates, 0);
    assert!(!report.sorted);
    assert!(!report.transformed);
    assert_eq!(text, "anything");
}

#[test]
fn crlf_line_endings_are_handled() {
    let source = "export { A } from \"./a\";\r\nexport { A } from \"./a\";\r\n";
    let result = default_loader().process(source, "/x/index.ts");
    assert_eq!(result, "export { A } from \"./a\";\n");
}
