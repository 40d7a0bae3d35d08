use barrel_loader::BarrelLoader;
use barrel_loader::types::BarrelLoaderOptions;
use barrel_loader::types::ExportInfo;
use barrel_loader::types::ExportKind;

#[test]
fn lib_test_is_barrel_file() {
    let loader = BarrelLoader::new(BarrelLoaderOptions::default());
    assert!(loader.is_barrel_file("/path/to/index.ts"));
    assert!(loader.is_barrel_file("/path/to/index.js"));
    assert!(loader.is_barrel_file("/path/to/index.tsx"));
    assert!(!loader.is_barrel_file("/path/to/component.ts"));
}

#[test]
fn lib_test_parse_named_exports() {
    let loader = BarrelLoader::new(BarrelLoaderOptions::default());
    let source = "export { Button, Form } from \"./Button\";";
    let exports = loader.parse_exports(source);
    assert_eq!(exports.len(), 2);
    assert_eq!(exports[0].specifier, "Button");
    assert_eq!(exports[1].specifier, "Form");
}

#[test]
fn lib_test_remove_duplicates() {
    let loader = BarrelLoader::new(BarrelLoaderOptions::default());
    let exports = vec![
        ExportInfo {
            specifier: "Button".to_string(),
            source: "./Button".to_string(),
            export_type: ExportKind::Named,
            is_type_export: false,
            line: 1,
        },
        ExportInfo {
            specifier: "Button".to_string(),
            source: "./Button".to_string(),
            export_type: ExportKind::Named,
            is_type_export: false,
            line: 2,
        },
    ];
    let deduped = loader.remove_duplicates(exports);
    assert_eq!(deduped.len(), 1);
}

#[test]
fn lib_test_process_barrel_file() {
    let loader = BarrelLoader::new(BarrelLoaderOptions {
        remove_duplicates: Some(true),
        ..Default::default()
    });
    let source = "export { Button } from \"./Button\";\nexport { Button } from \"./Button\";";
    let result = loader.process(source, "/path/to/index.ts");
    assert!(result.contains("Button"));
    // Should have only one export statement
    let count = result.matches("export").count();
    assert_eq!(count, 1);
}

#[test]
fn export_record_fields() {
    let kinds = [ExportKind::Named, ExportKind::Default, ExportKind::Namespace];
    for kind in kinds {
        let export_info = ExportInfo {
            specifier: "Test".to_string(),
            source: "./test".to_string(),
            export_type: kind,
            is_type_export: false,
            line: 1,
        };
        assert_eq!(export_info.export_type, kind);
        assert!(!export_info.is_type_export);
    }
}

#[test]
fn sort_exports_orders_by_source_then_specifier() {
    let loader = BarrelLoader::new(BarrelLoaderOptions::default());
    let mk = |spec: &str, src: &str, line: u32| ExportInfo {
        specifier: spec.to_string(),
        source: src.to_string(),
        export_type: ExportKind::Named,
        is_type_export: false,
        line,
    };
    let exports = vec![mk("Zeta", "./b", 1), mk("Alpha", "./b", 2), mk("Mid", "./a", 3)];
    let sorted = loader.sort_exports(exports);
    assert_eq!(sorted.len(), 3);
    assert_eq!(sorted[0].source, "./a");
    assert_eq!(sorted[0].specifier, "Mid");
    assert_eq!(sorted[1].source, "./b");
    assert_eq!(sorted[1].specifier, "Alpha");
    assert_eq!(sorted[2].source, "./b");
    assert_eq!(sorted[2].specifier, "Zeta");
}

#[test]
fn sort_exports_twice_is_idempotent() {
    let loader = BarrelLoader::new(BarrelLoaderOptions::default());
    let mk = |spec: &str, src: &str, line: u32| ExportInfo {
        specifier: spec.to_string(),
        source: src.to_string(),
        export_type: ExportKind::Named,
        is_type_export: false,
        line,
    };
    let exports = vec![mk("B", "./m", 1), mk("A", "./m", 2), mk("A", "./k", 3)];
    let once = loader.sort_exports(exports);
    let snapshot: Vec<(String, String, u32)> = once
        .iter()
        .map(|e| (e.source.clone(), e.specifier.clone(), e.line))
        .collect();
    let twice = loader.sort_exports(once);
    let snapshot2: Vec<(String, String, u32)> = twice
        .iter()
        .map(|e| (e.source.clone(), e.specifier.clone(), e.line))
        .collect();
    assert_eq!(snapshot, snapshot2);
}

#[test]
fn sort_exports_is_stable_for_equal_keys() {
    let loader = BarrelLoader::new(BarrelLoaderOptions::default());
    let mk = |line: u32| ExportInfo {
        specifier: "Same".to_string(),
        source: "./m".to_string(),
        export_type: ExportKind::Named,
        is_type_export: false,
        line,
    };
    let sorted = loader.sort_exports(vec![mk(3), mk(1), mk(2)]);
    let lines: Vec<u32> = sorted.iter().map(|e| e.line).collect();
    assert_eq!(lines, vec![3, 1, 2]);
}

#[test]
fn reconstruct_source_of_no_records_is_identity() {
    let loader = BarrelLoader::new(BarrelLoaderOptions::default());
    let original = "// banner\nconst x = 1;\nwhatever trailing text";
    let rebuilt = loader.reconstruct_source(original, &Vec::new());
    assert_eq!(rebuilt, original);
}
