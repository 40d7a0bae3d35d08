use barrel_loader::dedupe::remove_duplicates;
use barrel_loader::types::ExportInfo;
use barrel_loader::types::ExportKind;

fn mk(spec: &str, src: &str, kind: ExportKind, ty: bool, line: u32) -> ExportInfo {
    ExportInfo {
        specifier: spec.to_string(),
        source: src.to_string(),
        export_type: kind,
        is_type_export: ty,
        line,
    }
}

#[test]
fn deduplication_tests_test_remove_duplicates() {
    let exports = vec![
        ExportInfo {
            specifier: "Button".to_string(),
            source: "./Button".to_string(),
            export_type: ExportKind::Named,
            is_type_export: false,
            line: 1,
        },
        ExportInfo {
            specifier: "Button".to_string(),
            source: "./Button".to_string(),
            export_type: ExportKind::Named,
            is_type_export: false,
            line: 2,
        },
    ];
    let deduped = remove_duplicates(exports);
    assert_eq!(deduped.len(), 1);
}

#[test]
fn dedupe_keeps_first_seen_order_and_distinct_count() {
    let exports = vec![
        mk("B", "./b", ExportKind::Named, false, 1),
        mk("A", "./a", ExportKind::Named, false, 2),
        mk("B", "./b", ExportKind::Named, false, 3),
        mk("C", "./c", ExportKind::Named, false, 4),
        mk("A", "./a", ExportKind::Named, false, 5),
    ];
    let deduped = remove_duplicates(exports);
    // three distinct keys, first occurrences, original order
    assert_eq!(deduped.len(), 3);
    assert_eq!(deduped[0].specifier, "B");
    assert_eq!(deduped[0].line, 1);
    assert_eq!(deduped[1].specifier, "A");
    assert_eq!(deduped[1].line, 2);
    assert_eq!(deduped[2].specifier, "C");
    assert_eq!(deduped[2].line, 4);
}

#[test]
fn dedupe_line_number_takes_no_part_in_the_key() {
    let exports = vec![
        mk("X", "./x", ExportKind::Named, false, 10),
        mk("X", "./x", ExportKind::Named, false, 20),
    ];
    assert_eq!(remove_duplicates(exports).len(), 1);
}

#[test]
fn dedupe_distinguishes_kind_source_and_type_flag() {
    let exports = vec![
        mk("X", "./x", ExportKind::Named, false, 1),
        mk("X", "./x", ExportKind::Default, false, 2),
        mk("X", "./y", ExportKind::Named, false, 3),
        mk("X", "./x", ExportKind::Named, true, 4),
    ];
    assert_eq!(remove_duplicates(exports).len(), 4);
}

#[test]
fn dedupe_twice_is_idempotent() {
    let exports = vec![
        mk("A", "./a", ExportKind::Named, false, 1),
        mk("A", "./a", ExportKind::Named, false, 2),
        mk("B", "./b", ExportKind::Named, false, 3),
    ];
    let once = remove_duplicates(exports);
    let lines: Vec<u32> = once.iter().map(|e| e.line).collect();
    let twice = remove_duplicates(once);
    let lines2: Vec<u32> = twice.iter().map(|e| e.line).collect();
    assert_eq!(lines, lines2);
}
