use barrel_loader::BarrelLoader;
use barrel_loader::types::BarrelLoaderOptions;

#[test]
fn barrel_loader_tests_test_is_barrel_file() {
    let loader = BarrelLoader::new(BarrelLoaderOptions::default());
    assert!(loader.is_barrel_file("/path/to/index.ts"));
    assert!(loader.is_barrel_file("/path/to/index.js"));
    assert!(loader.is_barrel_file("/path/to/index.tsx"));
    assert!(!loader.is_barrel_file("/path/to/component.ts"));
}

#[test]
fn barrel_loader_tests_test_process_barrel_file() {
    let loader = BarrelLoader::new(BarrelLoaderOptions {
        remove_duplicates: Some(true),
        ..Default::default()
    });
    let source = "export { Button } from \"./Button\";\nexport { Button } from \"./Button\";";
    let result = loader.process(source, "/path/to/index.ts");
    assert!(result.contains("Button"));
    // Should have only one export statement
    let count = result.matches("export").count();
    assert_eq!(count, 1);
}

#[test]
fn is_barrel_file_more_paths() {
    let loader = BarrelLoader::new(BarrelLoaderOptions::default());
    assert!(loader.is_barrel_file("/path/to/index.jsx"));
    assert!(loader.is_barrel_file("/path/to/utils/index.ts"));
    assert!(loader.is_barrel_file("index.ts"));
    assert!(!loader.is_barrel_file("/path/to/module.js"));
    assert!(!loader.is_barrel_file("/path/to/Index.ts"));
    assert!(!loader.is_barrel_file("/path/to/index.TS"));
    assert!(!loader.is_barrel_file("index.ts/"));
    assert!(!loader.is_barrel_file(""));
    assert!(!loader.is_barrel_file("/path/to/"));
    assert!(!loader.is_barrel_file("myindex.ts"));
}

#[test]
fn is_barrel_file_free_function() {
    assert!(barrel_loader::classify::is_barrel_file("a/b/index.js"));
    assert!(!barrel_loader::classify::is_barrel_file("a/b/index.mjs"));
}
