//! Whole runs over a directory tree held in memory: the tree stands in for
//! the disk, the library does everything else.

use nuke_node_modules::cleaner::{calculate_directory_size, Cleaner, EntryKind, SizeItem};
use nuke_node_modules::cli::closing_summary;
use nuke_node_modules::driver::{after_answer, scan_report, NextStep};
use nuke_node_modules::scanner::{Scanner, WalkItem};
use nuke_node_modules::{cleanup_node_modules, CleanupError, CleanupStats, Config};
use std::collections::BTreeMap;

const ROOT: &str = "/tmp/work";

/// A directory tree: each path with `None` for a directory and the length
/// for a file.
struct Tree {
    nodes: BTreeMap<String, Option<u64>>,
}

impl Tree {
    fn new() -> Tree {
        let mut nodes = BTreeMap::new();
        nodes.insert(String::from(ROOT), None);
        Tree { nodes }
    }

    fn full(rel: &str) -> String {
        format!("{}/{}", ROOT, rel)
    }

    fn create_dir_all(&mut self, rel: &str) {
        let mut path = String::from(ROOT);
        for name in rel.split('/') {
            path = format!("{}/{}", path, name);
            self.nodes.insert(path.clone(), None);
        }
    }

    fn write(&mut self, rel: &str, content: &str) {
        if let Some((dir, _)) = rel.rsplit_once('/') {
            self.create_dir_all(dir);
        }
        self.nodes.insert(Tree::full(rel), Some(content.len() as u64));
    }

    fn has(&self, rel: &str) -> bool {
        self.nodes.contains_key(&Tree::full(rel))
    }

    fn below<'a>(&'a self, path: &'a str) -> impl Iterator<Item = (&'a String, &'a Option<u64>)> {
        let prefix = format!("{}/", path);
        self.nodes.iter().filter(move |(p, _)| p.as_str() == path || p.starts_with(&prefix))
    }

    /// What a walk below `path` comes upon, pruned as the scanner asks.
    fn walk(&self, path: &str) -> Vec<WalkItem> {
        if !self.nodes.contains_key(path) {
            return vec![WalkItem::Failure {
                message: format!("IO error for operation on {}: No such file or directory", path),
            }];
        }
        let scanner = Scanner::new(path, &[]);
        self.below(path)
            .filter(|(p, _)| scanner.should_descend(p))
            .map(|(p, kind)| WalkItem::Entry { path: p.clone(), is_dir: kind.is_none() })
            .collect()
    }

    /// What a walk below `path` comes upon when the size is measured.
    fn size_items(&self, path: &str) -> Vec<SizeItem> {
        if !self.nodes.contains_key(path) {
            return vec![SizeItem::Failure {
                message: format!("IO error for operation on {}: No such file or directory", path),
            }];
        }
        self.below(path)
            .map(|(_, kind)| match kind {
                Some(len) => SizeItem::Entry { kind: EntryKind::File, len: *len },
                None => SizeItem::Entry { kind: EntryKind::Directory, len: 4096 },
            })
            .collect()
    }

    fn remove_dir_all(&mut self, path: &str) -> Result<(), String> {
        if self.nodes.get(path) != Some(&None) {
            return Err(String::from("No such file or directory (os error 2)"));
        }
        let doomed: Vec<String> = self.below(path).map(|(p, _)| p.clone()).collect();
        for p in doomed {
            self.nodes.remove(&p);
        }
        Ok(())
    }
}

fn scan(tree: &Tree, root: &str, patterns: &[String]) -> Result<Vec<String>, CleanupError> {
    let scanner = Scanner::new(root, patterns);
    scanner.find_node_modules_dirs(&tree.walk(root))
}

fn delete_one(tree: &mut Tree, path: &str) -> Result<u64, String> {
    let probe = calculate_directory_size(&tree.size_items(path));
    let removal = tree.remove_dir_all(path);
    Cleaner::delete_single_directory(probe, removal)
}

fn delete_all(
    tree: &mut Tree,
    cleaner: &Cleaner,
    targets: Vec<String>,
) -> Result<CleanupStats, CleanupError> {
    let plan = cleaner.delete_directories(targets)?;
    let outcomes: Vec<Result<u64, String>> =
        plan.targets().iter().map(|t| delete_one(tree, t)).collect();
    Ok(plan.finish(&outcomes).stats)
}

/// One run, as the program makes it; `answer` is what the user says when
/// asked.
fn cleanup(
    tree: &mut Tree,
    root: &str,
    config: &Config,
    answer: bool,
) -> Result<CleanupStats, CleanupError> {
    let scanned = cleanup_node_modules(root, config, &tree.walk(root))?;
    assert_eq!(scanned.report, scan_report(config, &scanned.targets));
    let step = match scanned.next {
        NextStep::Confirm => after_answer(scanned.targets.len(), answer),
        step => step,
    };
    match step {
        NextStep::Finish(stats) => Ok(stats),
        _ => {
            let cleaner = Cleaner::new(config.threads, !config.quiet, true);
            delete_all(tree, &cleaner, scanned.targets)
        }
    }
}

fn create_complex_test_structure(tree: &mut Tree) {
    let projects = [
        "frontend/node_modules",
        "backend/node_modules",
        "shared/utils/node_modules",
        "packages/core/node_modules",
        "packages/ui/node_modules",
        "deep/nested/project/node_modules",
    ];
    for project in &projects {
        tree.create_dir_all(project);
        tree.write(&format!("{}/package.json", project), r#"{"name": "test"}"#);
        tree.write(&format!("{}/index.js", project), "console.log('test');");
    }
    tree.create_dir_all("vendor/node_modules");
    tree.write("vendor/node_modules/package.json", "{}");
    tree.create_dir_all("build/node_modules");
    tree.write("build/node_modules/index.js", "// build artifact");
    tree.create_dir_all("src/components");
    tree.create_dir_all("docs/assets");
    tree.write("README.md", "# Test Project");
    tree.write("package.json", r#"{"name": "root-project"}"#);
}

fn create_scanner_test_structure(tree: &mut Tree) {
    tree.create_dir_all("project1/node_modules");
    tree.create_dir_all("project2/node_modules");
    tree.create_dir_all("nested/project3/node_modules");
    tree.create_dir_all("deep/nested/project4/node_modules");
    tree.create_dir_all("exclude-me/node_modules");
    tree.create_dir_all("vendor/node_modules");
    tree.create_dir_all("regular_dir");
    tree.create_dir_all("src/components");
}

fn create_nested_node_modules_structure(tree: &mut Tree) {
    tree.create_dir_all("project/node_modules");
    tree.create_dir_all("project/node_modules/some-package/node_modules");
    tree.create_dir_all("project/node_modules/some-package/node_modules/nested-dep");
    tree.create_dir_all("project/node_modules/another-package/node_modules");
    tree.create_dir_all("project/node_modules/deep-package/sub-package/node_modules");
    tree.create_dir_all("other-project/node_modules");
    tree.create_dir_all("other-project/node_modules/package/node_modules");
    tree.write("project/node_modules/some-package/package.json", "{}");
    tree.write("project/node_modules/some-package/node_modules/package.json", "{}");
}

fn create_lib_test_structure(tree: &mut Tree) {
    tree.create_dir_all("project1/node_modules");
    tree.create_dir_all("project2/node_modules");
    tree.create_dir_all("nested/project3/node_modules");
    tree.write("project1/package.json", "{}");
    tree.write("project1/node_modules/package.json", "{}");
}

fn create_test_directory_with_content(tree: &mut Tree, rel: &str, file_count: usize) -> u64 {
    tree.create_dir_all(rel);
    let mut total_bytes = 0;
    for i in 0..file_count {
        let content = format!("content for file {}", i);
        tree.write(&format!("{}/file_{}.txt", rel, i), &content);
        total_bytes += content.len() as u64;
    }
    total_bytes
}

fn quiet_no_confirm() -> Config {
    Config { quiet: true, no_confirm: true, ..Default::default() }
}

#[test]
fn test_find_all_node_modules() {
    let mut tree = Tree::new();
    create_scanner_test_structure(&mut tree);

    let targets = scan(&tree, ROOT, &[]).unwrap();

    assert_eq!(targets.len(), 6); // All node_modules directories
    for target in &targets {
        assert!(target.ends_with("/node_modules"));
    }
}

#[test]
fn scanner_tests_test_exclusion_patterns() {
    let mut tree = Tree::new();
    create_scanner_test_structure(&mut tree);

    let exclude_patterns = vec!["**/exclude-me/**".to_string(), "**/vendor/**".to_string()];
    let targets = scan(&tree, ROOT, &exclude_patterns).unwrap();

    assert_eq!(targets.len(), 4); // Excluded 2 directories
    assert!(!targets.iter().any(|s| s.contains("exclude-me")));
    assert!(!targets.iter().any(|s| s.contains("vendor")));
}

#[test]
fn test_does_not_traverse_into_node_modules() {
    let mut tree = Tree::new();
    create_nested_node_modules_structure(&mut tree);

    let targets = scan(&tree, ROOT, &[]).unwrap();

    assert_eq!(targets.len(), 2, "Should only find 2 top-level node_modules directories");
    assert!(targets.iter().any(|s| s.ends_with("project/node_modules")));
    assert!(targets.iter().any(|s| s.ends_with("other-project/node_modules")));
    assert!(!targets.iter().any(|s| s.contains("some-package/node_modules")));
    assert!(!targets.iter().any(|s| s.contains("another-package/node_modules")));
    assert!(!targets.iter().any(|s| s.contains("deep-package/sub-package/node_modules")));
    assert_eq!(
        targets,
        vec![
            format!("{}/other-project/node_modules", ROOT),
            format!("{}/project/node_modules", ROOT),
        ]
    );
}

#[test]
fn scan_finds_nested_directories_even_without_pruning() {
    // Handed every entry of the tree, the scanner still selects the top-level ones only.
    let mut tree = Tree::new();
    create_nested_node_modules_structure(&mut tree);
    let everything: Vec<WalkItem> = tree
        .below(ROOT)
        .map(|(p, kind)| WalkItem::Entry { path: p.clone(), is_dir: kind.is_none() })
        .collect();
    let scanner = Scanner::new(ROOT, &[]);
    let targets = scanner.find_node_modules_dirs(&everything).unwrap();
    assert_eq!(
        targets,
        vec![
            format!("{}/other-project/node_modules", ROOT),
            format!("{}/project/node_modules", ROOT),
        ]
    );
}

#[test]
fn test_only_finds_top_level_node_modules() {
    let mut tree = Tree::new();
    tree.create_dir_all("app1/node_modules");
    tree.create_dir_all("app2/node_modules");
    tree.create_dir_all("app1/node_modules/@scope/package/node_modules");
    tree.create_dir_all("app1/node_modules/react/node_modules");
    tree.create_dir_all("app2/node_modules/lodash/node_modules");
    tree.create_dir_all("workspace/subproject/node_modules");

    let targets = scan(&tree, ROOT, &[]).unwrap();

    assert_eq!(targets.len(), 3, "Should find exactly 3 top-level node_modules directories");
    let has_app1 = targets.iter().any(|p| p.ends_with("app1/node_modules"));
    let has_app2 = targets.iter().any(|p| p.ends_with("app2/node_modules"));
    let has_subproject = targets.iter().any(|p| p.ends_with("workspace/subproject/node_modules"));
    assert!(has_app1, "Should find app1/node_modules");
    assert!(has_app2, "Should find app2/node_modules");
    assert!(has_subproject, "Should find workspace/subproject/node_modules");
    let has_nested = targets.iter().any(|p| {
        p.contains("@scope/package/node_modules")
            || p.contains("react/node_modules")
            || p.contains("lodash/node_modules")
    });
    assert!(!has_nested, "Should not find nested node_modules within packages");
}

#[test]
fn scan_below_a_root_inside_node_modules() {
    let mut tree = Tree::new();
    tree.create_dir_all("w/node_modules/pkg/sub/node_modules/dep/node_modules");
    tree.create_dir_all("w/node_modules/other/node_modules");
    let root = Tree::full("w/node_modules/pkg");

    let targets = scan(&tree, &root, &[]).unwrap();
    assert_eq!(targets, vec![format!("{}/sub/node_modules", root)]);

    let stats = cleanup(&mut tree, &root, &quiet_no_confirm(), false).unwrap();
    assert_eq!(stats.directories_found, 1);
    assert_eq!(stats.directories_deleted, 1);
    assert!(!tree.has("w/node_modules/pkg/sub/node_modules"));
    assert!(tree.has("w/node_modules/pkg/sub"));
    assert!(tree.has("w/node_modules/other/node_modules"));

    // From the root above, the whole of w/node_modules is one directory to delete.
    let targets = scan(&tree, ROOT, &[]).unwrap();
    assert_eq!(targets, vec![Tree::full("w/node_modules")]);
}

#[test]
fn candidates_are_absolute() {
    let mut tree = Tree::new();
    create_complex_test_structure(&mut tree);
    let targets = scan(&tree, ROOT, &[]).unwrap();
    assert_eq!(targets.len(), 8);
    for target in &targets {
        assert!(std::path::Path::new(target).is_absolute());
        assert!(target.starts_with(ROOT));
    }
    assert!(matches!(
        cleanup(&mut tree, "relative/root", &quiet_no_confirm(), false),
        Err(CleanupError::RelativeRoot { .. })
    ));
}

#[test]
fn scan_of_missing_root_fails() {
    let tree = Tree::new();
    let r = scan(&tree, "/completely/nonexistent", &[]);
    match r {
        Err(CleanupError::ScanFailed { message }) => {
            assert!(message.contains("/completely/nonexistent"))
        }
        other => panic!("unexpected: {:?}", other),
    }
}

#[test]
fn scans_are_repeatable() {
    let mut tree = Tree::new();
    create_complex_test_structure(&mut tree);
    let patterns = vec!["**/vendor/**".to_string()];
    let first = scan(&tree, ROOT, &patterns).unwrap();
    let second = scan(&tree, ROOT, &patterns).unwrap();
    assert_eq!(first, second);
    assert_eq!(first.len(), 7);
}

#[test]
fn test_basic_cleanup() {
    let mut tree = Tree::new();
    create_complex_test_structure(&mut tree);

    let stats = cleanup(&mut tree, ROOT, &quiet_no_confirm(), false).unwrap();

    assert_eq!(stats.directories_found, 8);
    assert_eq!(stats.directories_deleted, 8);
    assert_eq!(stats.directories_failed, 0);

    assert!(!tree.has("frontend/node_modules"));
    assert!(!tree.has("backend/node_modules"));
    assert!(!tree.has("packages/core/node_modules"));
    assert!(!tree.has("shared/utils/node_modules"));
    assert!(!tree.has("packages/ui/node_modules"));
    assert!(!tree.has("deep/nested/project/node_modules"));
    assert!(!tree.has("vendor/node_modules"));
    assert!(!tree.has("build/node_modules"));

    assert!(tree.has("frontend"));
    assert!(tree.has("backend"));
    assert!(tree.has("packages/core"));

    assert!(tree.has("src/components"));
    assert!(tree.has("docs/assets"));
}

#[test]
fn integration_test_exclusion_patterns() {
    let mut tree = Tree::new();
    create_complex_test_structure(&mut tree);

    let config = Config {
        exclude_patterns: vec!["**/vendor/**".to_string(), "**/build/**".to_string()],
        quiet: true,
        no_confirm: true,
        ..Default::default()
    };

    let stats = cleanup(&mut tree, ROOT, &config, false).unwrap();

    assert_eq!(stats.directories_found, 6);
    assert_eq!(stats.directories_deleted, 6);

    assert!(tree.has("vendor/node_modules"));
    assert!(tree.has("build/node_modules"));

    assert!(!tree.has("frontend/node_modules"));
    assert!(!tree.has("backend/node_modules"));
}

#[test]
fn integration_test_dry_run_mode() {
    let mut tree = Tree::new();
    create_complex_test_structure(&mut tree);
    let before: Vec<String> = tree.nodes.keys().cloned().collect();

    let config = Config { dry_run: true, quiet: true, ..Default::default() };

    let stats = cleanup(&mut tree, ROOT, &config, true).unwrap();

    assert_eq!(stats.directories_found, 8);
    assert_eq!(stats.directories_deleted, 0);
    assert_eq!(stats.directories_failed, 0);

    assert!(tree.has("frontend/node_modules"));
    assert!(tree.has("backend/node_modules"));
    assert!(tree.has("vendor/node_modules"));
    let after: Vec<String> = tree.nodes.keys().cloned().collect();
    assert_eq!(before, after);

    // The run that follows deletes as many as the dry run found.
    let stats = cleanup(&mut tree, ROOT, &quiet_no_confirm(), false).unwrap();
    assert_eq!(stats.directories_deleted, 8);
}

#[test]
fn test_empty_directory() {
    let mut tree = Tree::new();
    tree.create_dir_all("empty_project");

    let stats = cleanup(&mut tree, ROOT, &quiet_no_confirm(), false).unwrap();

    assert_eq!(stats.directories_found, 0);
    assert_eq!(stats.directories_deleted, 0);
}

#[test]
fn test_multithreaded_deletion() {
    let mut tree = Tree::new();
    create_complex_test_structure(&mut tree);

    let config = Config { threads: Some(4), quiet: true, no_confirm: true, ..Default::default() };

    let stats = cleanup(&mut tree, ROOT, &config, false).unwrap();

    assert_eq!(stats.directories_found, 8);
    assert_eq!(stats.directories_deleted, 8);
    assert_eq!(stats.directories_failed, 0);

    assert!(!tree.has("frontend/node_modules"));
    assert!(!tree.has("packages/core/node_modules"));
}

#[test]
fn test_size_calculation() {
    let mut tree = Tree::new();
    tree.create_dir_all("project/node_modules");

    let large_content = "x".repeat(1000); // 1KB of content
    tree.write("project/node_modules/large_file.txt", &large_content);
    tree.write("project/node_modules/small_file.txt", "small");

    let stats = cleanup(&mut tree, ROOT, &quiet_no_confirm(), false).unwrap();

    assert_eq!(stats.directories_found, 1);
    assert_eq!(stats.directories_deleted, 1);
    assert!(stats.bytes_freed > 1000); // Should be at least 1KB
    assert_eq!(stats.bytes_freed, 1005);
}

#[test]
fn test_invalid_exclusion_pattern_handling() {
    let mut tree = Tree::new();
    create_complex_test_structure(&mut tree);

    let config = Config {
        exclude_patterns: vec![
            "[invalid".to_string(), // Invalid glob pattern
            "*/valid".to_string(),  // Valid pattern
        ],
        quiet: true,
        no_confirm: true,
        ..Default::default()
    };

    let scanner = Scanner::new(ROOT, &config.exclude_patterns);
    assert_eq!(scanner.exclusion_pattern_count(), 1);
    assert_eq!(scanner.warnings().len(), 1);
    assert!(scanner.warnings()[0].starts_with("Warning: Invalid pattern '[invalid': "));

    let result = cleanup(&mut tree, ROOT, &config, false);
    assert!(result.is_ok());
    assert_eq!(result.unwrap().directories_deleted, 8);
}

#[test]
fn test_permission_error_handling() {
    let mut tree = Tree::new();
    tree.create_dir_all("project/node_modules");
    tree.write("project/node_modules/file.txt", "content");

    let result = cleanup(&mut tree, ROOT, &quiet_no_confirm(), false);
    assert!(result.is_ok());
}

#[test]
fn test_performance_with_many_directories() {
    let mut tree = Tree::new();
    for i in 0..50 {
        let project_path = format!("project_{}/node_modules", i);
        tree.create_dir_all(&project_path);
        tree.write(&format!("{}/package.json", project_path), "{}");
    }

    let start = std::time::Instant::now();
    let stats = cleanup(&mut tree, ROOT, &quiet_no_confirm(), false).unwrap();
    let elapsed = start.elapsed();

    assert_eq!(stats.directories_found, 50);
    assert_eq!(stats.directories_deleted, 50);
    assert!(elapsed.as_secs() < 5, "Cleanup took too long: {:?}", elapsed);
}

#[test]
fn test_delete_single_directory() {
    let mut tree = Tree::new();
    create_test_directory_with_content(&mut tree, "node_modules", 3);
    assert!(tree.has("node_modules"));

    let bytes_freed = delete_one(&mut tree, &Tree::full("node_modules")).unwrap();

    assert!(!tree.has("node_modules"));
    assert!(bytes_freed > 0);
}

#[test]
fn test_delete_multiple_directories() {
    let mut tree = Tree::new();
    let rels = ["project1/node_modules", "project2/node_modules", "project3/node_modules"];
    for rel in &rels {
        create_test_directory_with_content(&mut tree, rel, 2);
        assert!(tree.has(rel));
    }
    let targets: Vec<String> = rels.iter().map(|r| Tree::full(r)).collect();

    let cleaner = Cleaner::new(Some(2), false, true);
    let stats = delete_all(&mut tree, &cleaner, targets).unwrap();

    for rel in &rels {
        assert!(!tree.has(rel));
    }
    assert_eq!(stats.directories_found, 3);
    assert_eq!(stats.directories_deleted, 3);
    assert_eq!(stats.directories_failed, 0);
    assert!(stats.bytes_freed > 0);
}

#[test]
fn test_calculate_directory_size() {
    let mut tree = Tree::new();
    let expected_bytes = create_test_directory_with_content(&mut tree, "test", 3);
    let calculated_bytes = calculate_directory_size(&tree.size_items(&Tree::full("test"))).unwrap();
    assert_eq!(calculated_bytes, expected_bytes);
}

#[test]
fn test_calculate_directory_size_error() {
    let tree = Tree::new();
    let result = calculate_directory_size(&tree.size_items("/path/that/does/not/exist"));
    assert!(result.is_err());
}

#[test]
fn test_cleaner_with_progress() {
    let mut tree = Tree::new();
    create_test_directory_with_content(&mut tree, "node_modules", 2);

    let cleaner = Cleaner::new(Some(1), true, true); // With progress display
    assert!(!cleaner.show_progress());
    let stats = delete_all(&mut tree, &cleaner, vec![Tree::full("node_modules")]).unwrap();

    assert_eq!(stats.directories_found, 1);
    assert_eq!(stats.directories_deleted, 1);
}

#[test]
fn test_delete_single_directory_method() {
    let mut tree = Tree::new();
    tree.create_dir_all("test_directory");
    tree.write("test_directory/file1.txt", "content1");
    tree.write("test_directory/file2.txt", "content2");
    assert!(tree.has("test_directory"));

    let bytes_freed = delete_one(&mut tree, &Tree::full("test_directory")).unwrap();
    assert!(!tree.has("test_directory"));
    assert!(bytes_freed > 0);
    assert_eq!(bytes_freed, 16);
}

#[test]
fn test_delete_single_directory_method_nonexistent() {
    let mut tree = Tree::new();
    let result = delete_one(&mut tree, "/path/that/does/not/exist");
    assert!(result.is_err());
}

#[test]
fn test_delete_mixed_valid_invalid_paths() {
    let mut tree = Tree::new();
    tree.create_dir_all("valid/node_modules");
    tree.write("valid/node_modules/package.json", "{}");

    let cleaner = Cleaner::new(Some(1), false, true);
    let targets = vec![Tree::full("valid/node_modules"), String::from("/nonexistent/node_modules")];

    let plan = cleaner.delete_directories(targets).unwrap();
    let outcomes: Vec<Result<u64, String>> =
        plan.targets().iter().map(|t| delete_one(&mut tree, t)).collect();
    let report = plan.finish(&outcomes);

    // Should have tried both, succeeded on one, failed on one
    assert_eq!(report.stats.directories_found, 2);
    assert_eq!(report.stats.directories_deleted, 1);
    assert_eq!(report.stats.directories_failed, 1);
    assert_eq!(
        report.errors,
        vec![String::from(
            "/nonexistent/node_modules: No such file or directory (os error 2)"
        )]
    );
}

#[test]
fn test_delete_large_directory() {
    let mut tree = Tree::new();
    tree.create_dir_all("large_project/node_modules");
    for i in 0..50 {
        tree.write(
            &format!("large_project/node_modules/file_{}.js", i),
            &format!("content {}", i),
        );
    }
    for i in 0..5 {
        tree.write(
            &format!("large_project/node_modules/package_{}/index.js", i),
            &format!("module {}", i),
        );
    }

    let cleaner = Cleaner::new(Some(2), false, true);
    let stats =
        delete_all(&mut tree, &cleaner, vec![Tree::full("large_project/node_modules")]).unwrap();

    assert_eq!(stats.directories_found, 1);
    assert_eq!(stats.directories_deleted, 1);
    assert!(!tree.has("large_project/node_modules"));
    assert!(stats.bytes_freed > 0);
}

#[test]
fn test_concurrent_deletion() {
    let mut tree = Tree::new();
    let mut targets = vec![];
    for i in 0..8 {
        let rel = format!("project_{}/node_modules", i);
        create_test_directory_with_content(&mut tree, &rel, 2);
        targets.push(Tree::full(&rel));
    }

    let cleaner = Cleaner::new(Some(4), false, true); // Use 4 threads
    assert_eq!(cleaner.threads(), 4);
    let stats = delete_all(&mut tree, &cleaner, targets).unwrap();

    assert_eq!(stats.directories_found, 8);
    assert_eq!(stats.directories_deleted, 8);
    assert_eq!(stats.directories_failed, 0);
}

#[test]
fn lib_tests_test_dry_run_mode() {
    let mut tree = Tree::new();
    create_lib_test_structure(&mut tree);

    let config = Config { dry_run: true, quiet: true, ..Default::default() };

    let stats = cleanup(&mut tree, ROOT, &config, true).unwrap();

    assert_eq!(stats.directories_found, 3);
    assert_eq!(stats.directories_deleted, 0);

    assert!(tree.has("project1/node_modules"));
    assert!(tree.has("project2/node_modules"));
}

#[test]
fn test_no_node_modules_found() {
    let mut tree = Tree::new();
    tree.create_dir_all("empty_project");

    let config = Config { quiet: true, ..Default::default() };

    let stats = cleanup(&mut tree, ROOT, &config, true).unwrap();

    assert_eq!(stats.directories_found, 0);
    assert_eq!(stats.directories_deleted, 0);
}

#[test]
fn test_cleanup_user_cancellation() {
    let mut tree = Tree::new();
    create_lib_test_structure(&mut tree);

    let config = Config {
        no_confirm: true, // This bypasses the interactive prompt
        quiet: true,
        ..Default::default()
    };

    let stats = cleanup(&mut tree, ROOT, &config, false).unwrap();
    assert_eq!(stats.directories_found, 3);
    assert_eq!(stats.directories_deleted, 3);
}

#[test]
fn declined_run_deletes_nothing() {
    let mut tree = Tree::new();
    create_lib_test_structure(&mut tree);

    let stats = cleanup(&mut tree, ROOT, &Config::default(), false).unwrap();
    assert_eq!(stats.directories_found, 3);
    assert_eq!(stats.directories_deleted, 0);
    assert_eq!(stats.directories_failed, 0);
    assert_eq!(stats.bytes_freed, 0);
    assert!(tree.has("project1/node_modules"));

    let stats = cleanup(&mut tree, ROOT, &Config::default(), true).unwrap();
    assert_eq!(stats.directories_deleted, 3);
    assert!(!tree.has("project1/node_modules"));
}

#[test]
fn test_cleanup_with_invalid_path() {
    let mut tree = Tree::new();
    let config = Config { quiet: true, ..Default::default() };

    let result = cleanup(
        &mut tree,
        "/completely/nonexistent/path/that/should/not/exist",
        &config,
        false,
    );

    if let Ok(stats) = result {
        assert_eq!(stats.directories_found, 0);
    }
}

#[test]
fn test_cleanup_verbose_output() {
    let mut tree = Tree::new();
    create_lib_test_structure(&mut tree);

    let config = Config { no_confirm: true, quiet: false, ..Default::default() };

    let stats = cleanup(&mut tree, ROOT, &config, false).unwrap();
    assert_eq!(stats.directories_found, 3);
    assert_eq!(stats.directories_deleted, 3);
}

#[test]
fn test_cleanup_dry_run_verbose() {
    let mut tree = Tree::new();
    create_lib_test_structure(&mut tree);

    let config = Config { dry_run: true, quiet: false, ..Default::default() };

    let stats = cleanup(&mut tree, ROOT, &config, false).unwrap();
    assert_eq!(stats.directories_found, 3);
    assert_eq!(stats.directories_deleted, 0);
}

#[test]
fn test_cleanup_no_directories_found_verbose() {
    let mut tree = Tree::new();
    tree.create_dir_all("project");
    tree.write("project/package.json", "{}");

    let config = Config { quiet: false, ..Default::default() };

    let stats = cleanup(&mut tree, ROOT, &config, false).unwrap();
    assert_eq!(stats.directories_found, 0);
    assert_eq!(stats.directories_deleted, 0);
}

#[test]
fn test_run_with_valid_path() {
    let mut tree = Tree::new();
    create_lib_test_structure(&mut tree);

    let stats = cleanup(&mut tree, ROOT, &quiet_no_confirm(), false).unwrap();
    assert_eq!(stats.directories_found, 3);
    assert_eq!(stats.directories_deleted, 3);
}

#[test]
fn test_run_with_empty_directory() {
    let mut tree = Tree::new();
    tree.create_dir_all("some_project");
    tree.write("some_project/package.json", "{}");

    let config = Config { quiet: true, ..Default::default() };

    let stats = cleanup(&mut tree, ROOT, &config, false).unwrap();
    assert_eq!(stats.directories_found, 0);
    assert_eq!(stats.directories_deleted, 0);
}

#[test]
fn test_run_dry_run_mode() {
    let mut tree = Tree::new();
    create_lib_test_structure(&mut tree);

    let config = Config { dry_run: true, quiet: true, ..Default::default() };

    let stats = cleanup(&mut tree, ROOT, &config, false).unwrap();
    assert_eq!(stats.directories_found, 3);
    assert_eq!(stats.directories_deleted, 0); // Dry run shouldn't delete

    assert!(tree.has("project1/node_modules"));
    assert!(tree.has("project2/node_modules"));
}

#[test]
fn test_run_verbose_output() {
    let mut tree = Tree::new();
    create_lib_test_structure(&mut tree);

    let config = Config { quiet: false, no_confirm: true, ..Default::default() };

    let stats = cleanup(&mut tree, ROOT, &config, false).unwrap();
    assert_eq!(stats.directories_found, 3);
    assert_eq!(stats.directories_deleted, 3);
}

#[test]
fn scan_report_lists_parents() {
    let mut tree = Tree::new();
    create_lib_test_structure(&mut tree);

    let config = Config { dry_run: true, ..Default::default() };
    let scanned = cleanup_node_modules(ROOT, &config, &tree.walk(ROOT)).unwrap();
    assert_eq!(
        scanned.report,
        vec![
            String::from("Found 3 node_modules directories"),
            String::from("DRY RUN - would delete:"),
            String::from("  /tmp/work/nested/project3"),
            String::from("  /tmp/work/project1"),
            String::from("  /tmp/work/project2"),
            String::from(""),
        ]
    );
    assert!(scanned.warnings.is_empty());

    let empty = Tree::new();
    let scanned = cleanup_node_modules(ROOT, &Config::default(), &empty.walk(ROOT)).unwrap();
    assert_eq!(scanned.report, vec![String::from("No node_modules directories found.")]);
    assert!(matches!(scanned.next, NextStep::Finish(_)));
}

#[test]
fn test_run_with_exclusions() {
    let mut tree = Tree::new();
    tree.create_dir_all("project1/node_modules");
    tree.create_dir_all("vendor/node_modules");
    tree.create_dir_all("build/node_modules");

    let config = Config {
        exclude_patterns: vec!["**/vendor/**".to_string(), "**/build/**".to_string()],
        quiet: true,
        no_confirm: true,
        ..Default::default()
    };

    let stats = cleanup(&mut tree, ROOT, &config, false).unwrap();

    assert_eq!(stats.directories_found, 1);
    assert_eq!(stats.directories_deleted, 1);
    assert!(!tree.has("project1/node_modules"));
    assert!(tree.has("vendor/node_modules"));
    assert!(tree.has("build/node_modules"));
}

#[test]
fn test_statistics_formatting() {
    let mut tree = Tree::new();
    tree.create_dir_all("project/node_modules");
    tree.write("project/node_modules/package.json", "{}");
    tree.write("project/node_modules/large_file.txt", &"x".repeat(2048));

    let config = quiet_no_confirm();
    let stats = cleanup(&mut tree, ROOT, &config, false).unwrap();

    assert_eq!(stats.directories_found, 1);
    assert_eq!(stats.directories_deleted, 1);
    assert!(stats.bytes_freed > 2000);

    let loud = Config { no_confirm: true, ..Default::default() };
    assert_eq!(
        closing_summary(&loud, &stats),
        vec![
            String::from("✅ Cleanup completed successfully!"),
            String::from(""),
            String::from("📊 Final Summary:"),
            String::from("   Found: 1"),
            String::from("   Deleted: 1"),
            String::from("   Space freed: 2.0 KB"),
        ]
    );
    assert!(closing_summary(&config, &stats).is_empty());
}
