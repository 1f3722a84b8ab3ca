use version_sync::changelog::{format_commit_message, generate_changes, update_changelog};

#[test]
fn test_classify_feat_with_scope() {
    let entry = format_commit_message("feat(auth): add login").unwrap();
    assert_eq!(entry, "- ✨ **auth:** add login");
}

#[test]
fn test_classify_feat_without_scope() {
    let entry = format_commit_message("feat: add login").unwrap();
    assert_eq!(entry, "- ✨ add login");
}

#[test]
fn test_classify_fix_with_scope() {
    let entry = format_commit_message("fix(core): close handle").unwrap();
    assert_eq!(entry, "- 🐛 **core:** close handle");
}

#[test]
fn test_classify_simple_types() {
    assert_eq!(format_commit_message("docs: expand guide").unwrap(), "- 📚 expand guide");
    assert_eq!(format_commit_message("style: reformat").unwrap(), "- 💎 reformat");
    assert_eq!(format_commit_message("refactor: split module").unwrap(), "- ♻️ split module");
    assert_eq!(format_commit_message("perf: cache results").unwrap(), "- ⚡️ cache results");
    assert_eq!(format_commit_message("test: cover parser").unwrap(), "- ✅ cover parser");
    assert_eq!(format_commit_message("build: pin toolchain").unwrap(), "- 📦 pin toolchain");
    assert_eq!(format_commit_message("ci: run nightly").unwrap(), "- 👷 run nightly");
    assert_eq!(format_commit_message("chore: tidy up").unwrap(), "- 🔧 tidy up");
}

#[test]
fn test_classify_scope_ignored_for_docs() {
    let entry = format_commit_message("docs(readme): expand guide").unwrap();
    assert_eq!(entry, "- 📚 expand guide");
}

#[test]
fn test_classify_unknown_type_falls_back() {
    let entry = format_commit_message("wip: half done").unwrap();
    assert_eq!(entry, "- wip: half done");
}

#[test]
fn test_classify_non_matching_line_falls_back() {
    let entry = format_commit_message("Reformat the tree").unwrap();
    assert_eq!(entry, "- Reformat the tree");
}

#[test]
fn test_classify_uses_first_line_only() {
    let entry = format_commit_message("feat: add login\n\nLonger body text").unwrap();
    assert_eq!(entry, "- ✨ add login");
}

#[test]
fn test_classify_empty_message() {
    assert!(format_commit_message("").is_none());
}

#[test]
fn test_generate_changes_skips_merges_and_bumps() {
    let messages: Vec<String> = vec![
        "feat(auth): add login".to_string(),
        "Merge branch 'x'".to_string(),
        "chore: bump version to 1.2.3".to_string(),
        "fix: close handle".to_string(),
    ];
    let changes = generate_changes(&messages);
    assert_eq!(changes, "- ✨ **auth:** add login\n- 🐛 close handle\n");
}

#[test]
fn test_generate_changes_trims_messages() {
    let messages: Vec<String> = vec!["  feat: add login\n".to_string()];
    let changes = generate_changes(&messages);
    assert_eq!(changes, "- ✨ add login\n");
}

#[test]
fn test_update_changelog_empty_document() {
    let changes = "- ✨ add login\n- 🐛 close handle";
    let updated = update_changelog("", "1.3.0", "2024-05-01", changes);
    assert_eq!(
        updated,
        "# Changelog\n\n# 1.3.0 (2024-05-01)\n\n- ✨ add login\n- 🐛 close handle\n"
    );
}

#[test]
fn test_update_changelog_second_release_goes_on_top() {
    let first = update_changelog("", "1.3.0", "2024-05-01", "- ✨ add login\n");
    let second = update_changelog(&first, "1.4.0", "2024-06-01", "- 🐛 close handle\n");
    assert!(second.starts_with("# Changelog\n\n# 1.4.0 (2024-06-01)\n\n- 🐛 close handle\n"));
    let newer = second.find("# 1.4.0").unwrap();
    let older = second.find("# 1.3.0").unwrap();
    assert!(newer < older);
}

#[test]
fn test_update_changelog_without_header_prepends() {
    let updated = update_changelog("old notes\n", "1.0.1", "2024-07-01", "- 🔧 tidy up\n");
    assert_eq!(updated, "\n\n# 1.0.1 (2024-07-01)\n\n- 🔧 tidy up\n\nold notes\n");
}
