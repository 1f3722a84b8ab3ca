use version_sync::cmake::{extract_cmake_version, update_cmake_version};
use version_sync::json_doc::{extract_library_json_version, update_library_json};
use version_sync::kv::{
    extract_library_properties_version, extract_platformio_ini_version, update_library_properties,
    update_platformio_ini,
};
use version_sync::meson::{extract_meson_version, update_meson_version};
use version_sync::project_files::{ProjectFile, ProjectType};
use version_sync::semver::{parse_version_string, version_string, SemVer, VersionError};
use version_sync::toml_doc::{detect_cargo_version, update_cargo_toml};
use version_sync::version::{well_known_manifests, VersionManager};

#[test]
fn test_parse_version_string_exact() {
    let v = parse_version_string("10.20.30").unwrap();
    assert_eq!(v, SemVer { major: 10, minor: 20, patch: 30 });
}

#[test]
fn test_parse_version_string_extra_components_allowed() {
    let v = parse_version_string("1.2.3.4").unwrap();
    assert_eq!(v, SemVer { major: 1, minor: 2, patch: 3 });
}

#[test]
fn test_parse_version_string_too_short() {
    assert_eq!(parse_version_string("1.2"), Err(VersionError::Format));
    assert_eq!(parse_version_string(""), Err(VersionError::Format));
}

#[test]
fn test_parse_version_string_non_numeric() {
    assert_eq!(parse_version_string("1.2.x"), Err(VersionError::Format));
    assert_eq!(parse_version_string("a.b.c"), Err(VersionError::Format));
}

#[test]
fn test_version_string_form() {
    let v = SemVer { major: 1, minor: 23, patch: 456 };
    assert_eq!(version_string(v), "1.23.456");
}

#[test]
fn test_cmake_rewrite_then_detect() {
    let content = "project(Demo VERSION 1.2.3)\nset(OTHER on)\n";
    let v = SemVer { major: 9, minor: 8, patch: 7 };
    let updated = update_cmake_version(content, v.major, v.minor, v.patch);
    assert_eq!(extract_cmake_version(&updated).unwrap(), Some(v));
}

#[test]
fn test_cmake_rewrite_idempotent() {
    let content = "project(Demo VERSION 1.2.3)\nset(PROJECT_VERSION 1.2.3)\n";
    let once = update_cmake_version(content, 2, 0, 0);
    let twice = update_cmake_version(&once, 2, 0, 0);
    assert_eq!(once, twice);
}

#[test]
fn test_cmake_components_rewrite_then_detect() {
    let content = "set(PROJECT_VERSION_MAJOR 5)\nset(PROJECT_VERSION_MINOR 6)\nset(PROJECT_VERSION_PATCH 7)\n";
    assert_eq!(
        extract_cmake_version(content).unwrap(),
        Some(SemVer { major: 5, minor: 6, patch: 7 })
    );
    let updated = update_cmake_version(content, 8, 9, 10);
    assert_eq!(
        extract_cmake_version(&updated).unwrap(),
        Some(SemVer { major: 8, minor: 9, patch: 10 })
    );
}

#[test]
fn test_meson_rewrite_then_detect() {
    let content = "project('demo', 'cpp',\n  version : '1.2.3',\n)\n";
    let updated = update_meson_version(content, 4, 5, 6);
    assert_eq!(
        extract_meson_version(&updated).unwrap(),
        Some(SemVer { major: 4, minor: 5, patch: 6 })
    );
}

#[test]
fn test_meson_rewrite_idempotent() {
    let content = "  version : '1.2.3',\nversion_major = '1'\n";
    let once = update_meson_version(content, 3, 1, 4);
    let twice = update_meson_version(&once, 3, 1, 4);
    assert_eq!(once, twice);
}

#[test]
fn test_ini_rewrite_then_detect() {
    let content = "[env]\nversion = \"0.1.0\"\n";
    let v = SemVer { major: 1, minor: 0, patch: 0 };
    let updated = update_platformio_ini(content, v);
    assert_eq!(extract_platformio_ini_version(&updated).unwrap(), Some(v));
}

#[test]
fn test_ini_rewrite_idempotent() {
    let content = "[env]\nversion = 0.1.0-dev\n";
    let v = SemVer { major: 1, minor: 0, patch: 0 };
    let once = update_platformio_ini(content, v);
    let twice = update_platformio_ini(&once, v);
    assert_eq!(once, twice);
}

#[test]
fn test_properties_rewrite_then_detect() {
    let content = "name=Demo\nversion=0.1.0\n";
    let v = SemVer { major: 2, minor: 2, patch: 2 };
    let updated = update_library_properties(content, v);
    assert_eq!(extract_library_properties_version(&updated).unwrap(), Some(v));
    let twice = update_library_properties(&updated, v);
    assert_eq!(updated, twice);
}

#[test]
fn test_properties_keeps_other_lines() {
    let content = "name=Demo\nversion=0.1.0\nauthor=Someone\n";
    let updated = update_library_properties(content, SemVer { major: 1, minor: 1, patch: 1 });
    assert!(updated.contains("name=Demo"));
    assert!(updated.contains("author=Someone"));
    assert!(updated.contains("version=1.1.1"));
}

#[test]
fn test_cargo_rewrite_then_detect() {
    let content = "[package]\nname = \"demo\"\nversion = \"0.1.0\"\n";
    let v = SemVer { major: 0, minor: 2, patch: 0 };
    let updated = update_cargo_toml(content, v).unwrap();
    assert_eq!(detect_cargo_version(&updated).unwrap(), Some(v));
}

#[test]
fn test_cargo_detect_invalid_toml() {
    assert_eq!(
        detect_cargo_version("not = [valid"),
        Err(VersionError::Parse)
    );
}

#[test]
fn test_cargo_detect_missing_version() {
    assert_eq!(detect_cargo_version("[package]\nname = \"demo\"\n").unwrap(), None);
}

#[test]
fn test_library_json_rewrite_then_detect() {
    let content = "{\n  \"name\": \"Demo\",\n  \"version\": \"0.1.0\"\n}\n";
    let v = SemVer { major: 3, minor: 0, patch: 1 };
    let updated = update_library_json(content, v).unwrap();
    assert_eq!(extract_library_json_version(&updated).unwrap(), Some(v));
}

#[test]
fn test_library_json_detect_invalid() {
    assert_eq!(
        extract_library_json_version("{ not json"),
        Err(VersionError::Parse)
    );
}

#[test]
fn test_update_version_rejects_bad_version() {
    let pf = ProjectFile { path: "Cargo.toml".to_string(), project_type: ProjectType::Rust };
    assert_eq!(pf.update_version("[package]\n", "1.2"), Err(VersionError::Format));
}

#[test]
fn test_platformio_unknown_file_unsupported() {
    let pf = ProjectFile { path: "other.cfg".to_string(), project_type: ProjectType::PlatformIO };
    assert_eq!(
        pf.update_platformio_project("version = 1", "1.0.0"),
        Err(VersionError::Unsupported)
    );
}

#[test]
fn test_scan_order_is_fixed() {
    let names = well_known_manifests();
    let expect = vec![
        "Cargo.toml",
        "pyproject.toml",
        "CMakeLists.txt",
        "meson.build",
        "platformio.ini",
        "library.json",
        "library.properties",
    ];
    assert_eq!(names.len(), expect.len());
    let mut i = 0;
    while i < names.len() {
        assert_eq!(names[i], expect[i]);
        i += 1;
    }
}

#[test]
fn test_last_detection_wins() {
    let cargo = "[package]\nname = \"demo\"\nversion = \"1.0.0\"\n";
    let props = "version=2.0.0\n";
    let mut vm = VersionManager::new();
    let found: Vec<(String, String)> = vec![
        ("Cargo.toml".to_string(), cargo.to_string()),
        ("library.properties".to_string(), props.to_string()),
    ];
    vm.detect_version_files(&found).unwrap();
    assert_eq!(vm.get_current_version(), SemVer { major: 2, minor: 0, patch: 0 });
    assert_eq!(vm.project_files.len(), 2);
}

#[test]
fn test_detection_failure_is_silent_no_match() {
    // A present file without a version is no error; the default stays.
    let mut vm = VersionManager::new();
    let found: Vec<(String, String)> = vec![(
        "CMakeLists.txt".to_string(),
        "cmake_minimum_required(VERSION 3.10)\n".to_string(),
    )];
    vm.detect_version_files(&found).unwrap();
    assert_eq!(vm.get_current_version(), SemVer { major: 0, minor: 1, patch: 0 });
    assert_eq!(vm.project_files.len(), 1);
}

#[test]
fn test_detection_error_aborts_scan() {
    let mut vm = VersionManager::new();
    let found: Vec<(String, String)> = vec![
        ("Cargo.toml".to_string(), "not = [valid".to_string()),
        ("library.properties".to_string(), "version=2.0.0\n".to_string()),
    ];
    assert_eq!(vm.detect_version_files(&found), Err(VersionError::Parse));
    // The failing file was not recorded and the scan stopped.
    assert_eq!(vm.project_files.len(), 0);
    assert_eq!(vm.get_current_version(), SemVer { major: 0, minor: 1, patch: 0 });
}

#[test]
fn test_update_all_versions_aborts_on_error() {
    let mut vm = VersionManager::new();
    let found: Vec<(String, String)> = vec![
        ("library.properties".to_string(), "version=1.0.0\n".to_string()),
        ("library.json".to_string(), "{\"version\": \"1.0.0\"}".to_string()),
    ];
    vm.detect_version_files(&found).unwrap();
    let contents: Vec<String> = vec!["version=1.0.0\n".to_string(), "{ broken".to_string()];
    assert_eq!(vm.update_all_versions(&contents, "1.1.0"), Err(VersionError::Parse));
}
