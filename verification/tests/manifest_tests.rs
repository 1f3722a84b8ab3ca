use version_sync::project_files::{ProjectFile, ProjectType};
use version_sync::version::VersionManager;

fn scan(vm: &mut VersionManager, pairs: &[(&str, &str)]) {
    let found: Vec<(String, String)> = pairs
        .iter()
        .map(|(p, c)| (p.to_string(), c.to_string()))
        .collect();
    vm.detect_version_files(&found).unwrap();
}

// Rust project tests
#[test]
fn test_detect_cargo_version() {
    let content = r#"
[package]
name = "test_project"
version = "1.2.3"
edition = "2021"

[dependencies]
"#;
    let mut version_manager = VersionManager::new();
    scan(&mut version_manager, &[("Cargo.toml", content)]);

    let version = version_manager.get_current_version();
    assert_eq!(version.major, 1);
    assert_eq!(version.minor, 2);
    assert_eq!(version.patch, 3);
}

#[test]
fn test_update_cargo_version() {
    let content = r#"
[package]
name = "test_project"
version = "1.2.3"
edition = "2021"

[dependencies]
"#;
    let project_file = ProjectFile {
        path: "Cargo.toml".to_string(),
        project_type: ProjectType::Rust,
    };

    let updated = project_file.update_version(content, "2.3.4").unwrap();
    assert!(updated.contains("version = \"2.3.4\""));
}

// Python project tests
#[test]
fn test_detect_python_version() {
    let content = r#"
[build-system]
requires = ["poetry-core>=1.0.0"]
build-backend = "poetry.core.masonry.api"

[tool.poetry]
name = "test-project"
version = "2.3.4"
description = "Test project"
"#;
    let mut version_manager = VersionManager::new();
    scan(&mut version_manager, &[("pyproject.toml", content)]);

    let version = version_manager.get_current_version();
    assert_eq!(version.major, 2);
    assert_eq!(version.minor, 3);
    assert_eq!(version.patch, 4);
}

#[test]
fn test_update_python_version() {
    let content = r#"
[build-system]
requires = ["poetry-core>=1.0.0"]
build-backend = "poetry.core.masonry.api"

[tool.poetry]
name = "test-project"
version = "2.3.4"
description = "Test project"
"#;
    let project_file = ProjectFile {
        path: "pyproject.toml".to_string(),
        project_type: ProjectType::Python,
    };

    let updated = project_file.update_version(content, "3.4.5").unwrap();
    assert!(updated.contains("version = \"3.4.5\""));
}

// C++ CMake project tests
#[test]
fn test_detect_cmake_project_version() {
    let content = r#"
cmake_minimum_required(VERSION 3.10)
project(TestProject VERSION 3.4.5)

# Other cmake config
"#;
    let mut version_manager = VersionManager::new();
    scan(&mut version_manager, &[("CMakeLists.txt", content)]);

    let version = version_manager.get_current_version();
    assert_eq!(version.major, 3);
    assert_eq!(version.minor, 4);
    assert_eq!(version.patch, 5);
}

#[test]
fn test_detect_cmake_set_version() {
    let content = r#"
cmake_minimum_required(VERSION 3.10)
project(TestProject)

set(PROJECT_VERSION 4.5.6)
"#;
    let mut version_manager = VersionManager::new();
    scan(&mut version_manager, &[("CMakeLists.txt", content)]);

    let version = version_manager.get_current_version();
    assert_eq!(version.major, 4);
    assert_eq!(version.minor, 5);
    assert_eq!(version.patch, 6);
}

#[test]
fn test_detect_cmake_version_components() {
    let content = r#"
cmake_minimum_required(VERSION 3.10)
project(TestProject)

set(PROJECT_VERSION_MAJOR 5)
set(PROJECT_VERSION_MINOR 6)
set(PROJECT_VERSION_PATCH 7)
"#;
    let mut version_manager = VersionManager::new();
    scan(&mut version_manager, &[("CMakeLists.txt", content)]);

    let version = version_manager.get_current_version();
    assert_eq!(version.major, 5);
    assert_eq!(version.minor, 6);
    assert_eq!(version.patch, 7);
}

#[test]
fn test_update_cmake_project_version() {
    let content = r#"
cmake_minimum_required(VERSION 3.10)
project(TestProject VERSION 3.4.5)

# Other cmake config
"#;
    let project_file = ProjectFile {
        path: "CMakeLists.txt".to_string(),
        project_type: ProjectType::Cpp,
    };

    let updated = project_file.update_version(content, "6.7.8").unwrap();
    assert!(updated.contains("project(TestProject VERSION 6.7.8"));
}

#[test]
fn test_update_cmake_set_version() {
    let content = r#"
cmake_minimum_required(VERSION 3.10)
project(TestProject)

set(PROJECT_VERSION 4.5.6)
"#;
    let project_file = ProjectFile {
        path: "CMakeLists.txt".to_string(),
        project_type: ProjectType::Cpp,
    };

    let updated = project_file.update_version(content, "7.8.9").unwrap();
    assert!(updated.contains("set(PROJECT_VERSION 7.8.9)"));
}

#[test]
fn test_update_cmake_version_components() {
    let content = r#"
cmake_minimum_required(VERSION 3.10)
project(TestProject)

set(PROJECT_VERSION_MAJOR 5)
set(PROJECT_VERSION_MINOR 6)
set(PROJECT_VERSION_PATCH 7)
"#;
    let project_file = ProjectFile {
        path: "CMakeLists.txt".to_string(),
        project_type: ProjectType::Cpp,
    };

    let updated = project_file.update_version(content, "8.9.10").unwrap();
    println!("Generated content:\n{}", updated);
    assert!(updated.contains("set(PROJECT_VERSION_MAJOR 8)"));
    assert!(updated.contains("set(PROJECT_VERSION_MINOR 9)"));
    assert!(updated.contains("set(PROJECT_VERSION_PATCH 10)"));
}

// Meson project tests
#[test]
fn test_detect_meson_project_version() {
    let content = r#"
project('test_project', 'cpp',
  version : '5.6.7',
  default_options : ['warning_level=3', 'cpp_std=c++17']
)
"#;
    let mut version_manager = VersionManager::new();
    scan(&mut version_manager, &[("meson.build", content)]);

    let version = version_manager.get_current_version();
    assert_eq!(version.major, 5);
    assert_eq!(version.minor, 6);
    assert_eq!(version.patch, 7);
}

#[test]
fn test_detect_meson_version_variable() {
    let content = "\nproject('test_project', 'cpp')\n\nversion = '6.7.8'\n";
    let mut version_manager = VersionManager::new();
    scan(&mut version_manager, &[("meson.build", content)]);

    let version = version_manager.get_current_version();
    assert_eq!(version.major, 6);
    assert_eq!(version.minor, 7);
    assert_eq!(version.patch, 8);
}

#[test]
fn test_detect_meson_version_components() {
    let content = r#"
project('test_project', 'cpp')

version_major = '7'
version_minor = '8'
version_patch = '9'
"#;
    let mut version_manager = VersionManager::new();
    scan(&mut version_manager, &[("meson.build", content)]);

    let version = version_manager.get_current_version();
    assert_eq!(version.major, 7);
    assert_eq!(version.minor, 8);
    assert_eq!(version.patch, 9);
}

#[test]
fn test_update_meson_project_version() {
    let content = r#"
project('test_project', 'cpp',
  version : '5.6.7',
  default_options : ['warning_level=3', 'cpp_std=c++17']
)
"#;
    let project_file = ProjectFile {
        path: "meson.build".to_string(),
        project_type: ProjectType::Meson,
    };

    let updated = project_file.update_version(content, "8.9.10").unwrap();
    assert!(updated.contains("version : '8.9.10',"));
}

#[test]
fn test_update_meson_version_components() {
    let content = r#"
project('test_project', 'cpp')

version_major = '7'
version_minor = '8'
version_patch = '9'
"#;
    let project_file = ProjectFile {
        path: "meson.build".to_string(),
        project_type: ProjectType::Meson,
    };

    let updated = project_file.update_version(content, "9.10.11").unwrap();
    assert!(updated.contains("version_major = '9'"));
    assert!(updated.contains("version_minor = '10'"));
    assert!(updated.contains("version_patch = '11'"));
}

// Version bump tests
#[test]
fn test_bump_major_version() {
    let content = r#"
[package]
name = "test_project"
version = "1.2.3"
edition = "2021"
"#;
    let mut version_manager = VersionManager::new();
    scan(&mut version_manager, &[("Cargo.toml", content)]);
    version_manager.bump_major();

    let new_version = version_manager.get_current_version();
    assert_eq!(new_version.major, 2);
    assert_eq!(new_version.minor, 0);
    assert_eq!(new_version.patch, 0);
}

#[test]
fn test_bump_minor_version() {
    let content = r#"
[package]
name = "test_project"
version = "1.2.3"
edition = "2021"
"#;
    let mut version_manager = VersionManager::new();
    scan(&mut version_manager, &[("Cargo.toml", content)]);
    version_manager.bump_minor();

    let new_version = version_manager.get_current_version();
    assert_eq!(new_version.major, 1);
    assert_eq!(new_version.minor, 3);
    assert_eq!(new_version.patch, 0);
}

#[test]
fn test_bump_patch_version() {
    let content = r#"
[package]
name = "test_project"
version = "1.2.3"
edition = "2021"
"#;
    let mut version_manager = VersionManager::new();
    scan(&mut version_manager, &[("Cargo.toml", content)]);
    version_manager.bump_patch();

    let new_version = version_manager.get_current_version();
    assert_eq!(new_version.major, 1);
    assert_eq!(new_version.minor, 2);
    assert_eq!(new_version.patch, 4);
}

// Multiple project types test
#[test]
fn test_multiple_project_types() {
    let cargo_content = r#"
[package]
name = "test_project"
version = "1.2.3"
edition = "2021"
"#;
    let cmake_content = r#"
cmake_minimum_required(VERSION 3.10)
project(TestProject VERSION 1.2.3)
"#;
    let meson_content = r#"
project('test_project', 'cpp',
  version : '1.2.3',
  default_options : ['warning_level=3', 'cpp_std=c++17']
)
"#;
    let pyproject_content = r#"
[build-system]
requires = ["poetry-core>=1.0.0"]
build-backend = "poetry.core.masonry.api"

[tool.poetry]
name = "test-project"
version = "1.2.3"
description = "Test project"
"#;

    let mut version_manager = VersionManager::new();
    scan(
        &mut version_manager,
        &[
            ("Cargo.toml", cargo_content),
            ("pyproject.toml", pyproject_content),
            ("CMakeLists.txt", cmake_content),
            ("meson.build", meson_content),
        ],
    );

    // Verify all files were detected
    assert_eq!(version_manager.project_files.len(), 4);

    // Bump the version
    version_manager.bump_minor();
    let new_version = version_sync::semver::version_string(version_manager.get_current_version());

    // Update all project files
    let contents: Vec<String> = vec![
        cargo_content.to_string(),
        pyproject_content.to_string(),
        cmake_content.to_string(),
        meson_content.to_string(),
    ];
    let updated = version_manager
        .update_all_versions(&contents, &new_version)
        .unwrap();

    // Check that each file was updated
    assert!(updated[0].contains("version = \"1.3.0\""));
    assert!(updated[1].contains("version = \"1.3.0\""));
    assert!(updated[2].contains("project(TestProject VERSION 1.3.0"));
    assert!(updated[3].contains("version : '1.3.0',"));
}

// PlatformIO tests
#[test]
fn test_detect_platformio_ini_version() {
    let content = r#"
[env:uno]
platform = atmelavr
board = uno
framework = arduino
version = "1.2.3"
"#;
    let mut version_manager = VersionManager::new();
    scan(&mut version_manager, &[("platformio.ini", content)]);

    let version = version_manager.get_current_version();
    assert_eq!(version.major, 1);
    assert_eq!(version.minor, 2);
    assert_eq!(version.patch, 3);
}

#[test]
fn test_update_platformio_ini_version() {
    let content = r#"
[env:uno]
platform = atmelavr
board = uno
framework = arduino
version = "1.2.3"
"#;
    let project_file = ProjectFile {
        path: "platformio.ini".to_string(),
        project_type: ProjectType::PlatformIO,
    };

    let updated = project_file.update_version(content, "2.3.4").unwrap();
    assert!(updated.contains("version = \"2.3.4\""));
}

#[test]
fn test_detect_library_json_version() {
    let content = r#"
{
  "name": "TestLibrary",
  "version": "2.3.4",
  "description": "Test PlatformIO library",
  "keywords": "test, arduino",
  "repository": {
    "type": "git",
    "url": "https://github.com/example/test.git"
  },
  "authors": [
    {
      "name": "Test Author",
      "email": "test@example.com"
    }
  ],
  "frameworks": "*",
  "platforms": "*"
}
"#;
    let mut version_manager = VersionManager::new();
    scan(&mut version_manager, &[("library.json", content)]);

    let version = version_manager.get_current_version();
    assert_eq!(version.major, 2);
    assert_eq!(version.minor, 3);
    assert_eq!(version.patch, 4);
}

#[test]
fn test_update_library_json_version() {
    let content = r#"
{
  "name": "TestLibrary",
  "version": "2.3.4",
  "description": "Test PlatformIO library"
}
"#;
    let project_file = ProjectFile {
        path: "library.json".to_string(),
        project_type: ProjectType::PlatformIO,
    };

    let updated = project_file.update_version(content, "3.4.5").unwrap();
    assert!(updated.contains("\"version\": \"3.4.5\""));
}

#[test]
fn test_detect_library_properties_version() {
    let content = r#"
name=TestLibrary
version=3.4.5
author=Test Author <test@example.com>
maintainer=Test Maintainer <maintainer@example.com>
sentence=A test library for PlatformIO.
paragraph=This is a longer description of the test library.
category=Other
url=https://github.com/example/test
architectures=*
"#;
    let mut version_manager = VersionManager::new();
    scan(&mut version_manager, &[("library.properties", content)]);

    let version = version_manager.get_current_version();
    assert_eq!(version.major, 3);
    assert_eq!(version.minor, 4);
    assert_eq!(version.patch, 5);
}

#[test]
fn test_update_library_properties_version() {
    let content = "\nname=TestLibrary\nversion=3.4.5\nauthor=Test Author <test@example.com>\n";
    let project_file = ProjectFile {
        path: "library.properties".to_string(),
        project_type: ProjectType::PlatformIO,
    };

    let updated = project_file.update_version(content, "4.5.6").unwrap();
    assert!(updated.contains("version=4.5.6"));
}

#[test]
fn test_multiple_platformio_files() {
    let ini_content = r#"
[env:uno]
platform = atmelavr
board = uno
framework = arduino
version = "1.2.3"
"#;
    let json_content = r#"
{
  "name": "TestLibrary",
  "version": "1.2.3",
  "description": "Test PlatformIO library"
}
"#;
    let properties_content =
        "\nname=TestLibrary\nversion=1.2.3\nauthor=Test Author <test@example.com>\n";

    let mut version_manager = VersionManager::new();
    scan(
        &mut version_manager,
        &[
            ("platformio.ini", ini_content),
            ("library.json", json_content),
            ("library.properties", properties_content),
        ],
    );

    // Verify all files were detected
    assert_eq!(version_manager.project_files.len(), 3);

    // Bump the version
    version_manager.bump_minor();
    let new_version = version_sync::semver::version_string(version_manager.get_current_version());

    // Update all project files
    let contents: Vec<String> = vec![
        ini_content.to_string(),
        json_content.to_string(),
        properties_content.to_string(),
    ];
    let updated = version_manager
        .update_all_versions(&contents, &new_version)
        .unwrap();

    assert!(updated[0].contains("version = \"1.3.0\""));
    assert!(updated[1].contains("\"version\": \"1.3.0\""));
    assert!(updated[2].contains("version=1.3.0"));
}
