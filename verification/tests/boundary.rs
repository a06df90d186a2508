use eternalist_foundry::error::{Error, ToolchainField};
use eternalist_foundry::manifest::{
    cargo_config_files, check_cargo_config, check_declaration, is_manifest, is_pruned, normalize,
    path_declarations, starts_with, PathComponent, TomlValue,
};
use eternalist_foundry::toolchain::{minimal, Toolchain, ToolchainFile};

fn text(s: &str) -> TomlValue {
    TomlValue::Text(s.to_owned())
}

fn table(entries: Vec<(&str, TomlValue)>) -> TomlValue {
    TomlValue::Table(entries.into_iter().map(|(k, v)| (k.to_owned(), v)).collect())
}

fn normal(s: &str) -> PathComponent {
    PathComponent::Normal(s.to_owned())
}

fn components(path: &str) -> Vec<PathComponent> {
    let mut out = Vec::new();
    if path.starts_with('/') {
        out.push(PathComponent::RootDir);
    }
    for part in path.split('/').filter(|p| !p.is_empty()) {
        out.push(match part {
            "." => PathComponent::CurDir,
            ".." => PathComponent::ParentDir,
            other => normal(other),
        });
    }
    out
}

#[test]
fn exact_toolchain_contract_parses() {
    let file = ToolchainFile {
        toolchain: Toolchain {
            channel: "1.97.1".to_owned(),
            profile: "minimal".to_owned(),
            components: vec!["clippy".to_owned()],
            targets: Vec::new(),
        },
    };
    file.validate().expect("validate toolchain");
    assert_eq!(file.toolchain.channel, "1.97.1");
}

#[test]
fn toolchain_commands_carry_the_declaration() {
    let file = ToolchainFile {
        toolchain: Toolchain {
            channel: "1.97.1".to_owned(),
            profile: minimal(),
            components: vec!["clippy".to_owned(), "rustfmt".to_owned()],
            targets: vec!["wasm32-unknown-unknown".to_owned()],
        },
    };
    assert_eq!(
        file.install_command(),
        ["rustup", "toolchain", "install", "1.97.1", "--profile", "minimal", "--component", "clippy,rustfmt"]
    );
    assert_eq!(
        file.target_command().expect("targets"),
        ["rustup", "target", "add", "--toolchain", "1.97.1", "wasm32-unknown-unknown"]
    );
}

#[test]
fn toolchain_defects_are_named() {
    let mut file = ToolchainFile {
        toolchain: Toolchain {
            channel: " ".to_owned(),
            profile: minimal(),
            components: Vec::new(),
            targets: Vec::new(),
        },
    };
    assert!(matches!(file.validate(), Err(Error::EmptyToolchainField(ToolchainField::Channel))));
    file.toolchain.channel = "stable".to_owned();
    file.toolchain.profile = String::new();
    assert!(matches!(file.validate(), Err(Error::EmptyToolchainField(ToolchainField::Profile))));
    file.toolchain.profile = minimal();
    file.toolchain.targets = vec![String::new()];
    assert!(matches!(file.validate(), Err(Error::EmptyToolchainEntry)));
    file.toolchain.targets = Vec::new();
    assert_eq!(file.target_command(), None);
    assert_eq!(file.install_command().len(), 6);
}

#[test]
fn repository_boundary_admits_internal_paths_and_severs_external_ones() {
    let root = components("/repo");
    let inside = table(vec![
        ("package", table(vec![("name", text("specimen"))])),
        ("dependencies", table(vec![("inside", table(vec![("path", text("inside"))]))])),
    ]);
    let declarations = path_declarations(&inside);
    assert_eq!(declarations.len(), 1);
    let resolved = normalize(&components("/repo/./inside"));
    check_declaration("Cargo.toml", &declarations[0], &root, &resolved).expect("admit repository-owned dependency");

    let outside = table(vec![
        ("package", table(vec![("name", text("specimen"))])),
        ("dependencies", table(vec![("outside", table(vec![("path", text("../outside"))]))])),
    ]);
    let declarations = path_declarations(&outside);
    let resolved = normalize(&components("/repo/../outside"));
    let error = check_declaration("Cargo.toml", &declarations[0], &root, &resolved)
        .expect_err("sever external dependency");
    assert!(matches!(error, Error::ExternalPathDependency(m, t, n, p)
        if m == "Cargo.toml" && t == "dependencies" && n == "outside" && p == "../outside"));
}

#[test]
fn every_dependency_table_is_inspected_in_order() {
    let dep = |p: &str| table(vec![("path", text(p)), ("version", text("1"))]);
    let document = table(vec![
        ("dev-dependencies", table(vec![("b", dep("b"))])),
        ("dependencies", table(vec![("a", dep("a")), ("registry", text("1.0"))])),
        ("workspace", table(vec![("dependencies", table(vec![("w", dep("w"))]))])),
        ("target", table(vec![("cfg(unix)", table(vec![("build-dependencies", table(vec![("t", dep("t"))]))]))])),
        ("patch", table(vec![("crates-io", table(vec![("p", dep("p"))]))])),
        ("replace", table(vec![("r", dep("r"))])),
    ]);
    let found: Vec<(String, String, String)> = path_declarations(&document)
        .into_iter()
        .map(|d| (d.table, d.name, d.path))
        .collect();
    let expected = [
        ("dependencies", "a", "a"),
        ("dev-dependencies", "b", "b"),
        ("dependencies", "w", "w"),
        ("build-dependencies", "t", "t"),
        ("patch.crates-io", "p", "p"),
        ("replace", "r", "r"),
    ];
    assert_eq!(found.len(), expected.len());
    for (f, e) in found.iter().zip(expected.iter()) {
        assert_eq!((f.0.as_str(), f.1.as_str(), f.2.as_str()), *e);
    }
    assert!(path_declarations(&text("not a table")).is_empty());
}

#[test]
fn lexical_normalization_stops_at_the_root() {
    let n = normalize(&components("/a/b/../../../c/./d"));
    assert!(starts_with(&n, &components("/c")));
    assert_eq!(n.len(), 3);
    assert!(!starts_with(&components("/repository"), &components("/repo")));
    assert!(starts_with(&components("/repo"), &components("/repo")));
}

#[test]
fn cargo_paths_overrides_are_refused() {
    let config = table(vec![("paths", TomlValue::Array(vec![text("../vendored")]))]);
    assert!(matches!(check_cargo_config(".cargo/config.toml", &config), Err(Error::CargoPathsOverride(f)) if f == ".cargo/config.toml"));
    let empty = table(vec![("paths", TomlValue::Array(Vec::new()))]);
    check_cargo_config(".cargo/config", &empty).expect("empty paths");
    check_cargo_config(".cargo/config", &TomlValue::Other).expect("no table");
}

#[test]
fn the_walk_skips_build_and_version_control_directories() {
    assert!(is_pruned(".git"));
    assert!(is_pruned(".worktrees"));
    assert!(is_pruned("target"));
    assert!(!is_pruned("src"));
    assert!(is_manifest("Cargo.toml"));
    assert!(!is_manifest("cargo.toml"));
    assert_eq!(cargo_config_files(), [".cargo/config.toml", ".cargo/config"]);
}
