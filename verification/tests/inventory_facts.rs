use git_repo_analyzer::ai::Json;
use git_repo_analyzer::analyzer::{AnalyzerService, PathEntry, RepoSnapshot};
use git_repo_analyzer::inventory::{count_cargo_dependencies, count_requirements, license_kind_of};

fn dir(p: &str) -> PathEntry {
    PathEntry { path: p.to_string(), is_dir: true, content: None }
}

fn file(p: &str, text: &str) -> PathEntry {
    PathEntry { path: p.to_string(), is_dir: false, content: Some(text.to_string()) }
}

fn sample() -> RepoSnapshot {
    let big: String = "fn f() {}\n".repeat(450);
    RepoSnapshot {
        entries: vec![
            file("Cargo.toml", "[package]\nname = \"x\"\n\n[dependencies]\nserde = \"1\"\n# tokio = \"1\"\naxum = \"0.7\"\n\n[dev-dependencies]\nproptest = \"1\"\n"),
            file("LICENSE", "MIT License\n\nCopyright (c) 2024\n"),
            file("README.md", "# x\n"),
            dir("src"),
            file("src/main.rs", &big),
            file("src/util.py", "# TODO: port\nx = 1\n"),
            file(".env", "KEY=SECRET-REDACTED\n"),
            file("requirements.txt", "flask\n# comment\n\n-r base.txt\nrequests==2\n"),
        ],
        package_json: Some(Json::Object(vec![(
            "dependencies".to_string(),
            Json::Object(vec![
                ("react".to_string(), Json::Str("^18".to_string())),
                ("vite".to_string(), Json::Str("^5".to_string())),
            ]),
        )])),
    }
}

#[test]
fn report_fields() {
    let a = AnalyzerService::new();
    let r = a.analyze(&sample(), "https://github.com/u/x", None);
    assert!(r.has_license);
    assert_eq!(r.license_type, Some("MIT".to_string()));
    assert_eq!(r.dominant_language, Some("Rust".to_string()));
    assert_eq!(r.total_files, 7);
    assert_eq!(r.total_lines, 10 + 3 + 1 + 450 + 2 + 1 + 5);
    assert_eq!(r.dependency_count, 2 + 2 + 2);
    assert_eq!(
        r.directory_tree,
        vec!["Cargo.toml", "LICENSE", "README.md", "src/", "  main.rs", "  util.py", ".env", "requirements.txt"]
    );
    let smells: Vec<(String, String, String)> =
        r.code_smells.into_iter().map(|c| (c.kind, c.location, c.detail)).collect();
    assert_eq!(
        smells,
        vec![
            (
                "large_file".to_string(),
                "src/main.rs".to_string(),
                "Archivo con 450 líneas. Considerar dividirlo en módulos más pequeños.".to_string()
            ),
            (
                "todo".to_string(),
                "src/util.py".to_string(),
                "Contiene comentarios TODO o FIXME pendientes.".to_string()
            ),
            (
                "exposed_config".to_string(),
                ".env".to_string(),
                "Archivo de configuración sensible versionado. Considerar eliminarlo y añadirlo a .gitignore.".to_string()
            ),
        ]
    );
}

#[test]
fn no_licence_file() {
    let a = AnalyzerService::new();
    let s = RepoSnapshot { entries: vec![file("src.rs", "")], package_json: None };
    let r = a.analyze(&s, "u", None);
    assert!(!r.has_license);
    assert_eq!(r.license_type, None);
    assert_eq!(r.dominant_language, None);
    assert_eq!(r.dependency_count, 0);
}

#[test]
fn licence_kinds() {
    assert_eq!(license_kind_of("GNU LESSER GENERAL PUBLIC LICENSE\nVersion 3"), Some("LGPL".to_string()));
    assert_eq!(license_kind_of("Apache License\nVersion 2.0"), Some("Apache-2.0".to_string()));
    assert_eq!(license_kind_of("All rights reserved."), None);
}

#[test]
fn dependency_counting() {
    assert_eq!(count_cargo_dependencies("[dependencies]\na = 1\n[dependencies.b]\nversion = \"1\"\n"), 1);
    assert_eq!(count_cargo_dependencies(""), 0);
    assert_eq!(count_requirements("a\r\n b \n#c\n"), 2);
}

#[test]
fn language_tie_goes_to_table_order() {
    let a = AnalyzerService::new();
    let s = RepoSnapshot {
        entries: vec![file("a.py", "1\n2\n"), file("b.rs", "1\n2\n"), file("c.pem", "")],
        package_json: None,
    };
    let r = a.analyze(&s, "u", None);
    assert_eq!(r.dominant_language, Some("Rust".to_string()));
    assert_eq!(r.code_smells.len(), 1);
    assert_eq!(r.code_smells[0].kind, "exposed_config");
}
