use git_repo_analyzer::analyzer::{AnalyzerService, PathEntry, RepoSnapshot};
use git_repo_analyzer::models::AnalyzeResponse;

fn snapshot(entries: &[(&str, bool)]) -> RepoSnapshot {
    RepoSnapshot {
        entries: entries
            .iter()
            .map(|(p, d)| PathEntry {
                path: p.to_string(),
                is_dir: *d,
                content: if *d { None } else { Some(String::new()) },
            })
            .collect(),
        package_json: None,
    }
}

fn response(technologies: &[&str], has_readme: bool, has_tests: bool, score: u8) -> AnalyzeResponse {
    AnalyzeResponse {
        repo_url: "https://github.com/u/r".to_string(),
        technologies: technologies.iter().map(|t| t.to_string()).collect(),
        dominant_language: None,
        directory_tree: Vec::new(),
        total_files: 0,
        total_lines: 0,
        dependency_count: 0,
        has_readme,
        has_tests,
        has_license: false,
        license_type: None,
        last_commit_days: None,
        contributors: 0,
        score,
        code_smells: Vec::new(),
        ai: None,
    }
}

#[test]
fn readme_and_tests_detection() {
    let a = AnalyzerService::new();
    let s = snapshot(&[("readme.md", false), ("tests", true)]);
    assert!(a.file_exists(&s, &["README.md", "readme.md", "README"]));
    assert!(a.has_tests(&s));
    let file_named_tests = snapshot(&[("tests", false)]);
    assert!(!a.has_tests(&file_named_tests));
    let jest = snapshot(&[("jest.config.js", false)]);
    assert!(a.has_tests(&jest));
    assert!(!a.file_exists(&jest, &["README.md", "readme.md", "README"]));
}

#[test]
fn extensions_follow_path_rules() {
    let a = AnalyzerService::new();
    assert!(a.has_extension(&snapshot(&[("main.rs", false)]), "rs"));
    assert!(!a.has_extension(&snapshot(&[(".rs", false)]), "rs"));
    assert!(a.has_extension(&snapshot(&[("a.tar.c", false)]), "c"));
    assert!(!a.has_extension(&snapshot(&[("src/main.rs", false)]), "rs"));
    assert!(a.has_extension(&snapshot(&[("weird.", false)]), ""));
}

#[test]
fn technologies_in_table_order_with_runs_merged() {
    let a = AnalyzerService::new();
    let s = snapshot(&[
        ("Cargo.toml", false),
        ("requirements.txt", false),
        ("pyproject.toml", false),
        ("main.rs", false),
        ("Dockerfile", false),
        (".github/workflows", true),
        ("ci.yml", false),
    ]);
    assert_eq!(
        a.detect_technologies(&s),
        vec!["Rust", "Python", "Rust", "Docker", "YAML/CI", "GitHub Actions"]
    );
    assert!(a.detect_technologies(&snapshot(&[])).is_empty());
}

#[test]
fn score_formula() {
    let a = AnalyzerService::new();
    let techs = vec!["Rust".to_string()];
    assert_eq!(a.calculate_score(true, true, &techs, Some(10)), 10);
    assert_eq!(a.calculate_score(true, true, &techs, None), 10);
    assert_eq!(a.calculate_score(false, false, &[], None), 5);
    assert_eq!(a.calculate_score(false, false, &[], Some(181)), 3);
    assert_eq!(a.calculate_score(false, false, &[], Some(366)), 2);
    assert_eq!(a.calculate_score(true, false, &techs, Some(180)), 8);
    assert_eq!(a.calculate_score(false, true, &[], Some(400)), 5);
}

#[test]
fn analyze_fills_report() {
    let a = AnalyzerService::new();
    let s = snapshot(&[("README.md", false), ("Cargo.toml", false), ("tests", true)]);
    let r = a.analyze(&s, "https://github.com/u/r", Some(23));
    assert_eq!(r.repo_url, "https://github.com/u/r");
    assert_eq!(r.technologies, vec!["Rust"]);
    assert!(r.has_readme);
    assert!(r.has_tests);
    assert_eq!(r.score, 10);
    assert_eq!(r.last_commit_days, Some(23));
    assert_eq!(r.contributors, 0);
    assert!(r.ai.is_none());
    assert!(r.code_smells.is_empty());
    assert!(!r.has_license);
    assert_eq!(r.license_type, None);
    assert_eq!(r.total_files, 2);
    assert_eq!(r.total_lines, 0);
    assert_eq!(r.dominant_language, None);
    assert_eq!(r.directory_tree, vec!["README.md", "Cargo.toml", "tests/"]);
}

#[test]
fn readme_choice() {
    let a = AnalyzerService::new();
    assert_eq!(a.readme_path(&snapshot(&[("README.txt", false), ("README", false)])), Some("README".to_string()));
    assert_eq!(a.readme_path(&snapshot(&[("README.txt", false)])), Some("README.txt".to_string()));
    assert_eq!(a.readme_path(&snapshot(&[("docs", true)])), None);
}

#[test]
fn context_without_readme() {
    let a = AnalyzerService::new();
    let ctx = a.build_ai_context(&response(&["Rust", "Docker"], true, false, 8), None);
    assert_eq!(
        ctx,
        "Repositorio: https://github.com/u/r\nTecnologías: Rust, Docker\nTiene README: true\nTiene tests: false\nScore de calidad: 8/10\n\nEste repositorio no tiene README."
    );
}

#[test]
fn context_with_long_readme() {
    let a = AnalyzerService::new();
    let readme: String = "ñ".repeat(2000);
    let ctx = a.build_ai_context(&response(&[], false, true, 10), Some(readme));
    let expected = format!(
        "Repositorio: https://github.com/u/r\nTecnologías: \nTiene README: false\nTiene tests: true\nScore de calidad: 10/10\n\nContenido del README:\n{}",
        "ñ".repeat(1500)
    );
    assert_eq!(ctx, expected);
}
