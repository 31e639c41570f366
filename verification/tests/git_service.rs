use git_repo_analyzer::git::GitService;

#[test]
fn accepts_owner_and_repository() {
    let git = GitService::new();
    assert_eq!(git.validate_url("https://github.com/usuario/repositorio"), Ok(()));
    assert_eq!(git.validate_url("https://github.com/usuario/repositorio/"), Ok(()));
    assert_eq!(git.validate_url("https://github.com/a/b/tree/main"), Ok(()));
}

#[test]
fn refuses_empty_url() {
    let git = GitService::new();
    assert_eq!(git.validate_url(""), Err("La URL no puede estar vacía.".to_string()));
}

#[test]
fn refuses_other_hosts() {
    let git = GitService::new();
    let expected = Err("Solo se admiten URLs de GitHub (https://github.com/...).".to_string());
    assert_eq!(git.validate_url("https://gitlab.com/a/b"), expected);
    assert_eq!(git.validate_url("http://github.com/a/b"), expected);
    assert_eq!(git.validate_url("https://github.com"), expected);
}

#[test]
fn refuses_url_without_repository() {
    let git = GitService::new();
    let expected =
        Err("URL inválida. Formato esperado: https://github.com/usuario/repositorio".to_string());
    assert_eq!(git.validate_url("https://github.com/"), expected);
    assert_eq!(git.validate_url("https://github.com/usuario"), expected);
    assert_eq!(git.validate_url("https://github.com/usuario///"), expected);
}

#[test]
fn pair_reports_first_refusal() {
    let git = GitService::new();
    assert_eq!(git.validate_pair("https://github.com/a/b", "https://github.com/c/d"), Ok(()));
    assert_eq!(
        git.validate_pair("", "https://gitlab.com/x/y"),
        Err("La URL no puede estar vacía.".to_string())
    );
    assert_eq!(
        git.validate_pair("https://github.com/a/b", "https://gitlab.com/x/y"),
        Err("Solo se admiten URLs de GitHub (https://github.com/...).".to_string())
    );
}

#[test]
fn clone_directory_name() {
    let git = GitService::new();
    assert_eq!(git.clone_dir_name("https://github.com/user/repo"), "ghan_4_user_repo");
    assert_eq!(git.clone_dir_name("https://github.com/user/repo.git"), "ghan_4_user_repo");
    assert_eq!(git.clone_dir_name("https://github.com/user/"), "ghan_4_user_");
    assert_eq!(git.clone_dir_name("my.git.tool.git"), "ghan_0__my.tool");
    assert_eq!(git.clone_dir_name("https://github.com/a_b/c"), "ghan_3_a_b_c");
    assert_eq!(git.clone_dir_name("https://github.com/a/b_c"), "ghan_1_a_b_c");
}

#[test]
fn clone_failures() {
    let git = GitService::new();
    assert_eq!(
        git.clone_failure_message("fatal: repository 'x' not found"),
        "Repositorio no encontrado. Verifica que la URL sea correcta y que el repo sea público."
    );
    assert_eq!(
        git.clone_failure_message("remote: path does not exist"),
        "Repositorio no encontrado. Verifica que la URL sea correcta y que el repo sea público."
    );
    assert_eq!(
        git.clone_failure_message("fatal: Authentication failed for 'x'"),
        "El repositorio es privado. Solo se pueden analizar repositorios públicos."
    );
    assert_eq!(
        git.clone_failure_message("fatal: unable to access"),
        "No se pudo clonar el repositorio: fatal: unable to access"
    );
}

#[test]
fn commit_timestamps() {
    let git = GitService::new();
    assert_eq!(git.commit_timestamp("1725029869\n"), Some(1725029869));
    assert_eq!(git.commit_timestamp("  +42 \r\n"), Some(42));
    assert_eq!(git.commit_timestamp("18446744073709551615"), Some(u64::MAX));
    assert_eq!(git.commit_timestamp("18446744073709551616"), None);
    assert_eq!(git.commit_timestamp(""), None);
    assert_eq!(git.commit_timestamp("+"), None);
    assert_eq!(git.commit_timestamp("-5"), None);
    assert_eq!(git.commit_timestamp("12a"), None);
}

#[test]
fn days_between_commit_and_now() {
    let git = GitService::new();
    assert_eq!(git.days_since(0, 86399), 0);
    assert_eq!(git.days_since(0, 86400), 1);
    assert_eq!(git.days_since(1_000, 1_000 + 23 * 86400 + 5), 23);
}

#[test]
fn contributors_are_lines() {
    let git = GitService::new();
    assert_eq!(git.contributors_from_shortlog(""), 0);
    assert_eq!(git.contributors_from_shortlog("    10\tAna\n"), 1);
    assert_eq!(git.contributors_from_shortlog("    10\tAna\n     3\tLuis\n     1\tEva"), 3);
    assert_eq!(git.contributors_from_shortlog("a\r\nb\r\n"), 2);
    assert_eq!(git.contributors_from_shortlog("\n\n"), 2);
}

#[test]
fn same_name_under_different_owners() {
    let git = GitService::new();
    assert_ne!(
        git.clone_dir_name("https://github.com/u1/x"),
        git.clone_dir_name("https://github.com/u2/x")
    );
}
