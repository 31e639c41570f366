use git_repo_analyzer::ai::{
    analysis_is_valid, analysis_text, build_comparison_context, build_prompt, comparison_is_valid,
    request_body, request_url, reply_text, unfence, Json,
};
use git_repo_analyzer::models::{AiAnalysis, AiComparison};

fn s(x: &str) -> String {
    x.to_string()
}

fn reply(text: Json) -> Json {
    Json::Object(vec![(
        s("candidates"),
        Json::Array(vec![Json::Object(vec![(
            s("content"),
            Json::Object(vec![
                (s("role"), Json::Str(s("model"))),
                (s("parts"), Json::Array(vec![Json::Object(vec![(s("text"), text)])])),
            ]),
        )])]),
    )])
}

#[test]
fn prompt_fills_every_hole() {
    assert_eq!(build_prompt("Analiza: {} y {}", "ctx"), "Analiza: ctx y ctx");
    assert_eq!(build_prompt("sin huecos", "ctx"), "sin huecos");
}

#[test]
fn body_escapes_prompt() {
    assert_eq!(
        request_body("di \"hola\"\n"),
        "{\"contents\":[{\"parts\":[{\"text\":\"di \\\"hola\\\"\\n\"}]}]}"
    );
}

#[test]
fn url_carries_key() {
    assert_eq!(
        request_url("abc"),
        "https://generativelanguage.googleapis.com/v1beta/models/gemini-2.5-flash-lite:generateContent?key=abc"
    );
}

#[test]
fn reply_text_at_path() {
    assert_eq!(reply_text(&reply(Json::Str(s("  {\"a\":1}\n")))), "{\"a\":1}");
    assert_eq!(reply_text(&reply(Json::Number(s("3")))), "");
    assert_eq!(reply_text(&Json::Null), "");
    assert_eq!(reply_text(&Json::Object(vec![(s("candidates"), Json::Array(vec![]))])), "");
}

#[test]
fn fences_are_removed() {
    assert_eq!(unfence("```json\n{\"summary\":\"x\"}\n```"), "{\"summary\":\"x\"}");
    assert_eq!(unfence("```\n[1]\n```"), "[1]");
    assert_eq!(unfence("{}"), "{}");
    assert_eq!(
        analysis_text(&reply(Json::Str(s("```json {\"k\":true} ```")))),
        "{\"k\":true}"
    );
}

#[test]
fn body_escapes_control_characters() {
    assert_eq!(
        request_body("a\u{1}\t\u{8}\u{c}\r\\ñ\u{7f}"),
        "{\"contents\":[{\"parts\":[{\"text\":\"a\\u0001\\t\\b\\f\\r\\\\ñ\u{7f}\"}]}]}"
    );
    assert_eq!(
        request_body("\u{1f}"),
        "{\"contents\":[{\"parts\":[{\"text\":\"\\u001f\"}]}]}"
    );
}

#[test]
fn comparison_context_names_both() {
    assert_eq!(build_comparison_context("uno", "dos"), "Repositorio A:\nuno\n\nRepositorio B:\ndos");
}

fn analysis(complexity: &str, category: &str, difficulty: &str) -> AiAnalysis {
    AiAnalysis {
        summary: s("x"),
        complexity: s(complexity),
        category: s(category),
        difficulty: s(difficulty),
        suggestions: vec![],
    }
}

#[test]
fn documented_values_only() {
    assert!(analysis_is_valid(&analysis("high", "tool", "advanced")));
    assert!(analysis_is_valid(&analysis("low", "web-app", "beginner")));
    assert!(!analysis_is_valid(&analysis("huge", "tool", "advanced")));
    assert!(!analysis_is_valid(&analysis("low", "toy", "advanced")));
    assert!(!analysis_is_valid(&analysis("low", "tool", "expert")));
    let cmp = |v: &str| AiComparison {
        verdict: s(v),
        reason: s(""),
        repo_a_strengths: vec![],
        repo_b_strengths: vec![],
        recommendation: s(""),
    };
    assert!(comparison_is_valid(&cmp("repo_a")));
    assert!(comparison_is_valid(&cmp("tie")));
    assert!(!comparison_is_valid(&cmp("both")));
}
