//! What is sent to the language model and what is read back from its reply.
//! The HTTP exchange itself, and the decoding of the cleaned reply into an
//! analysis, happen at the edge of the program.

use vstd::prelude::*;
use vstd::string::StringExecFns;
use crate::models::{AiAnalysis, AiComparison};
use crate::text::{
    digit_char,
    replace_all, replace_chars, str_chars, string_from_chars, strip_leading,
    strip_leading_chars, strip_trailing, strip_trailing_chars, trim, trim_chars,
};

verus! {

broadcast use vstd::string::group_string_axioms;

/// A JSON value as the model service sends it. Object members keep the order
/// in which they were read; a decoded object holds each key once.
pub enum Json {
    Null,
    Bool(bool),
    Number(String),
    Str(String),
    Array(Vec<Json>),
    Object(Vec<(String, Json)>),
}

/// The value of the first member of `fields` named `key`.
pub open spec fn member(fields: Seq<(String, Json)>, key: Seq<char>) -> Option<Json>
    decreases fields.len(),
{
    if fields.len() == 0 {
        None
    } else if fields[0].0@ == key {
        Some(fields[0].1)
    } else {
        member(fields.drop_first(), key)
    }
}

/// `value[key]`: the member `key` of an object; nothing for anything else.
pub open spec fn get_key(value: Option<Json>, key: Seq<char>) -> Option<Json> {
    match value {
        Some(Json::Object(fields)) => member(fields@, key),
        _ => None,
    }
}

/// `value[index]`: the item `index` of an array; nothing for anything else.
pub open spec fn get_index(value: Option<Json>, index: int) -> Option<Json> {
    match value {
        Some(Json::Array(items)) => if 0 <= index < items@.len() {
            Some(items@[index])
        } else {
            None
        },
        _ => None,
    }
}

/// The text of a JSON string; empty for anything else.
pub open spec fn str_or_empty(value: Option<Json>) -> Seq<char> {
    match value {
        Some(Json::Str(s)) => s@,
        _ => Seq::empty(),
    }
}

/// The text that the model answered: `candidates[0].content.parts[0].text`
/// of its reply, empty where that is not a string, trimmed.
pub open spec fn answer_text(reply: Json) -> Seq<char> {
    let candidate = get_index(get_key(Some(reply), "candidates"@), 0);
    let part = get_index(get_key(get_key(candidate, "content"@), "parts"@), 0);
    trim(str_or_empty(get_key(part, "text"@)))
}

/// The reply text without the Markdown fence around it: every leading
/// `` ```json ``, then every leading and trailing `` ``` ``, removed, then
/// trimmed.
pub open spec fn unfenced(raw: Seq<char>) -> Seq<char> {
    trim(strip_trailing(strip_leading(strip_leading(raw, "```json"@), "```"@), "```"@))
}

/// The prompt: the template with each `{}` replaced by the context.
pub open spec fn prompt(template: Seq<char>, context: Seq<char>) -> Seq<char> {
    replace_all(template, "{}"@, context)
}

/// A hexadecimal digit, in lower case, for `d` below sixteen.
pub open spec fn hex_digit(d: nat) -> char {
    if d < 10 {
        digit_char(d)
    } else if d == 10 {
        'a'
    } else if d == 11 {
        'b'
    } else if d == 12 {
        'c'
    } else if d == 13 {
        'd'
    } else if d == 14 {
        'e'
    } else {
        'f'
    }
}

/// How `serde_json` writes the character `c` inside a JSON string: a quote,
/// a backslash and the control characters backspace, tab, line feed, form
/// feed and carriage return get their two-character escapes; every other
/// character below U+0020 becomes `\u00` and two lower-case hex digits; any
/// other character is written as it is.
pub open spec fn json_escape(c: char) -> Seq<char> {
    let u = c as u32;
    if c == '"' {
        seq!['\\', '"']
    } else if c == '\\' {
        seq!['\\', '\\']
    } else if u == 0x08 {
        seq!['\\', 'b']
    } else if u == 0x09 {
        seq!['\\', 't']
    } else if u == 0x0a {
        seq!['\\', 'n']
    } else if u == 0x0c {
        seq!['\\', 'f']
    } else if u == 0x0d {
        seq!['\\', 'r']
    } else if u < 0x20 {
        seq!['\\', 'u', '0', '0', hex_digit((u / 16) as nat), hex_digit((u % 16) as nat)]
    } else {
        seq![c]
    }
}

/// The characters of `s`, each escaped as in a JSON string.
pub open spec fn json_escaped(s: Seq<char>) -> Seq<char>
    decreases s.len(),
{
    if s.len() == 0 {
        Seq::empty()
    } else {
        json_escaped(s.drop_last()) + json_escape(s.last())
    }
}

/// The JSON string literal for `s`, as `serde_json::to_string` writes it:
/// `s` escaped, between double quotes.
pub open spec fn json_string_literal(s: Seq<char>) -> Seq<char> {
    seq!['"'] + json_escaped(s) + seq!['"']
}

/// The request body that asks the model about `prompt`:
/// `{"contents":[{"parts":[{"text":<prompt as a JSON string>}]}]}`.
pub open spec fn body_for(prompt: Seq<char>) -> Seq<char> {
    "{\"contents\":[{\"parts\":[{\"text\":"@ + json_string_literal(prompt) + "}]}]}"@
}

/// The address of the model, without the key.
pub open spec fn model_endpoint() -> Seq<char> {
    "https://generativelanguage.googleapis.com/v1beta/models/gemini-2.5-flash-lite:generateContent"@
}

/// The address that a request goes to: the model's address with the key.
pub open spec fn url_for(api_key: Seq<char>) -> Seq<char> {
    model_endpoint() + "?key="@ + api_key
}

/// The context for comparing two repositories: each described after a
/// heading that names it.
pub open spec fn comparison_context(context_a: Seq<char>, context_b: Seq<char>) -> Seq<char> {
    "Repositorio A:\n"@ + context_a + "\n\nRepositorio B:\n"@ + context_b
}

/// Whether `v` is one of the complexities that the analysis may give.
pub open spec fn valid_complexity(v: Seq<char>) -> bool {
    v == "low"@ || v == "medium"@ || v == "high"@
}

/// Whether `v` is one of the categories that the analysis may give.
pub open spec fn valid_category(v: Seq<char>) -> bool {
    ||| v == "cli"@
    ||| v == "api"@
    ||| v == "library"@
    ||| v == "web-app"@
    ||| v == "game"@
    ||| v == "tool"@
    ||| v == "other"@
}

/// Whether `v` is one of the difficulties that the analysis may give.
pub open spec fn valid_difficulty(v: Seq<char>) -> bool {
    v == "beginner"@ || v == "intermediate"@ || v == "advanced"@
}

/// Whether `v` is one of the verdicts that a comparison may give.
pub open spec fn valid_verdict(v: Seq<char>) -> bool {
    v == "repo_a"@ || v == "repo_b"@ || v == "tie"@
}

/// Whether an analysis uses only the documented complexity, category and
/// difficulty values.
pub open spec fn analysis_valid(a: AiAnalysis) -> bool {
    valid_complexity(a.complexity@) && valid_category(a.category@) && valid_difficulty(
        a.difficulty@,
    )
}

/// A comparison is kept exactly when its verdict is one of the three that
/// the service documents: `repo_a`, `repo_b` or `tie`. In particular each of
/// the three is kept.
pub proof fn lemma_documented_verdicts(v: Seq<char>)
    ensures
        valid_verdict(v) <==> (v == "repo_a"@ || v == "repo_b"@ || v == "tie"@),
        valid_verdict("repo_a"@),
        valid_verdict("repo_b"@),
        valid_verdict("tie"@),
{
}

/// An analysis is kept exactly when its complexity, category and difficulty
/// are among the documented values; every combination of documented values
/// is kept.
pub proof fn lemma_documented_analysis_values(a: AiAnalysis)
    ensures
        analysis_valid(a) <==> {
            &&& (a.complexity@ == "low"@ || a.complexity@ == "medium"@ || a.complexity@ == "high"@)
            &&& (a.category@ == "cli"@ || a.category@ == "api"@ || a.category@ == "library"@
                || a.category@ == "web-app"@ || a.category@ == "game"@ || a.category@ == "tool"@
                || a.category@ == "other"@)
            &&& (a.difficulty@ == "beginner"@ || a.difficulty@ == "intermediate"@
                || a.difficulty@ == "advanced"@)
        },
{
}

#[verifier::external_type_specification]
#[verifier::external_body]
pub struct ExJsonError(serde_json::Error);

/// `serde_json::to_string` on a string slice. Claimed: it succeeds (the
/// writer is a `Vec`, which never fails, and a string is serialized without
/// any other error), and it writes the JSON string literal of the text, with
/// the escapes of `json_escape`.
#[verifier::external_body]
fn serde_json_to_string(s: &str) -> (r: Result<String, serde_json::Error>)
    ensures
        r is Ok,
        r matches Ok(t) ==> t@ == json_string_literal(s@),
{
    serde_json::to_string(s)
}

/// The member `key` of `value`, where `value` is an object that has one.
pub fn json_get_key<'a>(value: &'a Json, key: &str) -> (r: Option<&'a Json>)
    ensures
        match r {
            Some(v) => get_key(Some(*value), key@) == Some(*v),
            None => get_key(Some(*value), key@) is None,
        },
{
    match value {
        Json::Object(fields) => {
            let wanted = key.to_owned();
            let n = fields.len();
            assert(fields@.skip(0) == fields@);
            assert(get_key(Some(*value), key@) == member(fields@, key@));
            for i in 0..n
                invariant
                    get_key(Some(*value), key@) == member(fields@, key@),
                    n == fields@.len(),
                    wanted@ == key@,
                    forall|j: int| 0 <= j < i ==> (#[trigger] fields@[j]).0@ != key@,
                    member(fields@, key@) == member(fields@.skip(i as int), key@),
            {
                assert(fields@.skip(i as int).drop_first() == fields@.skip(i + 1));
                assert(fields@.skip(i as int)[0] == fields@[i as int]);
                if fields[i].0 == wanted {
                    assert(fields@[i as int].0@ == key@);
                    assert(member(fields@.skip(i as int), key@) == Some(fields@[i as int].1));
                    return Some(&fields[i].1);
                }
            }
            None
        },
        _ => None,
    }
}

/// The item `index` of `value`, where `value` is an array that long.
pub fn json_get_index<'a>(value: &'a Json, index: usize) -> (r: Option<&'a Json>)
    ensures
        match r {
            Some(v) => get_index(Some(*value), index as int) == Some(*v),
            None => get_index(Some(*value), index as int) is None,
        },
{
    match value {
        Json::Array(items) => if index < items.len() {
            Some(&items[index])
        } else {
            None
        },
        _ => None,
    }
}

/// The text that the model answered in `reply`, trimmed.
pub fn reply_text(reply: &Json) -> (text: String)
    ensures
        text@ == answer_text(*reply),
{
    let mut text_value: Option<&Json> = None;
    if let Some(candidates) = json_get_key(reply, "candidates") {
        if let Some(candidate) = json_get_index(candidates, 0) {
            if let Some(content) = json_get_key(candidate, "content") {
                if let Some(parts) = json_get_key(content, "parts") {
                    if let Some(part) = json_get_index(parts, 0) {
                        text_value = json_get_key(part, "text");
                    }
                }
            }
        }
    }
    let ghost spec_value = {
        let candidate = get_index(get_key(Some(*reply), "candidates"@), 0);
        let part = get_index(get_key(get_key(candidate, "content"@), "parts"@), 0);
        get_key(part, "text"@)
    };
    assert(match text_value {
        Some(v) => spec_value == Some(*v),
        None => spec_value is None,
    });
    let raw: Vec<char> = match text_value {
        Some(Json::Str(s)) => str_chars(s.as_str()),
        _ => Vec::new(),
    };
    assert(raw@ == str_or_empty(spec_value));
    string_from_chars(&trim_chars(&raw))
}

/// The reply text without its Markdown fence.
pub fn unfence(raw: &str) -> (clean: String)
    ensures
        clean@ == unfenced(raw@),
{
    let cs = str_chars(raw);
    let json_fence = str_chars("```json");
    let fence = str_chars("```");
    let a = strip_leading_chars(&cs, &json_fence);
    let b = strip_leading_chars(&a, &fence);
    let c = strip_trailing_chars(&b, &fence);
    string_from_chars(&trim_chars(&c))
}

/// What the model's analysis is read from: the reply text without its fence.
pub fn analysis_text(reply: &Json) -> (clean: String)
    ensures
        clean@ == unfenced(answer_text(*reply)),
{
    let text = reply_text(reply);
    unfence(text.as_str())
}

/// The prompt: `template` with each `{}` replaced by `context`.
pub fn build_prompt(template: &str, context: &str) -> (p: String)
    ensures
        p@ == prompt(template@, context@),
{
    let t = str_chars(template);
    let hole = str_chars("{}");
    proof {
        reveal_strlit("{}");
    }
    let c = str_chars(context);
    string_from_chars(&replace_chars(&t, &hole, &c))
}

/// The request body that asks the model about `prompt`.
pub fn request_body(prompt: &str) -> (body: String)
    ensures
        body@ == body_for(prompt@),
{
    match serde_json_to_string(prompt) {
        Ok(lit) => {
            let mut body = "{\"contents\":[{\"parts\":[{\"text\":".to_owned();
            body.append(lit.as_str());
            body.append("}]}]}");
            body
        },
        Err(_) => {
            proof {
                assert(false);
            }
            String::new()
        },
    }
}

/// The address that a request with `api_key` goes to.
pub fn request_url(api_key: &str) -> (url: String)
    ensures
        url@ == url_for(api_key@),
{
    let mut url =
        "https://generativelanguage.googleapis.com/v1beta/models/gemini-2.5-flash-lite:generateContent".to_owned();
    url.append("?key=");
    url.append(api_key);
    url
}


/// The context for comparing the repositories described by `context_a` and
/// `context_b`.
pub fn build_comparison_context(context_a: &str, context_b: &str) -> (ctx: String)
    ensures
        ctx@ == comparison_context(context_a@, context_b@),
{
    let mut ctx = "Repositorio A:\n".to_owned();
    ctx.append(context_a);
    ctx.append("\n\nRepositorio B:\n");
    ctx.append(context_b);
    ctx
}

/// Whether the analysis `a` uses only the documented values of complexity
/// (`low`, `medium`, `high`), category (`cli`, `api`, `library`, `web-app`,
/// `game`, `tool`, `other`) and difficulty (`beginner`, `intermediate`,
/// `advanced`).
pub fn analysis_is_valid(a: &AiAnalysis) -> (r: bool)
    ensures
        r == analysis_valid(*a),
        r <==> {
            &&& (a.complexity@ == "low"@ || a.complexity@ == "medium"@ || a.complexity@ == "high"@)
            &&& (a.category@ == "cli"@ || a.category@ == "api"@ || a.category@ == "library"@
                || a.category@ == "web-app"@ || a.category@ == "game"@ || a.category@ == "tool"@
                || a.category@ == "other"@)
            &&& (a.difficulty@ == "beginner"@ || a.difficulty@ == "intermediate"@
                || a.difficulty@ == "advanced"@)
        },
{
    let c = &a.complexity;
    let complexity_ok = *c == "low".to_owned() || *c == "medium".to_owned() || *c
        == "high".to_owned();
    let k = &a.category;
    let category_ok = *k == "cli".to_owned() || *k == "api".to_owned() || *k
        == "library".to_owned() || *k == "web-app".to_owned() || *k == "game".to_owned() || *k
        == "tool".to_owned() || *k == "other".to_owned();
    let d = &a.difficulty;
    let difficulty_ok = *d == "beginner".to_owned() || *d == "intermediate".to_owned() || *d
        == "advanced".to_owned();
    complexity_ok && category_ok && difficulty_ok
}

/// Whether the comparison `c` gives one of the documented verdicts
/// (`repo_a`, `repo_b`, `tie`).
pub fn comparison_is_valid(c: &AiComparison) -> (r: bool)
    ensures
        r == valid_verdict(c.verdict@),
        r <==> (c.verdict@ == "repo_a"@ || c.verdict@ == "repo_b"@ || c.verdict@ == "tie"@),
{
    let v = &c.verdict;
    *v == "repo_a".to_owned() || *v == "repo_b".to_owned() || *v == "tie".to_owned()
}

} // verus!
