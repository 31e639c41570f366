//! The decisions around `git`: which repository URLs are accepted, where a
//! clone goes, what a failed clone is reported as, and what the output of
//! `git log` and `git shortlog` means.

use vstd::prelude::*;
use vstd::string::StringExecFns;
use crate::text::{
    after_last, after_last_chars, before_last, before_last_chars, char_count, chars_contain,
    chars_start_with, contains, count_char, count_lines, decimal, lemma_decimal_digits,
    lemma_decimal_injective, lemma_digits_then_underscore, line_count, parse_u64, parse_u64_chars,
    push_chars, push_decimal, replace_all, replace_chars, starts_with, str_chars, strip_trailing,
    strip_trailing_chars, trim, trim_chars,
};

verus! {

broadcast use vstd::string::group_string_axioms;

/// Reported for an empty URL.
pub open spec fn empty_url_message() -> Seq<char> {
    "La URL no puede estar vacía."@
}

/// Reported for a URL outside GitHub.
pub open spec fn not_github_message() -> Seq<char> {
    "Solo se admiten URLs de GitHub (https://github.com/...)."@
}

/// Reported for a GitHub URL that names no repository.
pub open spec fn bad_format_message() -> Seq<char> {
    "URL inválida. Formato esperado: https://github.com/usuario/repositorio"@
}

/// What every accepted URL starts with.
pub open spec fn github_prefix() -> Seq<char> {
    "https://github.com/"@
}

/// How many pieces `url.trim_end_matches('/').split('/')` yields.
pub open spec fn path_piece_count(url: Seq<char>) -> nat {
    char_count(strip_trailing(url, seq!['/']), '/') + 1
}

/// Why `url` is refused, or `None` where it is accepted: it must not be
/// empty, must start with `https://github.com/`, and without its trailing
/// slashes must split at `'/'` into at least five pieces (scheme, empty,
/// host, owner, repository).
pub open spec fn url_problem(url: Seq<char>) -> Option<Seq<char>> {
    if url.len() == 0 {
        Some(empty_url_message())
    } else if !starts_with(url, github_prefix()) {
        Some(not_github_message())
    } else if path_piece_count(url) < 5 {
        Some(bad_format_message())
    } else {
        None
    }
}

/// The owner part of `url`: the path segment before the last one.
pub open spec fn owner_segment(url: Seq<char>) -> Seq<char> {
    after_last(before_last(url, '/'), '/')
}

/// The repository part of `url`: its last path segment, with every `.git`
/// in it removed.
pub open spec fn repo_segment(url: Seq<char>) -> Seq<char> {
    replace_all(after_last(url, '/'), ".git"@, Seq::empty())
}

/// The name of the directory that a clone of `url` goes to: `ghan_`, the
/// length of the owner in decimal, `_`, the owner, `_` and the repository.
/// The length keeps the name of each owner and repository pair apart.
pub open spec fn clone_dir_name(url: Seq<char>) -> Seq<char> {
    "ghan_"@ + decimal(owner_segment(url).len()) + "_"@ + owner_segment(url) + "_"@
        + repo_segment(url)
}

/// Two URLs whose owner and repository differ never share a clone directory,
/// so two repositories of the same name under different owners are cloned
/// apart.
pub proof fn lemma_clone_dirs_apart(u1: Seq<char>, u2: Seq<char>)
    requires
        owner_segment(u1) != owner_segment(u2) || repo_segment(u1) != repo_segment(u2),
    ensures
        clone_dir_name(u1) != clone_dir_name(u2),
{
    let o1 = owner_segment(u1);
    let o2 = owner_segment(u2);
    let r1 = repo_segment(u1);
    let r2 = repo_segment(u2);
    let d1 = decimal(o1.len());
    let d2 = decimal(o2.len());
    if clone_dir_name(u1) == clone_dir_name(u2) {
        reveal_strlit("_");
        let p = "ghan_"@;
        let t1 = o1 + seq!['_'] + r1;
        let t2 = o2 + seq!['_'] + r2;
        assert(clone_dir_name(u1) =~= p + (d1 + seq!['_'] + t1));
        assert(clone_dir_name(u2) =~= p + (d2 + seq!['_'] + t2));
        assert((p + (d1 + seq!['_'] + t1)).skip(p.len() as int) =~= d1 + seq!['_'] + t1);
        assert((p + (d2 + seq!['_'] + t2)).skip(p.len() as int) =~= d2 + seq!['_'] + t2);
        lemma_decimal_digits(o1.len());
        lemma_decimal_digits(o2.len());
        lemma_digits_then_underscore(d1, t1, d2, t2);
        lemma_decimal_injective(o1.len(), o2.len());
        assert(o1 =~= t1.take(o1.len() as int));
        assert(o2 =~= t2.take(o2.len() as int));
        assert(r1 =~= t1.skip(o1.len() as int + 1));
        assert(r2 =~= t2.skip(o2.len() as int + 1));
    }
}

/// Reported when git says that the repository does not exist.
pub open spec fn not_found_message() -> Seq<char> {
    "Repositorio no encontrado. Verifica que la URL sea correcta y que el repo sea público."@
}

/// Reported when git says that authentication failed.
pub open spec fn private_repo_message() -> Seq<char> {
    "El repositorio es privado. Solo se pueden analizar repositorios públicos."@
}

/// What a failed clone is reported as, given what git wrote to its error
/// stream.
pub open spec fn clone_failure(stderr: Seq<char>) -> Seq<char> {
    if contains(stderr, "not found"@) || contains(stderr, "does not exist"@) {
        not_found_message()
    } else if contains(stderr, "Authentication failed"@) {
        private_repo_message()
    } else {
        "No se pudo clonar el repositorio: "@ + stderr
    }
}

/// Every URL that is accepted is a non-empty `https://github.com/` address
/// with an owner and a repository after the host.
pub proof fn lemma_accepted_urls(url: Seq<char>)
    requires
        url_problem(url) is None,
    ensures
        url.len() > 0,
        starts_with(url, github_prefix()),
        path_piece_count(url) >= 5,
{
}

/// A URL is accepted exactly when it is not empty, starts with
/// `https://github.com/`, and, without its trailing slashes, splits at `'/'`
/// into at least five pieces; nothing else, such as a `.git` ending, makes
/// it refused.
pub proof fn lemma_url_accepted_iff(url: Seq<char>)
    ensures
        url_problem(url) is None <==> (url.len() > 0 && starts_with(url, "https://github.com/"@)
            && char_count(strip_trailing(url, seq!['/']), '/') + 1 >= 5),
{
}

/// Seconds in a day.
pub const SECONDS_PER_DAY: u64 = 86400;

/// Works out what happens around `git` for a repository.
pub struct GitService;

impl GitService {
    /// A service.
    pub fn new() -> (s: GitService)
        ensures
            s == GitService,
    {
        GitService
    }

    /// Accepts a public GitHub repository URL of the form
    /// `https://github.com/owner/repository`, and says why any other is refused.
    pub fn validate_url(&self, url: &str) -> (r: Result<(), String>)
        ensures
            r is Ok <==> url_problem(url@) is None,
            r is Ok <==> (url@.len() > 0 && starts_with(url@, "https://github.com/"@) && char_count(
                strip_trailing(url@, seq!['/']),
                '/',
            ) >= 4),
            r matches Err(e) ==> url_problem(url@) == Some(e@),
    {
        let cs = str_chars(url);
        if cs.len() == 0 {
            return Err("La URL no puede estar vacía.".to_owned());
        }
        let prefix = str_chars("https://github.com/");
        if !chars_start_with(&cs, &prefix) {
            return Err("Solo se admiten URLs de GitHub (https://github.com/...).".to_owned());
        }
        let slash = vec!['/'];
        assert(slash@ == seq!['/']);
        let trimmed = strip_trailing_chars(&cs, &slash);
        let slashes = count_char(&trimmed, '/');
        if slashes < 4 {
            return Err(
                "URL inválida. Formato esperado: https://github.com/usuario/repositorio".to_owned(),
            );
        }
        Ok(())
    }

    /// Accepts two repository URLs where both are accepted; otherwise says
    /// why the first refused one, taken in order, is refused.
    pub fn validate_pair(&self, repo_a: &str, repo_b: &str) -> (r: Result<(), String>)
        ensures
            r is Ok <==> url_problem(repo_a@) is None && url_problem(repo_b@) is None,
            r matches Err(e) ==> (if url_problem(repo_a@) is Some {
                url_problem(repo_a@) == Some(e@)
            } else {
                url_problem(repo_b@) == Some(e@)
            }),
    {
        self.validate_url(repo_a)?;
        self.validate_url(repo_b)
    }

    /// The name of the temporary directory that a clone of `repo_url` goes to.
    pub fn clone_dir_name(&self, repo_url: &str) -> (name: String)
        ensures
            name@ == clone_dir_name(repo_url@),
    {
        let cs = str_chars(repo_url);
        let last = after_last_chars(&cs, '/');
        let owner = after_last_chars(&before_last_chars(&cs, '/'), '/');
        let git = str_chars(".git");
        proof {
            reveal_strlit(".git");
        }
        let empty: Vec<char> = Vec::new();
        assert(empty@ == Seq::<char>::empty());
        let bare = replace_chars(&last, &git, &empty);
        let mut name = "ghan_".to_owned();
        push_decimal(&mut name, owner.len() as u64);
        name.append("_");
        push_chars(&mut name, &owner);
        name.append("_");
        push_chars(&mut name, &bare);
        name
    }

    /// What a failed `git clone` is reported as, given its error stream.
    pub fn clone_failure_message(&self, stderr: &str) -> (msg: String)
        ensures
            msg@ == clone_failure(stderr@),
    {
        let cs = str_chars(stderr);
        let not_found = str_chars("not found");
        let missing = str_chars("does not exist");
        let auth = str_chars("Authentication failed");
        if chars_contain(&cs, &not_found) || chars_contain(&cs, &missing) {
            "Repositorio no encontrado. Verifica que la URL sea correcta y que el repo sea público.".to_owned()
        } else if chars_contain(&cs, &auth) {
            "El repositorio es privado. Solo se pueden analizar repositorios públicos.".to_owned()
        } else {
            let mut msg = "No se pudo clonar el repositorio: ".to_owned();
            push_chars(&mut msg, &cs);
            msg
        }
    }

    /// The commit time that `git log -1 --format=%ct` printed: its output,
    /// trimmed, read as an unsigned number of seconds.
    pub fn commit_timestamp(&self, log_output: &str) -> (t: Option<u64>)
        ensures
            t == parse_u64(trim(log_output@)),
    {
        let cs = str_chars(log_output);
        let trimmed = trim_chars(&cs);
        parse_u64_chars(&trimmed)
    }

    /// Whole days from `timestamp` to `now`, both in seconds since the epoch.
    pub fn days_since(&self, timestamp: u64, now: u64) -> (days: u64)
        requires
            timestamp <= now,
        ensures
            days == (now - timestamp) / (SECONDS_PER_DAY as int),
    {
        (now - timestamp) / SECONDS_PER_DAY
    }

    /// The number of contributors that `git shortlog -sn --all` listed: its
    /// number of lines, as a `u32`.
    pub fn contributors_from_shortlog(&self, shortlog: &str) -> (n: u32)
        ensures
            n == line_count(shortlog@) as u32,
    {
        let cs = str_chars(shortlog);
        count_lines(&cs) as u32
    }
}

} // verus!
