//! What is read off a cloned repository: README, tests, technologies, the
//! quality score, and the text handed to the language model.

use vstd::prelude::*;
use vstd::string::StringExecFns;
use crate::ai::Json;
use crate::inventory::{
    count_files_and_lines, dependency_total, dependency_total_of, directory_tree,
    directory_tree_of, dominant_language, dominant_language_of, file_count, license_file,
    license_file_of, license_type, license_type_of, line_total, saturate_u32, smell_views, smells,
    smells_of, to_u32_saturating,
};
use crate::models::AnalyzeResponse;
use crate::text::{
    after_last, after_last_chars, char_count, chars_contain, chars_equal, chars_start_with,
    contains, count_char, decimal, first_chars, first_chars_of, join, push_chars, push_decimal,
    push_joined, replace_all, replace_chars, starts_with, str_chars, string_from_chars,
    string_views,
};

verus! {

broadcast use vstd::string::group_string_axioms;

/// A path relative to the root of a repository, with `'/'` between its
/// components, whether it is a directory, and the text of a file: none for a
/// directory or a file that is not readable as UTF-8 text.
pub struct PathEntry {
    pub path: String,
    pub is_dir: bool,
    pub content: Option<String>,
}

/// What the analysis reads of a repository: every file and directory of it
/// but the `.git` directory, each directory before what it holds, and the
/// root `package.json` decoded as JSON, where there is one that decodes.
pub struct RepoSnapshot {
    pub entries: Vec<PathEntry>,
    pub package_json: Option<Json>,
}

/// Whether `path` exists in the repository.
pub open spec fn path_exists(snap: RepoSnapshot, path: Seq<char>) -> bool {
    exists|i: int| 0 <= i < snap.entries@.len() && (#[trigger] snap.entries@[i]).path@ == path
}

/// Whether `path` is a directory of the repository.
pub open spec fn dir_exists(snap: RepoSnapshot, path: Seq<char>) -> bool {
    exists|i: int|
        0 <= i < snap.entries@.len() && (#[trigger] snap.entries@[i]).path@ == path
            && snap.entries@[i].is_dir
}

/// Whether `path` is an entry of the root directory.
pub open spec fn is_root_entry(path: Seq<char>) -> bool {
    char_count(path, '/') == 0
}

/// The extension of the file name `name`, as `Path::extension` finds it: what
/// follows the last `'.'`, where there is one that is not the first character
/// of the name; none for `..`.
pub open spec fn extension(name: Seq<char>) -> Option<Seq<char>> {
    let after = after_last(name, '.');
    if name == seq!['.', '.'] || char_count(name, '.') == 0 || after.len() + 1 == name.len() {
        None
    } else {
        Some(after)
    }
}

/// Whether an entry of the root directory has the extension `ext`.
pub open spec fn has_extension(snap: RepoSnapshot, ext: Seq<char>) -> bool {
    exists|i: int|
        0 <= i < snap.entries@.len() && is_root_entry((#[trigger] snap.entries@[i]).path@)
            && extension(snap.entries@[i].path@) == Some(ext)
}

/// Whether the repository has tests: a `tests`, `test`, `__tests__` or `spec`
/// directory, or a `jest.config.js`, `pytest.ini` or `vitest.config.ts` file.
pub open spec fn repo_has_tests(snap: RepoSnapshot) -> bool {
    ||| dir_exists(snap, "tests"@)
    ||| dir_exists(snap, "test"@)
    ||| dir_exists(snap, "__tests__"@)
    ||| dir_exists(snap, "spec"@)
    ||| path_exists(snap, "jest.config.js"@)
    ||| path_exists(snap, "pytest.ini"@)
    ||| path_exists(snap, "vitest.config.ts"@)
}

/// Whether the repository has a README: `README.md`, `readme.md` or `README`.
pub open spec fn repo_has_readme(snap: RepoSnapshot) -> bool {
    path_exists(snap, "README.md"@) || path_exists(snap, "readme.md"@) || path_exists(
        snap,
        "README"@,
    )
}

/// The README that is read, if any: the first that exists of `README.md`,
/// `readme.md`, `README` and `README.txt`.
pub open spec fn readme_path(snap: RepoSnapshot) -> Option<Seq<char>> {
    if path_exists(snap, "README.md"@) {
        Some("README.md"@)
    } else if path_exists(snap, "readme.md"@) {
        Some("readme.md"@)
    } else if path_exists(snap, "README"@) {
        Some("README"@)
    } else if path_exists(snap, "README.txt"@) {
        Some("README.txt"@)
    } else {
        None
    }
}

/// The technology table: each pattern and the technology that it shows.
/// A pattern `*.ext` stands for a root entry with extension `ext`; any other
/// pattern is a path that must exist.
pub open spec fn indicators() -> Seq<(Seq<char>, Seq<char>)> {
    seq![
        ("Cargo.toml"@, "Rust"@),
        ("package.json"@, "Node.js"@),
        ("requirements.txt"@, "Python"@),
        ("pyproject.toml"@, "Python"@),
        ("go.mod"@, "Go"@),
        ("pom.xml"@, "Java"@),
        ("build.gradle"@, "Java/Kotlin"@),
        ("*.cs"@, "C#"@),
        ("*.cpp"@, "C++"@),
        ("*.c"@, "C"@),
        ("*.hs"@, "Haskell"@),
        ("*.rb"@, "Ruby"@),
        ("Gemfile"@, "Ruby"@),
        ("*.php"@, "PHP"@),
        ("composer.json"@, "PHP"@),
        ("*.swift"@, "Swift"@),
        ("*.kt"@, "Kotlin"@),
        ("*.ex"@, "Elixir"@),
        ("mix.exs"@, "Elixir"@),
        ("*.rs"@, "Rust"@),
        ("angular.json"@, "Angular"@),
        ("next.config.js"@, "Next.js"@),
        ("next.config.ts"@, "Next.js"@),
        ("nuxt.config.js"@, "Nuxt.js"@),
        ("nuxt.config.ts"@, "Nuxt.js"@),
        ("svelte.config.js"@, "Svelte"@),
        ("vite.config.js"@, "Vite"@),
        ("vite.config.ts"@, "Vite"@),
        ("Dockerfile"@, "Docker"@),
        ("docker-compose.yml"@, "Docker Compose"@),
        ("docker-compose.yaml"@, "Docker Compose"@),
        ("*.tf"@, "Terraform"@),
        ("*.yml"@, "YAML/CI"@),
        (".github/workflows"@, "GitHub Actions"@),
        ("k8s"@, "Kubernetes"@),
        ("helm"@, "Helm"@),
        (".env.example"@, "Env Config"@),
        ("prisma"@, "Prisma ORM"@),
        ("drizzle.config.ts"@, "Drizzle ORM"@),
    ]
}

/// The views of a table of string pairs.
pub open spec fn pair_views(t: Seq<(&str, &str)>) -> Seq<(Seq<char>, Seq<char>)> {
    t.map_values(|p: (&str, &str)| (p.0@, p.1@))
}

/// Whether the repository matches `pattern`: a pattern that starts with
/// `'.'` is a path that must exist; one that holds `'*'` names, once `*.` is
/// taken out, an extension that a root entry must have; any other is a path
/// that must exist.
pub open spec fn indicator_present(snap: RepoSnapshot, pattern: Seq<char>) -> bool {
    if starts_with(pattern, seq!['.']) {
        path_exists(snap, pattern)
    } else if contains(pattern, seq!['*']) {
        has_extension(snap, replace_all(pattern, seq!['*', '.'], Seq::empty()))
    } else {
        path_exists(snap, pattern)
    }
}

/// The technologies of the rows of `table` that the repository matches, in
/// table order.
pub open spec fn detected(snap: RepoSnapshot, table: Seq<(Seq<char>, Seq<char>)>) -> Seq<Seq<char>>
    decreases table.len(),
{
    if table.len() == 0 {
        Seq::empty()
    } else if indicator_present(snap, table.last().0) {
        detected(snap, table.drop_last()).push(table.last().1)
    } else {
        detected(snap, table.drop_last())
    }
}

/// `s` with each run of equal neighbours cut to its first item (`Vec::dedup`).
pub open spec fn dedup_runs(s: Seq<Seq<char>>) -> Seq<Seq<char>>
    decreases s.len(),
{
    if s.len() <= 1 {
        s
    } else if s.last() == s[s.len() - 2] {
        dedup_runs(s.drop_last())
    } else {
        dedup_runs(s.drop_last()).push(s.last())
    }
}

/// The technologies found in the repository.
pub open spec fn technologies(snap: RepoSnapshot) -> Seq<Seq<char>> {
    dedup_runs(detected(snap, indicators()))
}

proof fn lemma_dedup_runs_last(s: Seq<Seq<char>>)
    requires
        s.len() > 0,
    ensures
        dedup_runs(s).len() > 0,
        dedup_runs(s).last() == s.last(),
    decreases s.len(),
{
    if s.len() > 1 {
        lemma_dedup_runs_last(s.drop_last());
    }
}

/// `v` with each run of equal neighbours cut to its first item.
pub fn dedup_strings(v: Vec<String>) -> (r: Vec<String>)
    ensures
        string_views(r@) == dedup_runs(string_views(v@)),
{
    let n = v.len();
    let ghost views = string_views(v@);
    let mut out: Vec<String> = Vec::new();
    assert(views.take(0) =~= Seq::<Seq<char>>::empty());
    assert(string_views(out@) =~= Seq::<Seq<char>>::empty());
    for i in 0..n
        invariant
            n == v@.len(),
            views == string_views(v@),
            string_views(out@) == dedup_runs(views.take(i as int)),
    {
        let ghost t = views.take(i + 1);
        assert(t.drop_last() == views.take(i as int));
        assert(t.last() == v@[i as int]@);
        proof {
            if i > 0 {
                lemma_dedup_runs_last(views.take(i as int));
                assert(t[t.len() - 2] == views.take(i as int).last());
            }
        }
        let keep = if out.len() == 0 {
            true
        } else {
            let last = out.len() - 1;
            !(out[last] == v[i])
        };
        if keep {
            out.push(v[i].clone());
            assert(string_views(out@) =~= dedup_runs(views.take(i as int)).push(v@[i as int]@));
        }
    }
    assert(views.take(n as int) == views);
    out
}

/// The quality score, from 0 to 10: 5, plus 2 for a README, 3 for tests and
/// 1 for any technology found, minus 2 where the last commit is more than
/// 180 days old and 1 more where it is more than 365 days old.
pub open spec fn quality_score(
    has_readme: bool,
    has_tests: bool,
    has_technologies: bool,
    last_commit_days: Option<u64>,
) -> int {
    let raw = 5 + (if has_readme { 2int } else { 0 }) + (if has_tests { 3int } else { 0 }) + (
    if has_technologies {
        1int
    } else {
        0
    }) - match last_commit_days {
        Some(d) => (if d > 180 { 2int } else { 0 }) + (if d > 365 { 1int } else { 0 }),
        None => 0int,
    };
    if raw < 0 {
        0
    } else if raw > 10 {
        10
    } else {
        raw
    }
}

/// How a `bool` is written: `true` or `false`.
pub open spec fn bool_text(b: bool) -> Seq<char> {
    if b {
        "true"@
    } else {
        "false"@
    }
}

/// How many characters of a README the model is shown.
pub const README_EXCERPT_CHARS: usize = 1500;

/// The README part of the model's context: its first 1500 characters after
/// a heading, or a sentence saying that there is none.
pub open spec fn readme_section(readme: Option<Seq<char>>) -> Seq<char> {
    match readme {
        Some(content) => "\n\nContenido del README:\n"@ + first_chars(
            content,
            README_EXCERPT_CHARS as nat,
        ),
        None => "\n\nEste repositorio no tiene README."@,
    }
}

/// The text that describes a repository to the language model.
pub open spec fn ai_context(
    repo_url: Seq<char>,
    technologies: Seq<Seq<char>>,
    has_readme: bool,
    has_tests: bool,
    score: u8,
    readme: Option<Seq<char>>,
) -> Seq<char> {
    "Repositorio: "@ + repo_url + "\nTecnologías: "@ + join(technologies, ", "@)
        + "\nTiene README: "@ + bool_text(has_readme) + "\nTiene tests: "@ + bool_text(has_tests)
        + "\nScore de calidad: "@ + decimal(score as nat) + "/10"@ + readme_section(readme)
}

/// The view of an optional string.
pub open spec fn opt_view(s: Option<String>) -> Option<Seq<char>> {
    match s {
        Some(t) => Some(t@),
        None => None,
    }
}

proof fn lemma_dedup_runs_shape(s: Seq<Seq<char>>)
    ensures
        forall|i: int| 0 <= i < dedup_runs(s).len() - 1 ==> #[trigger] dedup_runs(s)[i] != dedup_runs(s)[i + 1],
        forall|i: int| 0 <= i < dedup_runs(s).len() ==> s.contains(#[trigger] dedup_runs(s)[i]),
    decreases s.len(),
{
    if s.len() > 1 {
        let d = dedup_runs(s.drop_last());
        lemma_dedup_runs_shape(s.drop_last());
        lemma_dedup_runs_last(s.drop_last());
        assert forall|i: int| 0 <= i < d.len() implies s.contains(#[trigger] d[i]) by {
            let k = choose|k: int| 0 <= k < s.drop_last().len() && s.drop_last()[k] == d[i];
            assert(s[k] == d[i]);
        }
        if s.last() != s[s.len() - 2] {
            let e = d.push(s.last());
            assert(d.last() == s[s.len() - 2]);
            assert forall|i: int| 0 <= i < e.len() - 1 implies #[trigger] e[i] != e[i + 1] by {
                if i < d.len() - 1 {
                    assert(e[i] == d[i] && e[i + 1] == d[i + 1]);
                }
            }
            assert forall|i: int| 0 <= i < e.len() implies s.contains(#[trigger] e[i]) by {
                if i == e.len() - 1 {
                    assert(s[s.len() - 1] == e[i]);
                } else {
                    assert(e[i] == d[i]);
                }
            }
        }
    }
}

/// Whether the table row `row` names the technology `tech` and the
/// repository matches its pattern.
pub open spec fn shows(snap: RepoSnapshot, row: (Seq<char>, Seq<char>), tech: Seq<char>) -> bool {
    row.1 == tech && indicator_present(snap, row.0)
}

proof fn lemma_detected_from_table(snap: RepoSnapshot, table: Seq<(Seq<char>, Seq<char>)>)
    ensures
        forall|i: int|
            #![trigger detected(snap, table)[i]]
            0 <= i < detected(snap, table).len() ==> exists|k: int|
                0 <= k < table.len() && shows(snap, #[trigger] table[k], detected(snap, table)[i]),
    decreases table.len(),
{
    if table.len() > 0 {
        let rest = table.drop_last();
        lemma_detected_from_table(snap, rest);
        assert forall|i: int|
            #![trigger detected(snap, table)[i]]
            0 <= i < detected(snap, table).len() implies exists|k: int|
                0 <= k < table.len() && shows(snap, #[trigger] table[k], detected(snap, table)[i]) by {
            if i < detected(snap, rest).len() {
                assert(detected(snap, table)[i] == detected(snap, rest)[i]);
                let k = choose|k: int|
                    0 <= k < rest.len() && shows(snap, #[trigger] rest[k], detected(snap, rest)[i]);
                assert(table[k] == rest[k]);
            } else {
                assert(indicator_present(snap, table.last().0));
                assert(detected(snap, table)[i] == table.last().1);
                assert(table[table.len() - 1] == table.last());
            }
        }
    } else {
        assert(detected(snap, table).len() == 0);
    }
}

/// The technologies found never name the same technology twice in a row,
/// and each is the technology of a row of the table that the repository
/// matches.
pub proof fn lemma_technologies_shape(snap: RepoSnapshot)
    ensures
        forall|i: int|
            0 <= i < technologies(snap).len() - 1 ==> #[trigger] technologies(snap)[i]
                != technologies(snap)[i + 1],
        forall|i: int|
            #![trigger technologies(snap)[i]]
            0 <= i < technologies(snap).len() ==> exists|k: int|
                0 <= k < indicators().len() && shows(
                    snap,
                    #[trigger] indicators()[k],
                    technologies(snap)[i],
                ),
{
    let d = detected(snap, indicators());
    lemma_dedup_runs_shape(d);
    lemma_detected_from_table(snap, indicators());
    assert forall|i: int|
        #![trigger technologies(snap)[i]]
        0 <= i < technologies(snap).len() implies exists|k: int|
        0 <= k < indicators().len() && shows(snap, #[trigger] indicators()[k], technologies(snap)[i]) by {
        assert(d.contains(technologies(snap)[i]));
        let j = choose|j: int| 0 <= j < d.len() && d[j] == technologies(snap)[i];
        assert(0 <= j < detected(snap, indicators()).len());
    }
}

/// The score always lies between 0 and 10.
pub proof fn lemma_score_range(
    has_readme: bool,
    has_tests: bool,
    has_technologies: bool,
    last_commit_days: Option<u64>,
)
    ensures
        0 <= quality_score(has_readme, has_tests, has_technologies, last_commit_days) <= 10,
{
}

/// Whether a repository has tests is decided by these markers alone: a
/// `tests`, `test`, `__tests__` or `spec` directory, or a `jest.config.js`,
/// `pytest.ini` or `vitest.config.ts` file; any one of them suffices.
pub proof fn lemma_test_markers(snap: RepoSnapshot)
    ensures
        repo_has_tests(snap) <==> (dir_exists(snap, "tests"@) || dir_exists(snap, "test"@)
            || dir_exists(snap, "__tests__"@) || dir_exists(snap, "spec"@) || path_exists(
            snap,
            "jest.config.js"@,
        ) || path_exists(snap, "pytest.ini"@) || path_exists(snap, "vitest.config.ts"@)),
{
}

/// The README part of the context shows the beginning of the README: its
/// first 1500 characters, or all of it where it is shorter.
pub proof fn lemma_readme_excerpt(c: Seq<char>)
    ensures
        readme_section(Some(c)) == "\n\nContenido del README:\n"@ + c.take(
            if c.len() <= 1500 {
                c.len() as int
            } else {
                1500int
            },
        ),
{
    if c.len() <= 1500 {
        assert(c.take(c.len() as int) =~= c);
    }
}

/// Having tests, a README or a technology never lowers the score, and an
/// older last commit never raises it.
pub proof fn lemma_score_monotone(
    has_readme: bool,
    has_tests: bool,
    has_technologies: bool,
    days: u64,
    later_days: u64,
)
    requires
        days <= later_days,
    ensures
        quality_score(true, has_tests, has_technologies, Some(days)) >= quality_score(
            has_readme,
            has_tests,
            has_technologies,
            Some(days),
        ),
        quality_score(has_readme, true, has_technologies, Some(days)) >= quality_score(
            has_readme,
            has_tests,
            has_technologies,
            Some(days),
        ),
        quality_score(has_readme, has_tests, true, Some(days)) >= quality_score(
            has_readme,
            has_tests,
            has_technologies,
            Some(days),
        ),
        quality_score(has_readme, has_tests, has_technologies, Some(later_days)) <= quality_score(
            has_readme,
            has_tests,
            has_technologies,
            Some(days),
        ),
{
}

/// The extension of `name`.
pub fn extension_of(name: &[char]) -> (r: Option<Vec<char>>)
    ensures
        r matches Some(e) ==> extension(name@) == Some(e@),
        r is None ==> extension(name@) is None,
{
    let dots = count_char(name, '.');
    let after = after_last_chars(name, '.');
    let dotdot = vec!['.', '.'];
    assert(dotdot@ == seq!['.', '.']);
    if chars_equal(name, &dotdot) || dots == 0
        || (name.len() > 0 && after.len() == name.len() - 1) {
        None
    } else {
        Some(after)
    }
}

/// The technology table (see `indicators`).
pub fn indicator_table() -> (t: Vec<(&'static str, &'static str)>)
    ensures
        pair_views(t@) == indicators(),
{
    let t = vec![
        ("Cargo.toml", "Rust"),
        ("package.json", "Node.js"),
        ("requirements.txt", "Python"),
        ("pyproject.toml", "Python"),
        ("go.mod", "Go"),
        ("pom.xml", "Java"),
        ("build.gradle", "Java/Kotlin"),
        ("*.cs", "C#"),
        ("*.cpp", "C++"),
        ("*.c", "C"),
        ("*.hs", "Haskell"),
        ("*.rb", "Ruby"),
        ("Gemfile", "Ruby"),
        ("*.php", "PHP"),
        ("composer.json", "PHP"),
        ("*.swift", "Swift"),
        ("*.kt", "Kotlin"),
        ("*.ex", "Elixir"),
        ("mix.exs", "Elixir"),
        ("*.rs", "Rust"),
        ("angular.json", "Angular"),
        ("next.config.js", "Next.js"),
        ("next.config.ts", "Next.js"),
        ("nuxt.config.js", "Nuxt.js"),
        ("nuxt.config.ts", "Nuxt.js"),
        ("svelte.config.js", "Svelte"),
        ("vite.config.js", "Vite"),
        ("vite.config.ts", "Vite"),
        ("Dockerfile", "Docker"),
        ("docker-compose.yml", "Docker Compose"),
        ("docker-compose.yaml", "Docker Compose"),
        ("*.tf", "Terraform"),
        ("*.yml", "YAML/CI"),
        (".github/workflows", "GitHub Actions"),
        ("k8s", "Kubernetes"),
        ("helm", "Helm"),
        (".env.example", "Env Config"),
        ("prisma", "Prisma ORM"),
        ("drizzle.config.ts", "Drizzle ORM"),
    ];
    assert(pair_views(t@) =~= indicators());
    t
}

/// Reads repositories.
pub struct AnalyzerService;

impl AnalyzerService {
    /// A service.
    pub fn new() -> (s: AnalyzerService)
        ensures
            s == AnalyzerService,
    {
        AnalyzerService
    }

    /// Whether `path` exists in `base`.
    pub fn path_exists(&self, base: &RepoSnapshot, path: &str) -> (r: bool)
        ensures
            r == path_exists(*base, path@),
    {
        let wanted = path.to_owned();
        let n = base.entries.len();
        for i in 0..n
            invariant
                n == base.entries@.len(),
                wanted@ == path@,
                forall|j: int| 0 <= j < i ==> (#[trigger] base.entries@[j]).path@ != path@,
        {
            if base.entries[i].path == wanted {
                return true;
            }
        }
        false
    }

    /// Whether `path` is a directory in `base`.
    pub fn dir_exists(&self, base: &RepoSnapshot, path: &str) -> (r: bool)
        ensures
            r == dir_exists(*base, path@),
    {
        let wanted = path.to_owned();
        let n = base.entries.len();
        for i in 0..n
            invariant
                n == base.entries@.len(),
                wanted@ == path@,
                forall|j: int|
                    0 <= j < i ==> !((#[trigger] base.entries@[j]).path@ == path@
                        && base.entries@[j].is_dir),
        {
            if base.entries[i].is_dir && base.entries[i].path == wanted {
                return true;
            }
        }
        false
    }

    /// Whether any of `names` exists in `base`.
    pub fn file_exists(&self, base: &RepoSnapshot, names: &[&str]) -> (r: bool)
        ensures
            r == exists|k: int| 0 <= k < names@.len() && path_exists(*base, (#[trigger] names@[k])@),
    {
        let n = names.len();
        for k in 0..n
            invariant
                n == names@.len(),
                forall|j: int| 0 <= j < k ==> !path_exists(*base, (#[trigger] names@[j])@),
        {
            if self.path_exists(base, names[k]) {
                return true;
            }
        }
        false
    }

    /// Whether `base` matches the table pattern `pattern`.
    pub fn indicator_present(&self, base: &RepoSnapshot, pattern: &str) -> (r: bool)
        ensures
            r == indicator_present(*base, pattern@),
    {
        let cs = str_chars(pattern);
        let dot = vec!['.'];
        let star = vec!['*'];
        assert(dot@ == seq!['.']);
        assert(star@ == seq!['*']);
        if chars_start_with(&cs, &dot) {
            self.path_exists(base, pattern)
        } else if chars_contain(&cs, &star) {
            let glob = vec!['*', '.'];
            let empty: Vec<char> = Vec::new();
            assert(glob@ == seq!['*', '.']);
            assert(empty@ == Seq::<char>::empty());
            let ext = string_from_chars(&replace_chars(&cs, &glob, &empty));
            self.has_extension(base, ext.as_str())
        } else {
            self.path_exists(base, pattern)
        }
    }

    /// The technologies that `base` shows, in table order, each run of equal
    /// neighbours cut to one.
    pub fn detect_technologies(&self, base: &RepoSnapshot) -> (techs: Vec<String>)
        ensures
            string_views(techs@) == technologies(*base),
    {
        let table = indicator_table();
        let ghost rows = pair_views(table@);
        let n = table.len();
        let mut techs: Vec<String> = Vec::new();
        assert(rows.take(0) =~= Seq::<(Seq<char>, Seq<char>)>::empty());
        assert(string_views(techs@) =~= Seq::<Seq<char>>::empty());
        for k in 0..n
            invariant
                n == table@.len(),
                rows == pair_views(table@),
                rows == indicators(),
                string_views(techs@) == detected(*base, rows.take(k as int)),
        {
            let (pattern, tech) = table[k];
            assert(rows.take(k + 1).drop_last() == rows.take(k as int));
            assert(rows.take(k + 1).last() == (pattern@, tech@));
            if self.indicator_present(base, pattern) {
                let ghost before = string_views(techs@);
                techs.push(tech.to_owned());
                assert(string_views(techs@) =~= before.push(tech@));
            }
        }
        assert(rows.take(n as int) == rows);
        dedup_strings(techs)
    }

    /// Whether `base` has tests.
    pub fn has_tests(&self, base: &RepoSnapshot) -> (r: bool)
        ensures
            r == repo_has_tests(*base),
            r <==> (dir_exists(*base, "tests"@) || dir_exists(*base, "test"@) || dir_exists(
                *base,
                "__tests__"@,
            ) || dir_exists(*base, "spec"@) || path_exists(*base, "jest.config.js"@)
                || path_exists(*base, "pytest.ini"@) || path_exists(*base, "vitest.config.ts"@)),
    {
        if self.dir_exists(base, "tests") || self.dir_exists(base, "test") || self.dir_exists(
            base,
            "__tests__",
        ) || self.dir_exists(base, "spec") {
            return true;
        }
        self.path_exists(base, "jest.config.js") || self.path_exists(base, "pytest.ini")
            || self.path_exists(base, "vitest.config.ts")
    }

    /// The README of `base` that is read, if any.
    pub fn readme_path(&self, base: &RepoSnapshot) -> (path: Option<String>)
        ensures
            opt_view(path) == readme_path(*base),
    {
        if self.path_exists(base, "README.md") {
            Some("README.md".to_owned())
        } else if self.path_exists(base, "readme.md") {
            Some("readme.md".to_owned())
        } else if self.path_exists(base, "README") {
            Some("README".to_owned())
        } else if self.path_exists(base, "README.txt") {
            Some("README.txt".to_owned())
        } else {
            None
        }
    }

    /// The quality score (see `quality_score`).
    pub fn calculate_score(
        &self,
        has_readme: bool,
        has_tests: bool,
        technologies: &[String],
        last_commit_days: Option<u64>,
    ) -> (s: u8)
        ensures
            s == quality_score(has_readme, has_tests, technologies@.len() > 0, last_commit_days),
            s <= 10,
    {
        let mut score: i8 = 5;
        if has_readme {
            score += 2;
        }
        if has_tests {
            score += 3;
        }
        if technologies.len() > 0 {
            score += 1;
        }
        if let Some(days) = last_commit_days {
            if days > 180 {
                score -= 2;
            }
            if days > 365 {
                score -= 1;
            }
        }
        if score < 0 {
            score = 0;
        }
        if score > 10 {
            score = 10;
        }
        score as u8
    }

    /// The text that describes the analysed repository `response` and its
    /// README to the language model.
    pub fn build_ai_context(&self, response: &AnalyzeResponse, readme: Option<String>) -> (ctx:
        String)
        ensures
            ctx@ == ai_context(
                response.repo_url@,
                string_views(response.technologies@),
                response.has_readme,
                response.has_tests,
                response.score,
                opt_view(readme),
            ),
            readme matches Some(c) ==> ({
                let k = if c@.len() <= 1500 { c@.len() as int } else { 1500int };
                &&& ctx@.len() >= k
                &&& ctx@.skip(ctx@.len() - k) == c@.take(k)
            }),
            readme is None ==> ctx@.len() >= "\n\nEste repositorio no tiene README."@.len()
                && ctx@.skip(ctx@.len() - "\n\nEste repositorio no tiene README."@.len())
                == "\n\nEste repositorio no tiene README."@,
    {
        let ghost section = readme_section(opt_view(readme));
        let ghost readme_v = opt_view(readme);
        let readme_section = match readme {
            Some(content) => {
                let cs = str_chars(content.as_str());
                let excerpt = first_chars_of(&cs, README_EXCERPT_CHARS);
                let mut sec = "\n\nContenido del README:\n".to_owned();
                push_chars(&mut sec, &excerpt);
                sec
            },
            None => "\n\nEste repositorio no tiene README.".to_owned(),
        };
        assert(readme_section@ == section);
        let mut ctx = "Repositorio: ".to_owned();
        ctx.append(response.repo_url.as_str());
        ctx.append("\nTecnologías: ");
        push_joined(&mut ctx, &response.technologies, ", ");
        ctx.append("\nTiene README: ");
        ctx.append(if response.has_readme { "true" } else { "false" });
        ctx.append("\nTiene tests: ");
        ctx.append(if response.has_tests { "true" } else { "false" });
        ctx.append("\nScore de calidad: ");
        push_decimal(&mut ctx, response.score as u64);
        ctx.append("/10");
        let ghost before = ctx@;
        ctx.append(readme_section.as_str());
        proof {
            assert(ctx@.skip(before.len() as int) =~= section);
            match readme_v {
                Some(cv) => {
                    lemma_readme_excerpt(cv);
                    let k = if cv.len() <= 1500 { cv.len() as int } else { 1500int };
                    let head = "\n\nContenido del README:\n"@;
                    assert(section == head + cv.take(k));
                    assert(ctx@.skip(ctx@.len() - k) =~= cv.take(k));
                },
                None => {
                    assert(ctx@.skip(before.len() as int) == section);
                },
            }
        }
        ctx
    }

    /// The report on the repository `repo_path` found at `repo_url`: whether
    /// it has a README, tests and a licence, the kind of licence, its
    /// technologies and main language, its directory tree, its numbers of
    /// files, lines and dependencies (each capped at the largest `u32`), its
    /// weaknesses, its score and the age of its last commit. Contributors and
    /// the model's analysis are left for the caller to fill in.
    pub fn analyze(&self, repo_path: &RepoSnapshot, repo_url: &str, last_commit_days: Option<
        u64,
    >) -> (r: AnalyzeResponse)
        ensures
            r.repo_url@ == repo_url@,
            string_views(r.technologies@) == technologies(*repo_path),
            r.has_readme == repo_has_readme(*repo_path),
            r.has_tests == repo_has_tests(*repo_path),
            r.score == quality_score(
                repo_has_readme(*repo_path),
                repo_has_tests(*repo_path),
                technologies(*repo_path).len() > 0,
                last_commit_days,
            ),
            r.last_commit_days == last_commit_days,
            opt_view(r.dominant_language) == dominant_language(*repo_path),
            string_views(r.directory_tree@) == directory_tree(repo_path.entries@),
            r.total_files == saturate_u32(file_count(repo_path.entries@)),
            r.total_lines == saturate_u32(line_total(repo_path.entries@)),
            r.dependency_count == saturate_u32(dependency_total(*repo_path)),
            r.has_license == (license_file(*repo_path) is Some),
            opt_view(r.license_type) == license_type(*repo_path),
            r.contributors == 0,
            smell_views(r.code_smells@) == smells(repo_path.entries@),
            r.ai is None,
    {
        let names: [&str; 3] = ["README.md", "readme.md", "README"];
        let has_readme = self.file_exists(repo_path, &names);
        assert(has_readme == repo_has_readme(*repo_path)) by {
            if has_readme {
                let k = choose|k: int| 0 <= k < 3 && path_exists(*repo_path, (#[trigger] names@[k])@);
                assert(k == 0 || k == 1 || k == 2);
            } else {
                assert(!path_exists(*repo_path, names@[0]@));
                assert(!path_exists(*repo_path, names@[1]@));
                assert(!path_exists(*repo_path, names@[2]@));
            }
        }
        let has_tests = self.has_tests(repo_path);
        let technologies = self.detect_technologies(repo_path);
        let score = self.calculate_score(has_readme, has_tests, technologies.as_slice(), last_commit_days);
        let (files, lines) = count_files_and_lines(repo_path);
        let has_license = license_file_of(repo_path).is_some();
        AnalyzeResponse {
            repo_url: repo_url.to_owned(),
            technologies,
            dominant_language: dominant_language_of(repo_path),
            directory_tree: directory_tree_of(repo_path),
            total_files: to_u32_saturating(files),
            total_lines: to_u32_saturating(lines),
            dependency_count: to_u32_saturating(dependency_total_of(repo_path)),
            has_readme,
            has_tests,
            has_license,
            license_type: license_type_of(repo_path),
            last_commit_days,
            contributors: 0,
            score,
            code_smells: smells_of(repo_path),
            ai: None,
        }
    }

    /// Whether an entry of the root directory of `base` has the extension `ext`.
    pub fn has_extension(&self, base: &RepoSnapshot, ext: &str) -> (r: bool)
        ensures
            r == has_extension(*base, ext@),
    {
        let want = str_chars(ext);
        let n = base.entries.len();
        for i in 0..n
            invariant
                n == base.entries@.len(),
                want@ == ext@,
                forall|j: int|
                    0 <= j < i ==> !(is_root_entry((#[trigger] base.entries@[j]).path@)
                        && extension(base.entries@[j].path@) == Some(ext@)),
        {
            let name = str_chars(base.entries[i].path.as_str());
            if count_char(&name, '/') == 0 {
                match extension_of(&name) {
                    Some(e) => {
                        if chars_equal(&e, &want) {
                            return true;
                        }
                    },
                    None => {},
                }
            }
        }
        false
    }
}

} // verus!
