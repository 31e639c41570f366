//! What a repository holds beyond its technologies: files and lines, its
//! directory tree, its licence, its main language, its dependencies and the
//! weaknesses in it.

use vstd::prelude::*;
use vstd::string::StringExecFns;
use crate::ai::{get_key, json_get_key, Json};
use crate::models::CodeSmell;
use crate::analyzer::{
    extension, extension_of, opt_view, path_exists, AnalyzerService, PathEntry, RepoSnapshot,
};
use crate::text::{
    after_last, after_last_chars, char_count, chars_contain, chars_equal, contains, count_char, count_lines,
    decimal, line_count, push_chars, push_decimal, str_chars, string_from_chars, string_views,
    trim, trim_chars,
};

verus! {

broadcast use vstd::string::group_string_axioms;

/// How many lines the entry `e` has: those of its text, none for a
/// directory or an entry without text.
pub open spec fn entry_lines(e: PathEntry) -> nat {
    if e.is_dir {
        0
    } else {
        match e.content {
            Some(c) => line_count(c@),
            None => 0,
        }
    }
}

/// How many of `es` are files.
pub open spec fn file_count(es: Seq<PathEntry>) -> nat
    decreases es.len(),
{
    if es.len() == 0 {
        0
    } else {
        file_count(es.drop_last()) + if es.last().is_dir { 0nat } else { 1nat }
    }
}

/// How many lines the files of `es` have together.
pub open spec fn line_total(es: Seq<PathEntry>) -> nat
    decreases es.len(),
{
    if es.len() == 0 {
        0
    } else {
        line_total(es.drop_last()) + entry_lines(es.last())
    }
}

/// `n`, or the largest `u32` where `n` does not fit.
pub open spec fn saturate_u32(n: nat) -> u32 {
    if n > u32::MAX {
        u32::MAX
    } else {
        n as u32
    }
}

/// `n` as a `u32`, or the largest `u32` where it does not fit.
pub fn to_u32_saturating(n: u128) -> (r: u32)
    ensures
        r == saturate_u32(n as nat),
{
    if n > u32::MAX as u128 {
        u32::MAX
    } else {
        n as u32
    }
}

/// Two spaces for each of `n` levels.
pub open spec fn indent(n: nat) -> Seq<char>
    decreases n,
{
    if n == 0 {
        Seq::empty()
    } else {
        indent((n - 1) as nat) + seq![' ', ' ']
    }
}

/// The line of the directory tree for `e`: its name, indented by two spaces
/// per directory above it, and followed by `'/'` for a directory.
pub open spec fn tree_line(e: PathEntry) -> Seq<char> {
    indent(char_count(e.path@, '/')) + after_last(e.path@, '/') + if e.is_dir {
        seq!['/']
    } else {
        Seq::empty()
    }
}

/// The directory tree of `es`: a line for each entry, in order.
pub open spec fn directory_tree(es: Seq<PathEntry>) -> Seq<Seq<char>> {
    Seq::new(es.len(), |i: int| tree_line(es[i]))
}

/// The names that a licence file may have, in the order they are looked for.
pub open spec fn license_names() -> Seq<Seq<char>> {
    seq!["LICENSE"@, "LICENSE.md"@, "LICENSE.txt"@, "LICENCE"@, "COPYING"@]
}

/// The first of `names` that exists in the repository.
pub open spec fn first_existing(snap: RepoSnapshot, names: Seq<Seq<char>>) -> Option<Seq<char>>
    decreases names.len(),
{
    if names.len() == 0 {
        None
    } else if path_exists(snap, names[0]) {
        Some(names[0])
    } else {
        first_existing(snap, names.drop_first())
    }
}

/// The text of the first of `es` at `path`.
pub open spec fn content_at(es: Seq<PathEntry>, path: Seq<char>) -> Option<Seq<char>>
    decreases es.len(),
{
    if es.len() == 0 {
        None
    } else if es[0].path@ == path {
        opt_view(es[0].content)
    } else {
        content_at(es.drop_first(), path)
    }
}

/// The phrases that name a licence, and the licence each names, in the order
/// they are looked for.
pub open spec fn license_markers() -> Seq<(Seq<char>, Seq<char>)> {
    seq![
        ("GNU AFFERO GENERAL PUBLIC LICENSE"@, "AGPL-3.0"@),
        ("GNU LESSER GENERAL PUBLIC LICENSE"@, "LGPL"@),
        ("GNU GENERAL PUBLIC LICENSE"@, "GPL"@),
        ("Apache License"@, "Apache-2.0"@),
        ("Mozilla Public License"@, "MPL-2.0"@),
        ("MIT License"@, "MIT"@),
        ("Permission is hereby granted, free of charge"@, "MIT"@),
        ("Redistribution and use in source and binary forms"@, "BSD"@),
        ("This is free and unencumbered software"@, "Unlicense"@),
    ]
}

/// The licence that `text` names: that of the first marker it contains.
pub open spec fn license_kind(text: Seq<char>, markers: Seq<(Seq<char>, Seq<char>)>) -> Option<
    Seq<char>,
>
    decreases markers.len(),
{
    if markers.len() == 0 {
        None
    } else if contains(text, markers[0].0) {
        Some(markers[0].1)
    } else {
        license_kind(text, markers.drop_first())
    }
}

/// The licence file of the repository: the first of the licence names that
/// exists at its root.
pub open spec fn license_file(snap: RepoSnapshot) -> Option<Seq<char>> {
    first_existing(snap, license_names())
}

/// The kind of licence of the repository, where its licence file has text
/// that names one.
pub open spec fn license_type(snap: RepoSnapshot) -> Option<Seq<char>> {
    match license_file(snap) {
        Some(p) => match content_at(snap.entries@, p) {
            Some(t) => license_kind(t, license_markers()),
            None => None,
        },
        None => None,
    }
}

/// The views of a list of strings.
pub open spec fn str_views(t: Seq<&str>) -> Seq<Seq<char>> {
    t.map_values(|p: &str| p@)
}

/// The views of a table of string pairs.
pub open spec fn str_pair_views(t: Seq<(&str, &str)>) -> Seq<(Seq<char>, Seq<char>)> {
    t.map_values(|p: (&str, &str)| (p.0@, p.1@))
}

/// The number of files and the number of lines of `base`, as `u128`.
pub fn count_files_and_lines(base: &RepoSnapshot) -> (r: (u128, u128))
    ensures
        r.0 == file_count(base.entries@),
        r.1 == line_total(base.entries@),
{
    let es = &base.entries;
    let n = es.len();
    let mut files: u128 = 0;
    let mut lines: u128 = 0;
    assert(es@.take(0) =~= Seq::<PathEntry>::empty());
    for i in 0..n
        invariant
            n == es@.len(),
            files == file_count(es@.take(i as int)),
            lines == line_total(es@.take(i as int)),
            files <= i,
            lines <= i * 0x1_0000_0000_0000_0000,
    {
        assert(es@.take(i + 1).drop_last() == es@.take(i as int));
        let e = &es[i];
        if !e.is_dir {
            files = files + 1;
            match &e.content {
                Some(c) => {
                    let k = count_lines(&str_chars(c.as_str()));
                    lines = lines + k as u128;
                },
                None => {},
            }
        }
    }
    assert(es@.take(n as int) == es@);
    (files, lines)
}

fn push_indent(out: &mut String, n: usize)
    ensures
        final(out)@ == old(out)@ + indent(n as nat),
{
    let mut k: usize = 0;
    while k < n
        invariant
            k <= n,
            out@ == old(out)@ + indent(k as nat),
        decreases n - k,
    {
        out.append("  ");
        proof {
            reveal_strlit("  ");
        }
        k = k + 1;
        assert(indent(k as nat) == indent((k - 1) as nat) + seq![' ', ' ']);
    }
}

/// The line of the directory tree for `e`.
pub fn tree_line_of(e: &PathEntry) -> (line: String)
    ensures
        line@ == tree_line(*e),
{
    let cs = str_chars(e.path.as_str());
    let mut line = String::new();
    push_indent(&mut line, count_char(&cs, '/'));
    push_chars(&mut line, &after_last_chars(&cs, '/'));
    if e.is_dir {
        line.append("/");
        proof {
            reveal_strlit("/");
        }
    }
    assert(line@ =~= tree_line(*e));
    line
}

/// The directory tree of `base`.
pub fn directory_tree_of(base: &RepoSnapshot) -> (tree: Vec<String>)
    ensures
        string_views(tree@) == directory_tree(base.entries@),
{
    let es = &base.entries;
    let n = es.len();
    let mut tree: Vec<String> = Vec::new();
    for i in 0..n
        invariant
            n == es@.len(),
            tree@.len() == i,
            forall|j: int| 0 <= j < i ==> (#[trigger] tree@[j])@ == tree_line(es@[j]),
    {
        tree.push(tree_line_of(&es[i]));
    }
    assert(string_views(tree@) =~= directory_tree(es@));
    tree
}

/// The text of the first entry of `base` at `path`.
pub fn content_of(base: &RepoSnapshot, path: &str) -> (t: Option<String>)
    ensures
        opt_view(t) == content_at(base.entries@, path@),
{
    let wanted = path.to_owned();
    let es = &base.entries;
    let n = es.len();
    assert(es@.skip(0) == es@);
    for i in 0..n
        invariant
            n == es@.len(),
            wanted@ == path@,
            es@ == base.entries@,
            content_at(es@, path@) == content_at(es@.skip(i as int), path@),
    {
        assert(es@.skip(i as int).drop_first() == es@.skip(i + 1));
        assert(es@.skip(i as int)[0] == es@[i as int]);
        if es[i].path == wanted {
            assert(content_at(es@, path@) == opt_view(es@[i as int].content));
            let r = match &es[i].content {
                Some(c) => Some(c.clone()),
                None => None,
            };
            assert(opt_view(r) == opt_view(es@[i as int].content));
            return r;
        }
    }
    None
}

/// The licence names, in the order they are looked for.
pub fn license_name_list() -> (names: Vec<&'static str>)
    ensures
        str_views(names@) == license_names(),
{
    let names = vec!["LICENSE", "LICENSE.md", "LICENSE.txt", "LICENCE", "COPYING"];
    assert(str_views(names@) =~= license_names());
    names
}

/// The licence markers, in the order they are looked for.
pub fn license_marker_table() -> (t: Vec<(&'static str, &'static str)>)
    ensures
        str_pair_views(t@) == license_markers(),
{
    let t = vec![
        ("GNU AFFERO GENERAL PUBLIC LICENSE", "AGPL-3.0"),
        ("GNU LESSER GENERAL PUBLIC LICENSE", "LGPL"),
        ("GNU GENERAL PUBLIC LICENSE", "GPL"),
        ("Apache License", "Apache-2.0"),
        ("Mozilla Public License", "MPL-2.0"),
        ("MIT License", "MIT"),
        ("Permission is hereby granted, free of charge", "MIT"),
        ("Redistribution and use in source and binary forms", "BSD"),
        ("This is free and unencumbered software", "Unlicense"),
    ];
    assert(str_pair_views(t@) =~= license_markers());
    t
}


/// The licence file of `base`, if it has one.
pub fn license_file_of(base: &RepoSnapshot) -> (f: Option<String>)
    ensures
        opt_view(f) == license_file(*base),
{
    let names = license_name_list();
    let ghost views = str_views(names@);
    let n = names.len();
    assert(views.skip(0) == views);
    for k in 0..n
        invariant
            n == names@.len(),
            views == str_views(names@),
            views == license_names(),
            first_existing(*base, views) == first_existing(*base, views.skip(k as int)),
    {
        assert(views.skip(k as int).drop_first() == views.skip(k + 1));
        assert(views.skip(k as int)[0] == names@[k as int]@);
        if AnalyzerService.path_exists(base, names[k]) {
            return Some(names[k].to_owned());
        }
    }
    None
}

/// The licence that `text` names, if any.
pub fn license_kind_of(text: &str) -> (kind: Option<String>)
    ensures
        opt_view(kind) == license_kind(text@, license_markers()),
{
    let cs = str_chars(text);
    let table = license_marker_table();
    let ghost rows = str_pair_views(table@);
    let n = table.len();
    assert(rows.skip(0) == rows);
    for k in 0..n
        invariant
            n == table@.len(),
            cs@ == text@,
            rows == str_pair_views(table@),
            rows == license_markers(),
            license_kind(text@, rows) == license_kind(text@, rows.skip(k as int)),
    {
        assert(rows.skip(k as int).drop_first() == rows.skip(k + 1));
        let (marker, name) = table[k];
        assert(rows.skip(k as int)[0] == (marker@, name@));
        if chars_contain(&cs, &str_chars(marker)) {
            return Some(name.to_owned());
        }
    }
    None
}

/// The kind of licence of `base`, where its licence file has text that
/// names one.
pub fn license_type_of(base: &RepoSnapshot) -> (kind: Option<String>)
    ensures
        opt_view(kind) == license_type(*base),
{
    match license_file_of(base) {
        Some(f) => match content_of(base, f.as_str()) {
            Some(t) => license_kind_of(t.as_str()),
            None => None,
        },
        None => None,
    }
}


/// The languages known by file extension, in the order that settles a tie.
pub open spec fn language_table() -> Seq<(Seq<char>, Seq<char>)> {
    seq![
        ("rs"@, "Rust"@),
        ("py"@, "Python"@),
        ("js"@, "JavaScript"@),
        ("ts"@, "TypeScript"@),
        ("go"@, "Go"@),
        ("java"@, "Java"@),
        ("kt"@, "Kotlin"@),
        ("c"@, "C"@),
        ("cpp"@, "C++"@),
        ("cs"@, "C#"@),
        ("rb"@, "Ruby"@),
        ("php"@, "PHP"@),
        ("swift"@, "Swift"@),
        ("hs"@, "Haskell"@),
        ("ex"@, "Elixir"@),
    ]
}

/// The extension of the file `e`; none for a directory.
pub open spec fn file_extension(e: PathEntry) -> Option<Seq<char>> {
    if e.is_dir {
        None
    } else {
        extension(after_last(e.path@, '/'))
    }
}

/// How many lines the files of `es` with extension `ext` have together.
pub open spec fn ext_lines(es: Seq<PathEntry>, ext: Seq<char>) -> nat
    decreases es.len(),
{
    if es.len() == 0 {
        0
    } else {
        ext_lines(es.drop_last(), ext) + if file_extension(es.last()) == Some(ext) {
            entry_lines(es.last())
        } else {
            0nat
        }
    }
}

/// The row of `table` whose extension has the most lines in `es`, the
/// earliest such row where several have as many; none where no row has a
/// line.
pub open spec fn leader(es: Seq<PathEntry>, table: Seq<(Seq<char>, Seq<char>)>) -> Option<
    (Seq<char>, Seq<char>),
>
    decreases table.len(),
{
    if table.len() == 0 {
        None
    } else {
        let prev = leader(es, table.drop_last());
        let row = table.last();
        let l = ext_lines(es, row.0);
        match prev {
            None => if l > 0 {
                Some(row)
            } else {
                None
            },
            Some(p) => if l > ext_lines(es, p.0) {
                Some(row)
            } else {
                prev
            },
        }
    }
}

/// The main language of the repository: the language of the table whose
/// files hold the most lines, the earliest in the table on a tie; none where
/// no file of a known language has a line.
pub open spec fn dominant_language(snap: RepoSnapshot) -> Option<Seq<char>> {
    match leader(snap.entries@, language_table()) {
        Some(row) => Some(row.1),
        None => None,
    }
}

/// The language table.
pub fn language_list() -> (t: Vec<(&'static str, &'static str)>)
    ensures
        str_pair_views(t@) == language_table(),
{
    let t = vec![
        ("rs", "Rust"),
        ("py", "Python"),
        ("js", "JavaScript"),
        ("ts", "TypeScript"),
        ("go", "Go"),
        ("java", "Java"),
        ("kt", "Kotlin"),
        ("c", "C"),
        ("cpp", "C++"),
        ("cs", "C#"),
        ("rb", "Ruby"),
        ("php", "PHP"),
        ("swift", "Swift"),
        ("hs", "Haskell"),
        ("ex", "Elixir"),
    ];
    assert(str_pair_views(t@) =~= language_table());
    t
}

/// How many lines the entry `e` has.
pub fn entry_lines_of(e: &PathEntry) -> (n: usize)
    ensures
        n == entry_lines(*e),
{
    if e.is_dir {
        0
    } else {
        match &e.content {
            Some(c) => count_lines(&str_chars(c.as_str())),
            None => 0,
        }
    }
}

/// Whether the file `e` has the extension `ext`.
pub fn has_file_extension(e: &PathEntry, ext: &[char]) -> (r: bool)
    ensures
        r == (file_extension(*e) == Some(ext@)),
{
    if e.is_dir {
        return false;
    }
    let name = after_last_chars(&str_chars(e.path.as_str()), '/');
    match extension_of(&name) {
        Some(x) => chars_equal(&x, ext),
        None => false,
    }
}

/// How many lines the files of `base` with extension `ext` have together.
pub fn ext_lines_of(base: &RepoSnapshot, ext: &[char]) -> (n: u128)
    ensures
        n == ext_lines(base.entries@, ext@),
{
    let es = &base.entries;
    let len = es.len();
    let mut total: u128 = 0;
    assert(es@.take(0) =~= Seq::<PathEntry>::empty());
    for i in 0..len
        invariant
            len == es@.len(),
            total == ext_lines(es@.take(i as int), ext@),
            total <= i * 0x1_0000_0000_0000_0000,
    {
        assert(es@.take(i + 1).drop_last() == es@.take(i as int));
        if has_file_extension(&es[i], ext) {
            total = total + entry_lines_of(&es[i]) as u128;
        }
    }
    assert(es@.take(len as int) == es@);
    total
}

/// The main language of `base`, if any.
pub fn dominant_language_of(base: &RepoSnapshot) -> (lang: Option<String>)
    ensures
        opt_view(lang) == dominant_language(*base),
{
    let table = language_list();
    let ghost rows = str_pair_views(table@);
    let ghost es = base.entries@;
    let n = table.len();
    let mut best: Option<(usize, u128)> = None;
    assert(rows.take(0) =~= Seq::<(Seq<char>, Seq<char>)>::empty());
    for k in 0..n
        invariant
            n == table@.len(),
            rows == str_pair_views(table@),
            rows == language_table(),
            es == base.entries@,
            match leader(es, rows.take(k as int)) {
                None => best is None,
                Some(row) => best matches Some((b, l)) && b < k && rows[b as int] == row && l
                    == ext_lines(es, row.0),
            },
    {
        assert(rows.take(k + 1).drop_last() == rows.take(k as int));
        let (ext, _name) = table[k];
        assert(rows.take(k + 1).last() == (ext@, _name@));
        let l = ext_lines_of(base, &str_chars(ext));
        match best {
            None => {
                if l > 0 {
                    best = Some((k, l));
                }
            },
            Some((_b, bl)) => {
                if l > bl {
                    best = Some((k, l));
                }
            },
        }
    }
    assert(rows.take(n as int) == rows);
    match best {
        Some((b, _)) => Some(table[b].1.to_owned()),
        None => None,
    }
}


/// The lines of `s`, split at each `'\n'`: one more than there are line
/// feeds, the last one empty where `s` ends with a line feed.
pub open spec fn lines_of(s: Seq<char>) -> Seq<Seq<char>>
    decreases s.len(),
{
    if s.len() == 0 {
        seq![Seq::empty()]
    } else {
        let prev = lines_of(s.drop_last());
        if s.last() == '\n' {
            prev.push(Seq::empty())
        } else {
            prev.update(prev.len() - 1, prev.last().push(s.last()))
        }
    }
}

proof fn lemma_lines_of_nonempty(s: Seq<char>)
    ensures
        lines_of(s).len() >= 1,
    decreases s.len(),
{
    if s.len() > 0 {
        lemma_lines_of_nonempty(s.drop_last());
    }
}

/// The views of a list of lines.
pub open spec fn line_views(v: Seq<Vec<char>>) -> Seq<Seq<char>> {
    v.map_values(|l: Vec<char>| l@)
}

/// The lines of `s`.
pub fn split_lines(s: &[char]) -> (lines: Vec<Vec<char>>)
    ensures
        line_views(lines@) == lines_of(s@),
{
    let n = s.len();
    let mut out: Vec<Vec<char>> = Vec::new();
    let mut cur: Vec<char> = Vec::new();
    assert(s@.take(0) =~= Seq::<char>::empty());
    assert(line_views(out@).push(cur@) =~= lines_of(s@.take(0)));
    for i in 0..n
        invariant
            n == s@.len(),
            lines_of(s@.take(i as int)) == line_views(out@).push(cur@),
    {
        let ghost t = s@.take(i + 1);
        assert(t.drop_last() == s@.take(i as int));
        let c = s[i];
        if c == '\n' {
            let done = cur;
            out.push(done);
            cur = Vec::new();
            assert(line_views(out@).push(cur@) =~= lines_of(s@.take(i as int)).push(Seq::empty()));
        } else {
            let ghost before = line_views(out@);
            let ghost old_cur = cur@;
            cur.push(c);
            let ghost prev = before.push(old_cur);
            assert(prev.len() - 1 == before.len());
            assert(prev.last() == old_cur);
            assert(prev.update(before.len() as int, old_cur.push(c)) =~= before.push(cur@));
        }
    }
    assert(s@.take(n as int) == s@);
    let last = cur;
    out.push(last);
    assert(line_views(out@) =~= lines_of(s@));
    out
}

/// Whether `line` names a requirement: once trimmed, it is not empty and
/// starts with neither `'#'` (a comment) nor `'-'` (an option).
pub open spec fn is_requirement(line: Seq<char>) -> bool {
    let t = trim(line);
    t.len() > 0 && t[0] != '#' && t[0] != '-'
}

/// How many of `lines` name requirements.
pub open spec fn requirement_count(lines: Seq<Seq<char>>) -> nat
    decreases lines.len(),
{
    if lines.len() == 0 {
        0
    } else {
        requirement_count(lines.drop_last()) + if is_requirement(lines.last()) {
            1nat
        } else {
            0nat
        }
    }
}

/// Reads the lines of a `Cargo.toml` in order: a line that starts, once
/// trimmed, with `'['` opens a table, the dependency table where it is
/// exactly `[dependencies]`; within that table a line that, trimmed, is not
/// empty, is not a comment and holds `'='` names a dependency. The result is
/// whether the last table opened is the dependency table, and how many
/// dependencies were named.
pub open spec fn cargo_scan(lines: Seq<Seq<char>>) -> (bool, nat)
    decreases lines.len(),
{
    if lines.len() == 0 {
        (false, 0)
    } else {
        let (in_deps, n) = cargo_scan(lines.drop_last());
        let t = trim(lines.last());
        if t.len() > 0 && t[0] == '[' {
            (t == "[dependencies]"@, n)
        } else if in_deps && t.len() > 0 && t[0] != '#' && contains(t, seq!['=']) {
            (in_deps, n + 1)
        } else {
            (in_deps, n)
        }
    }
}

/// How many dependencies the root `package.json` lists: the members of its
/// `dependencies` object.
pub open spec fn npm_dependency_count(package_json: Option<Json>) -> nat {
    match get_key(package_json, "dependencies"@) {
        Some(Json::Object(fields)) => fields@.len(),
        _ => 0,
    }
}

/// How many dependencies the repository declares: those of the root
/// `Cargo.toml` table `[dependencies]`, the requirements of the root
/// `requirements.txt`, and the `dependencies` of the root `package.json`.
pub open spec fn dependency_total(snap: RepoSnapshot) -> nat {
    let cargo = match content_at(snap.entries@, "Cargo.toml"@) {
        Some(t) => cargo_scan(lines_of(t)).1,
        None => 0,
    };
    let pip = match content_at(snap.entries@, "requirements.txt"@) {
        Some(t) => requirement_count(lines_of(t)),
        None => 0,
    };
    cargo + pip + npm_dependency_count(snap.package_json)
}

/// How many requirements the text of a `requirements.txt` names.
pub fn count_requirements(text: &str) -> (n: usize)
    ensures
        n == requirement_count(lines_of(text@)),
{
    let lines = split_lines(&str_chars(text));
    let ghost views = line_views(lines@);
    let len = lines.len();
    let mut n: usize = 0;
    assert(views.take(0) =~= Seq::<Seq<char>>::empty());
    for k in 0..len
        invariant
            len == lines@.len(),
            views == line_views(lines@),
            n == requirement_count(views.take(k as int)),
            n <= k,
    {
        assert(views.take(k + 1).drop_last() == views.take(k as int));
        assert(views.take(k + 1).last() == lines@[k as int]@);
        let t = trim_chars(&lines[k]);
        if t.len() > 0 && t[0] != '#' && t[0] != '-' {
            n = n + 1;
        }
    }
    assert(views.take(len as int) == views);
    n
}

/// How many dependencies the `[dependencies]` table of the text of a
/// `Cargo.toml` names.
pub fn count_cargo_dependencies(text: &str) -> (n: usize)
    ensures
        n == cargo_scan(lines_of(text@)).1,
{
    let lines = split_lines(&str_chars(text));
    let ghost views = line_views(lines@);
    let header = str_chars("[dependencies]");
    let eq = vec!['='];
    assert(eq@ == seq!['=']);
    let len = lines.len();
    let mut in_deps = false;
    let mut n: usize = 0;
    assert(views.take(0) =~= Seq::<Seq<char>>::empty());
    for k in 0..len
        invariant
            len == lines@.len(),
            views == line_views(lines@),
            header@ == "[dependencies]"@,
            eq@ == seq!['='],
            (in_deps, n as nat) == cargo_scan(views.take(k as int)),
            n <= k,
    {
        assert(views.take(k + 1).drop_last() == views.take(k as int));
        assert(views.take(k + 1).last() == lines@[k as int]@);
        let t = trim_chars(&lines[k]);
        if t.len() > 0 && t[0] == '[' {
            in_deps = chars_equal(&t, &header);
        } else if in_deps && t.len() > 0 && t[0] != '#' && chars_contain(&t, &eq) {
            n = n + 1;
        }
    }
    assert(views.take(len as int) == views);
    n
}

/// How many dependencies the `package.json` `package_json` lists.
pub fn count_npm_dependencies(package_json: &Option<Json>) -> (n: usize)
    ensures
        n == npm_dependency_count(*package_json),
{
    match package_json {
        Some(j) => match json_get_key(j, "dependencies") {
            Some(Json::Object(fields)) => fields.len(),
            _ => 0,
        },
        None => 0,
    }
}

/// How many dependencies `base` declares, as a `u128`.
pub fn dependency_total_of(base: &RepoSnapshot) -> (n: u128)
    ensures
        n == dependency_total(*base),
{
    let cargo = match content_of(base, "Cargo.toml") {
        Some(t) => count_cargo_dependencies(t.as_str()),
        None => 0,
    };
    let pip = match content_of(base, "requirements.txt") {
        Some(t) => count_requirements(t.as_str()),
        None => 0,
    };
    let npm = count_npm_dependencies(&base.package_json);
    cargo as u128 + pip as u128 + npm as u128
}


/// From how many lines on a file counts as large.
pub const LARGE_FILE_LINES: usize = 300;

/// What is said of a large file of `n` lines.
pub open spec fn large_file_detail(n: nat) -> Seq<char> {
    "Archivo con "@ + decimal(n) + " líneas. Considerar dividirlo en módulos más pequeños."@
}

/// What is said of a file with pending work.
pub open spec fn pending_work_detail() -> Seq<char> {
    "Contiene comentarios TODO o FIXME pendientes."@
}

/// What is said of a file that exposes configuration.
pub open spec fn exposed_config_detail() -> Seq<char> {
    "Archivo de configuración sensible versionado. Considerar eliminarlo y añadirlo a .gitignore."@
}

/// Whether the text of `e` mentions `TODO` or `FIXME`.
pub open spec fn has_pending_work(e: PathEntry) -> bool {
    match e.content {
        Some(c) => contains(c@, "TODO"@) || contains(c@, "FIXME"@),
        None => false,
    }
}

/// Whether a file named `name` holds secrets or private configuration: an
/// environment file other than an example, a credentials or secrets file, a
/// private key, or a file with extension `pem` or `key`.
pub open spec fn is_sensitive_name(name: Seq<char>) -> bool {
    ||| name == ".env"@
    ||| name == ".env.local"@
    ||| name == ".env.production"@
    ||| name == ".env.development"@
    ||| name == "credentials.json"@
    ||| name == "secrets.json"@
    ||| name == "id_rsa"@
    ||| extension(name) == Some("pem"@)
    ||| extension(name) == Some("key"@)
}

/// A weakness as plain values: its kind, where it is, and what is said of it.
pub open spec fn smell_view(c: CodeSmell) -> (Seq<char>, Seq<char>, Seq<char>) {
    (c.kind@, c.location@, c.detail@)
}

/// The views of a list of weaknesses.
pub open spec fn smell_views(v: Seq<CodeSmell>) -> Seq<(Seq<char>, Seq<char>, Seq<char>)> {
    v.map_values(|c: CodeSmell| smell_view(c))
}

/// The weaknesses of the entry `e`, in this order: `large_file` for a file
/// of more than 300 lines, `todo` for one whose text mentions `TODO` or
/// `FIXME`, and `exposed_config` for one with a sensitive name. A directory
/// has none.
pub open spec fn entry_smells(e: PathEntry) -> Seq<(Seq<char>, Seq<char>, Seq<char>)> {
    if e.is_dir {
        Seq::empty()
    } else {
        let n = entry_lines(e);
        (if n > LARGE_FILE_LINES {
            seq![("large_file"@, e.path@, large_file_detail(n))]
        } else {
            Seq::empty()
        }) + (if has_pending_work(e) {
            seq![("todo"@, e.path@, pending_work_detail())]
        } else {
            Seq::empty()
        }) + (if is_sensitive_name(after_last(e.path@, '/')) {
            seq![("exposed_config"@, e.path@, exposed_config_detail())]
        } else {
            Seq::empty()
        })
    }
}

/// The weaknesses of the entries `es`, entry by entry.
pub open spec fn smells(es: Seq<PathEntry>) -> Seq<(Seq<char>, Seq<char>, Seq<char>)>
    decreases es.len(),
{
    if es.len() == 0 {
        Seq::empty()
    } else {
        smells(es.drop_last()) + entry_smells(es.last())
    }
}

/// Whether a file named `name` has a sensitive name.
pub fn sensitive_name(name: &[char]) -> (r: bool)
    ensures
        r == is_sensitive_name(name@),
{
    let s = string_from_chars(name);
    if s == ".env".to_owned() || s == ".env.local".to_owned() || s == ".env.production".to_owned()
        || s == ".env.development".to_owned() || s == "credentials.json".to_owned() || s
        == "secrets.json".to_owned() || s == "id_rsa".to_owned() {
        return true;
    }
    match extension_of(name) {
        Some(x) => chars_equal(&x, &str_chars("pem")) || chars_equal(&x, &str_chars("key")),
        None => false,
    }
}

/// Appends the weaknesses of `e` to `out`.
pub fn push_entry_smells(out: &mut Vec<CodeSmell>, e: &PathEntry)
    ensures
        smell_views(final(out)@) == smell_views(old(out)@) + entry_smells(*e),
{
    let ghost start = smell_views(out@);
    if e.is_dir {
        assert(smell_views(out@) =~= start + entry_smells(*e));
        return;
    }
    let n = entry_lines_of(e);
    if n > LARGE_FILE_LINES {
        let mut detail = "Archivo con ".to_owned();
        push_decimal(&mut detail, n as u64);
        detail.append(" líneas. Considerar dividirlo en módulos más pequeños.");
        out.push(CodeSmell { kind: "large_file".to_owned(), location: e.path.clone(), detail });
    }
    let ghost after_large = smell_views(out@);
    assert(after_large =~= start + (if n > LARGE_FILE_LINES {
        seq![("large_file"@, e.path@, large_file_detail(n as nat))]
    } else {
        Seq::empty()
    }));
    let pending = match &e.content {
        Some(c) => {
            let cs = str_chars(c.as_str());
            chars_contain(&cs, &str_chars("TODO")) || chars_contain(&cs, &str_chars("FIXME"))
        },
        None => false,
    };
    if pending {
        out.push(
            CodeSmell {
                kind: "todo".to_owned(),
                location: e.path.clone(),
                detail: "Contiene comentarios TODO o FIXME pendientes.".to_owned(),
            },
        );
    }
    let ghost after_pending = smell_views(out@);
    assert(after_pending =~= after_large + (if has_pending_work(*e) {
        seq![("todo"@, e.path@, pending_work_detail())]
    } else {
        Seq::empty()
    }));
    let name = after_last_chars(&str_chars(e.path.as_str()), '/');
    if sensitive_name(&name) {
        out.push(
            CodeSmell {
                kind: "exposed_config".to_owned(),
                location: e.path.clone(),
                detail: "Archivo de configuración sensible versionado. Considerar eliminarlo y añadirlo a .gitignore.".to_owned(),
            },
        );
    }
    assert(smell_views(out@) =~= after_pending + (if is_sensitive_name(after_last(e.path@, '/')) {
        seq![("exposed_config"@, e.path@, exposed_config_detail())]
    } else {
        Seq::empty()
    }));
    assert(smell_views(out@) =~= start + entry_smells(*e));
}

/// The weaknesses of `base`, entry by entry.
pub fn smells_of(base: &RepoSnapshot) -> (found: Vec<CodeSmell>)
    ensures
        smell_views(found@) == smells(base.entries@),
{
    let es = &base.entries;
    let n = es.len();
    let mut found: Vec<CodeSmell> = Vec::new();
    assert(es@.take(0) =~= Seq::<PathEntry>::empty());
    assert(smell_views(found@) =~= smells(es@.take(0)));
    for i in 0..n
        invariant
            n == es@.len(),
            smell_views(found@) == smells(es@.take(i as int)),
    {
        assert(es@.take(i + 1).drop_last() == es@.take(i as int));
        push_entry_smells(&mut found, &es[i]);
    }
    assert(es@.take(n as int) == es@);
    found
}

} // verus!
