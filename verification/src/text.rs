//! Character-level text operations with their meaning stated over `Seq<char>`.

use vstd::prelude::*;
use vstd::std_specs::iter::IteratorSpec;
use vstd::string::StringExecFns;

verus! {

broadcast use vstd::string::group_string_axioms;

/// The characters of `s`, in order.
pub fn str_chars(s: &str) -> (v: Vec<char>)
    ensures
        v@ == s@,
{
    let mut v: Vec<char> = Vec::new();
    for c in it: s.chars()
        invariant
            v@ == it.history(),
    {
        v.push(c);
    }
    v
}

/// `String::push`: the string afterwards is the string before with `c` at its end.
#[verifier::external_body]
pub(crate) fn string_push(s: &mut String, c: char)
    ensures
        final(s)@ == old(s)@.push(c),
{
    s.push(c);
}

/// Appends every character of `cs` to `out`.
pub fn push_chars(out: &mut String, cs: &[char])
    ensures
        final(out)@ == old(out)@ + cs@,
{
    let n = cs.len();
    for i in 0..n
        invariant
            n == cs@.len(),
            out@ == old(out)@ + cs@.take(i as int),
    {
        assert(cs@.take(i + 1) == cs@.take(i as int).push(cs@[i as int]));
        string_push(out, cs[i]);
    }
    assert(cs@.take(n as int) == cs@);
}

/// A string made of the characters of `cs`.
pub fn string_from_chars(cs: &[char]) -> (s: String)
    ensures
        s@ == cs@,
{
    let mut s = String::new();
    push_chars(&mut s, cs);
    s
}

/// The characters of `s` from index `a` up to, not including, `b`.
pub fn sub_chars(s: &[char], a: usize, b: usize) -> (r: Vec<char>)
    requires
        a <= b <= s@.len(),
    ensures
        r@ == s@.subrange(a as int, b as int),
{
    let mut r: Vec<char> = Vec::new();
    let mut i = a;
    while i < b
        invariant
            a <= i <= b <= s@.len(),
            r@ == s@.subrange(a as int, i as int),
        decreases b - i,
    {
        r.push(s[i]);
        i = i + 1;
    }
    r
}

/// Unicode `White_Space`, the property that `char::is_whitespace` tests.
pub open spec fn is_white_space(c: char) -> bool {
    let u = c as u32;
    ||| 0x09 <= u <= 0x0d
    ||| u == 0x20
    ||| u == 0x85
    ||| u == 0xa0
    ||| u == 0x1680
    ||| 0x2000 <= u <= 0x200a
    ||| u == 0x2028
    ||| u == 0x2029
    ||| u == 0x202f
    ||| u == 0x205f
    ||| u == 0x3000
}

/// Whether `c` is a Unicode white-space character.
pub fn is_white_space_char(c: char) -> (r: bool)
    ensures
        r == is_white_space(c),
{
    let u = c as u32;
    (0x09 <= u && u <= 0x0d) || u == 0x20 || u == 0x85 || u == 0xa0 || u == 0x1680
        || (0x2000 <= u && u <= 0x200a) || u == 0x2028 || u == 0x2029 || u == 0x202f
        || u == 0x205f || u == 0x3000
}

/// How many white-space characters `s` starts with.
pub open spec fn leading_white_space(s: Seq<char>) -> nat
    decreases s.len(),
{
    if s.len() > 0 && is_white_space(s[0]) {
        1 + leading_white_space(s.drop_first())
    } else {
        0
    }
}

/// How many white-space characters `s` ends with.
pub open spec fn trailing_white_space(s: Seq<char>) -> nat
    decreases s.len(),
{
    if s.len() > 0 && is_white_space(s.last()) {
        1 + trailing_white_space(s.drop_last())
    } else {
        0
    }
}

/// `s` without its leading white space (`str::trim_start`).
pub open spec fn trim_start(s: Seq<char>) -> Seq<char> {
    s.skip(leading_white_space(s) as int)
}

/// `s` without its trailing white space (`str::trim_end`).
pub open spec fn trim_end(s: Seq<char>) -> Seq<char> {
    s.take(s.len() - trailing_white_space(s))
}

/// `s` without leading and trailing white space (`str::trim`).
pub open spec fn trim(s: Seq<char>) -> Seq<char> {
    trim_end(trim_start(s))
}

proof fn lemma_leading_white_space(s: Seq<char>, i: int)
    requires
        0 <= i <= leading_white_space(s),
    ensures
        leading_white_space(s) == i + leading_white_space(s.skip(i)),
        leading_white_space(s) <= s.len(),
    decreases i,
{
    if i > 0 {
        lemma_leading_white_space(s.drop_first(), i - 1);
        assert(s.drop_first().skip(i - 1) == s.skip(i));
    } else {
        assert(s.skip(0) == s);
        lemma_leading_white_space_bound(s);
    }
}

proof fn lemma_leading_white_space_bound(s: Seq<char>)
    ensures
        leading_white_space(s) <= s.len(),
    decreases s.len(),
{
    if s.len() > 0 && is_white_space(s[0]) {
        lemma_leading_white_space_bound(s.drop_first());
    }
}

proof fn lemma_trailing_white_space(s: Seq<char>, i: int)
    requires
        0 <= i <= trailing_white_space(s),
    ensures
        trailing_white_space(s) == i + trailing_white_space(s.take(s.len() - i)),
        trailing_white_space(s) <= s.len(),
    decreases i,
{
    lemma_trailing_white_space_bound(s);
    if i > 0 {
        lemma_trailing_white_space(s.drop_last(), i - 1);
        assert(s.drop_last().take(s.drop_last().len() - (i - 1)) == s.take(s.len() - i));
    } else {
        assert(s.take(s.len() as int) == s);
    }
}

proof fn lemma_trailing_white_space_bound(s: Seq<char>)
    ensures
        trailing_white_space(s) <= s.len(),
    decreases s.len(),
{
    if s.len() > 0 && is_white_space(s.last()) {
        lemma_trailing_white_space_bound(s.drop_last());
    }
}

/// `s` without leading and trailing white space.
pub fn trim_chars(s: &[char]) -> (r: Vec<char>)
    ensures
        r@ == trim(s@),
{
    let n = s.len();
    let mut a: usize = 0;
    proof {
        lemma_leading_white_space(s@, 0);
    }
    while a < n && is_white_space_char(s[a])
        invariant
            n == s@.len(),
            a <= leading_white_space(s@),
            leading_white_space(s@) == a + leading_white_space(s@.skip(a as int)),
        decreases n - a,
    {
        assert(s@.skip(a as int).drop_first() == s@.skip(a + 1));
        a = a + 1;
    }
    assert(leading_white_space(s@.skip(a as int)) == 0);
    let ghost t = trim_start(s@);
    assert(t == s@.skip(a as int));
    let mut b: usize = n;
    proof {
        lemma_trailing_white_space(t, 0);
        assert(t.take(t.len() as int) == t);
    }
    while b > a && is_white_space_char(s[b - 1])
        invariant
            n == s@.len(),
            a <= b <= n,
            t == s@.skip(a as int),
            n - b <= trailing_white_space(t),
            trailing_white_space(t) == (n - b) + trailing_white_space(t.take(b - a)),
        decreases b,
    {
        assert(t.take(b - a).drop_last() == t.take(b - 1 - a));
        b = b - 1;
    }
    assert(trailing_white_space(t.take(b - a)) == 0);
    assert(trim(s@) == t.take(b - a));
    assert(t.take(b - a) == s@.subrange(a as int, b as int));
    sub_chars(s, a, b)
}


/// Whether `p` occurs in `s` starting at index `i`.
pub open spec fn occurs_at(s: Seq<char>, p: Seq<char>, i: int) -> bool {
    0 <= i && i + p.len() <= s.len() && s.subrange(i, i + p.len()) == p
}

/// `str::starts_with` with a string pattern.
pub open spec fn starts_with(s: Seq<char>, p: Seq<char>) -> bool {
    occurs_at(s, p, 0)
}

/// `str::ends_with` with a string pattern.
pub open spec fn ends_with(s: Seq<char>, p: Seq<char>) -> bool {
    occurs_at(s, p, s.len() - p.len())
}

/// `str::contains` with a string pattern.
pub open spec fn contains(s: Seq<char>, p: Seq<char>) -> bool {
    exists|i: int| occurs_at(s, p, i)
}

/// Whether `p` occurs in `s` at index `i`.
pub fn matches_at(s: &[char], p: &[char], i: usize) -> (r: bool)
    ensures
        r == occurs_at(s@, p@, i as int),
{
    if i > s.len() || p.len() > s.len() - i {
        return false;
    }
    let m = p.len();
    let mut k: usize = 0;
    while k < m
        invariant
            m == p@.len(),
            i + m <= s.len(),
            k <= m,
            forall|j: int| 0 <= j < k ==> s@[i + j] == p@[j],
        decreases m - k,
    {
        if s[i + k] != p[k] {
            assert(s@.subrange(i as int, i + m)[k as int] != p@[k as int]);
            return false;
        }
        k = k + 1;
    }
    assert(s@.subrange(i as int, i + m) =~= p@);
    true
}

/// Whether `s` begins with `p`.
pub fn chars_start_with(s: &[char], p: &[char]) -> (r: bool)
    ensures
        r == starts_with(s@, p@),
{
    matches_at(s, p, 0)
}

/// Whether `s` ends with `p`.
pub fn chars_end_with(s: &[char], p: &[char]) -> (r: bool)
    ensures
        r == ends_with(s@, p@),
{
    if p.len() > s.len() {
        false
    } else {
        matches_at(s, p, s.len() - p.len())
    }
}

/// Whether `p` occurs anywhere in `s`.
pub fn chars_contain(s: &[char], p: &[char]) -> (r: bool)
    ensures
        r == contains(s@, p@),
{
    let n = s.len();
    let mut i: usize = 0;
    while i < n
        invariant
            n == s@.len(),
            i <= n,
            forall|j: int| 0 <= j < i ==> !occurs_at(s@, p@, j),
        decreases n - i,
    {
        if matches_at(s, p, i) {
            return true;
        }
        i = i + 1;
    }
    if matches_at(s, p, n) {
        return true;
    }
    assert forall|j: int| !occurs_at(s@, p@, j) by {
        if 0 <= j && j + p@.len() <= s@.len() {
            assert(j <= n);
        }
    }
    false
}

/// `str::trim_start_matches` with a string pattern: every copy of `p` at the
/// front of `s` is removed, one after another.
pub open spec fn strip_leading(s: Seq<char>, p: Seq<char>) -> Seq<char>
    decreases s.len(),
{
    if p.len() > 0 && starts_with(s, p) {
        strip_leading(s.skip(p.len() as int), p)
    } else {
        s
    }
}

/// `str::trim_end_matches` with a string pattern: every copy of `p` at the
/// end of `s` is removed, one after another.
pub open spec fn strip_trailing(s: Seq<char>, p: Seq<char>) -> Seq<char>
    decreases s.len(),
{
    if p.len() > 0 && ends_with(s, p) {
        strip_trailing(s.take(s.len() - p.len()), p)
    } else {
        s
    }
}

/// `s` with every copy of `p` at its front removed.
pub fn strip_leading_chars(s: &[char], p: &[char]) -> (r: Vec<char>)
    ensures
        r@ == strip_leading(s@, p@),
{
    let n = s.len();
    let m = p.len();
    let mut a: usize = 0;
    assert(s@.skip(0) == s@);
    if m > 0 {
        while matches_at(s, p, a)
            invariant
                n == s@.len(),
                m == p@.len(),
                m > 0,
                a <= n,
                strip_leading(s@, p@) == strip_leading(s@.skip(a as int), p@),
            decreases n - a,
        {
            assert(s@.skip(a as int).subrange(0, m as int) == s@.subrange(a as int, a + m));
            assert(s@.skip(a as int).skip(m as int) == s@.skip(a + m));
            a = a + m;
        }
        assert(s@.skip(a as int).len() < m || s@.skip(a as int).subrange(0, m as int)
            == s@.subrange(a as int, a + m));
    } else {
        assert(s@.skip(0) == s@);
    }
    sub_chars(s, a, n)
}

/// `s` with every copy of `p` at its end removed.
pub fn strip_trailing_chars(s: &[char], p: &[char]) -> (r: Vec<char>)
    ensures
        r@ == strip_trailing(s@, p@),
{
    let n = s.len();
    let m = p.len();
    let mut b: usize = n;
    assert(s@.take(n as int) == s@);
    if m > 0 {
        while b >= m && matches_at(s, p, b - m)
            invariant
                n == s@.len(),
                m == p@.len(),
                m > 0,
                b <= n,
                strip_trailing(s@, p@) == strip_trailing(s@.take(b as int), p@),
            decreases b,
        {
            assert(s@.take(b as int).subrange(b - m, b as int) == s@.subrange(b - m, b as int));
            assert(s@.take(b as int).take(b - m) == s@.take(b - m));
            b = b - m;
        }
        assert(b < m || s@.take(b as int).subrange(b - m, b as int) == s@.subrange(b - m, b as int));
    }
    sub_chars(s, 0, b)
}

/// `str::replace` with a non-empty string pattern: the copies of `p` found
/// from left to right, without overlap, each become `r`.
pub open spec fn replace_all(s: Seq<char>, p: Seq<char>, r: Seq<char>) -> Seq<char>
    decreases s.len(),
{
    if p.len() == 0 || s.len() == 0 {
        s
    } else if starts_with(s, p) {
        r + replace_all(s.skip(p.len() as int), p, r)
    } else {
        seq![s[0]] + replace_all(s.drop_first(), p, r)
    }
}

/// `s` with each copy of `p`, found from left to right without overlap, replaced by `r`.
pub fn replace_chars(s: &[char], p: &[char], r: &[char]) -> (out: Vec<char>)
    requires
        p@.len() > 0,
    ensures
        out@ == replace_all(s@, p@, r@),
{
    let n = s.len();
    let m = p.len();
    let mut out: Vec<char> = Vec::new();
    let mut i: usize = 0;
    assert(s@.skip(0) == s@);
    while i < n
        invariant
            n == s@.len(),
            m == p@.len(),
            m > 0,
            i <= n,
            replace_all(s@, p@, r@) == out@ + replace_all(s@.skip(i as int), p@, r@),
        decreases n - i,
    {
        let ghost rest = s@.skip(i as int);
        if matches_at(s, p, i) {
            assert(rest.subrange(0, m as int) == s@.subrange(i as int, i + m));
            assert(rest.skip(m as int) == s@.skip(i + m));
            let ghost before = out@;
            let mut k: usize = 0;
            while k < r.len()
                invariant
                    k <= r@.len(),
                    out@ == before + r@.take(k as int),
                decreases r@.len() - k,
            {
                assert(r@.take(k + 1) == r@.take(k as int).push(r@[k as int]));
                out.push(r[k]);
                k = k + 1;
            }
            assert(r@.take(r@.len() as int) == r@);
            assert(out@ + replace_all(s@.skip(i + m), p@, r@) == before + (r@ + replace_all(
                rest.skip(m as int),
                p@,
                r@,
            )));
            i = i + m;
        } else {
            assert(!starts_with(rest, p@)) by {
                if rest.len() >= m {
                    assert(rest.subrange(0, m as int) == s@.subrange(i as int, i + m));
                }
            }
            assert(rest.drop_first() == s@.skip(i + 1));
            let ghost before = out@;
            out.push(s[i]);
            assert(out@ + replace_all(s@.skip(i + 1), p@, r@) == before + (seq![rest[0]]
                + replace_all(rest.drop_first(), p@, r@)));
            i = i + 1;
        }
    }
    assert(s@.skip(n as int).len() == 0);
    assert(out@ + s@.skip(n as int) == out@);
    out
}


/// How many times the character `c` occurs in `s`.
pub open spec fn char_count(s: Seq<char>, c: char) -> nat
    decreases s.len(),
{
    if s.len() == 0 {
        0
    } else {
        char_count(s.drop_last(), c) + if s.last() == c { 1nat } else { 0nat }
    }
}

proof fn lemma_char_count_bound(s: Seq<char>, c: char)
    ensures
        char_count(s, c) <= s.len(),
    decreases s.len(),
{
    if s.len() > 0 {
        lemma_char_count_bound(s.drop_last(), c);
    }
}

/// How many times `c` occurs in `s`.
pub fn count_char(s: &[char], c: char) -> (r: usize)
    ensures
        r == char_count(s@, c),
        r <= s@.len(),
{
    let n = s.len();
    let mut count: usize = 0;
    for i in 0..n
        invariant
            n == s@.len(),
            count == char_count(s@.take(i as int), c),
            count <= i,
    {
        assert(s@.take(i + 1).drop_last() == s@.take(i as int));
        if s[i] == c {
            count = count + 1;
        }
    }
    assert(s@.take(n as int) == s@);
    count
}

/// How many items `str::lines` yields: one per line ending, and one more for a
/// last line that has none.
pub open spec fn line_count(s: Seq<char>) -> nat {
    char_count(s, '\n') + if s.len() > 0 && s.last() != '\n' { 1nat } else { 0nat }
}

/// The number of lines of `s`, as `str::lines` counts them.
pub fn count_lines(s: &[char]) -> (r: usize)
    ensures
        r == line_count(s@),
{
    let n = s.len();
    let count = count_char(s, '\n');
    if n > 0 && s[n - 1] != '\n' {
        proof {
            lemma_char_count_bound(s@.drop_last(), '\n');
        }
        count + 1
    } else {
        count
    }
}

/// The digit character for `d`, which is below ten.
pub open spec fn digit_char(d: nat) -> char {
    if d == 0 {
        '0'
    } else if d == 1 {
        '1'
    } else if d == 2 {
        '2'
    } else if d == 3 {
        '3'
    } else if d == 4 {
        '4'
    } else if d == 5 {
        '5'
    } else if d == 6 {
        '6'
    } else if d == 7 {
        '7'
    } else if d == 8 {
        '8'
    } else {
        '9'
    }
}

/// The decimal representation of `n`, as `Display` writes an unsigned integer.
pub open spec fn decimal(n: nat) -> Seq<char>
    decreases n,
{
    if n < 10 {
        seq![digit_char(n)]
    } else {
        decimal(n / 10).push(digit_char(n % 10))
    }
}

fn digit(d: u64) -> (c: char)
    requires
        d < 10,
    ensures
        c == digit_char(d as nat),
{
    if d == 0 {
        '0'
    } else if d == 1 {
        '1'
    } else if d == 2 {
        '2'
    } else if d == 3 {
        '3'
    } else if d == 4 {
        '4'
    } else if d == 5 {
        '5'
    } else if d == 6 {
        '6'
    } else if d == 7 {
        '7'
    } else if d == 8 {
        '8'
    } else {
        '9'
    }
}

/// Appends the decimal representation of `n` to `out`.
pub fn push_decimal(out: &mut String, n: u64)
    ensures
        final(out)@ == old(out)@ + decimal(n as nat),
    decreases n,
{
    if n >= 10 {
        push_decimal(out, n / 10);
    }
    string_push(out, digit(n % 10));
    proof {
        if n < 10 {
            assert(n % 10 == n);
        }
    }
}

/// Whether `c` is one of `'0'` to `'9'`.
pub open spec fn is_digit(c: char) -> bool {
    '0' <= c <= '9'
}

/// The value of the digit character `c`.
pub open spec fn digit_value(c: char) -> nat {
    (c as u32 - '0' as u32) as nat
}

/// Whether every character of `s` is a digit.
pub open spec fn all_digits(s: Seq<char>) -> bool {
    forall|i: int| 0 <= i < s.len() ==> is_digit(#[trigger] s[i])
}

/// The number that the digits `s` spell in base ten.
pub open spec fn decimal_value(s: Seq<char>) -> nat
    decreases s.len(),
{
    if s.len() == 0 {
        0
    } else {
        decimal_value(s.drop_last()) * 10 + digit_value(s.last())
    }
}

/// The digits that `u64::from_str` reads: `s` without one leading `'+'`.
pub open spec fn unsigned_digits(s: Seq<char>) -> Seq<char> {
    if s.len() > 0 && s[0] == '+' {
        s.drop_first()
    } else {
        s
    }
}

/// What `s.parse::<u64>().ok()` gives: the value of the digits after an
/// optional `'+'`, where there is at least one digit, nothing else, and the
/// value fits in a `u64`.
pub open spec fn parse_u64(s: Seq<char>) -> Option<u64> {
    let d = unsigned_digits(s);
    if d.len() > 0 && all_digits(d) && decimal_value(d) <= u64::MAX {
        Some(decimal_value(d) as u64)
    } else {
        None
    }
}

proof fn lemma_decimal_value_grows(d: Seq<char>, k: int)
    requires
        0 <= k <= d.len(),
    ensures
        decimal_value(d.take(k)) <= decimal_value(d),
    decreases d.len(),
{
    if k < d.len() {
        lemma_decimal_value_grows(d.drop_last(), k);
        assert(d.drop_last().take(k) == d.take(k));
    } else {
        assert(d.take(k) == d);
    }
}

/// The unsigned number that `s` spells, as `str::parse::<u64>` reads it.
pub fn parse_u64_chars(s: &[char]) -> (r: Option<u64>)
    ensures
        r == parse_u64(s@),
{
    let n = s.len();
    let start: usize = if n > 0 && s[0] == '+' { 1 } else { 0 };
    let ghost d = unsigned_digits(s@);
    assert(d == s@.skip(start as int));
    if start >= n {
        return None;
    }
    let mut acc: u64 = 0;
    let mut i: usize = start;
    assert(d.take(0) =~= Seq::<char>::empty());
    while i < n
        invariant
            n == s@.len(),
            start <= i <= n,
            d == s@.skip(start as int),
            d == unsigned_digits(s@),
            acc == decimal_value(d.take(i - start)),
            all_digits(d.take(i - start)),
        decreases n - i,
    {
        let c = s[i];
        assert(d[i - start] == c);
        if !('0' <= c && c <= '9') {
            assert(!is_digit(d[i - start]));
            assert(!all_digits(d));
            assert(parse_u64(s@) is None);
            return None;
        }
        let v = (c as u32 - '0' as u32) as u64;
        assert(d.take(i + 1 - start).drop_last() == d.take(i - start));
        assert(decimal_value(d.take(i + 1 - start)) == acc * 10 + v);
        if acc > (u64::MAX - v) / 10 {
            assert(acc * 10 + v > u64::MAX) by (nonlinear_arith)
                requires
                    acc > (u64::MAX - v) / 10,
                    v <= 9,
            ;
            proof {
                if all_digits(d) {
                    lemma_decimal_value_grows(d, i + 1 - start);
                    assert(decimal_value(d) > u64::MAX);
                }
            }
            assert(parse_u64(s@) is None);
            return None;
        }
        assert(acc * 10 + v <= u64::MAX) by (nonlinear_arith)
            requires
                acc <= (u64::MAX - v) / 10,
                v <= 9,
        ;
        acc = acc * 10 + v;
        i = i + 1;
        assert(all_digits(d.take(i - start))) by {
            assert forall|j: int| 0 <= j < d.take(i - start).len() implies is_digit(
                #[trigger] d.take(i - start)[j],
            ) by {
                if j < i - 1 - start {
                    assert(d.take(i - start)[j] == d.take(i - 1 - start)[j]);
                }
            }
        }
    }
    assert(d.take(n - start) == d);
    Some(acc)
}

/// The first `k` characters of `s`, or all of them where it is shorter
/// (`s.chars().take(k)`).
pub open spec fn first_chars(s: Seq<char>, k: nat) -> Seq<char> {
    if s.len() <= k {
        s
    } else {
        s.take(k as int)
    }
}

/// At most the first `k` characters of `s`.
pub fn first_chars_of(s: &[char], k: usize) -> (r: Vec<char>)
    ensures
        r@ == first_chars(s@, k as nat),
{
    if s.len() <= k {
        assert(s@.subrange(0, s@.len() as int) == s@);
        sub_chars(s, 0, s.len())
    } else {
        sub_chars(s, 0, k)
    }
}


/// The part of `s` after the last `c`; all of `s` where `c` does not occur
/// (what `s.split(c).last()` yields).
pub open spec fn after_last(s: Seq<char>, c: char) -> Seq<char>
    decreases s.len(),
{
    if s.len() == 0 {
        s
    } else if s.last() == c {
        Seq::empty()
    } else {
        after_last(s.drop_last(), c).push(s.last())
    }
}

/// The characters of `s` after the last occurrence of `c`.
pub fn after_last_chars(s: &[char], c: char) -> (r: Vec<char>)
    ensures
        r@ == after_last(s@, c),
{
    let n = s.len();
    let mut b: usize = n;
    assert(s@.take(n as int) == s@);
    assert(s@.skip(n as int) =~= Seq::<char>::empty());
    while b > 0 && s[b - 1] != c
        invariant
            n == s@.len(),
            b <= n,
            after_last(s@, c) == after_last(s@.take(b as int), c) + s@.skip(b as int),
        decreases b,
    {
        let ghost t = s@.take(b as int);
        assert(t.drop_last() == s@.take(b - 1));
        assert(s@.skip(b - 1) == seq![t.last()] + s@.skip(b as int));
        assert(after_last(t, c) == after_last(s@.take(b - 1), c).push(t.last()));
        assert(after_last(s@.take(b - 1), c).push(t.last()) + s@.skip(b as int)
            == after_last(s@.take(b - 1), c) + s@.skip(b - 1));
        b = b - 1;
    }
    proof {
        if b > 0 {
            assert(s@.take(b as int).last() == c);
        } else {
            assert(s@.take(0).len() == 0);
        }
        assert(after_last(s@.take(b as int), c) =~= Seq::<char>::empty());
        assert(after_last(s@, c) =~= s@.skip(b as int));
    }
    sub_chars(s, b, n)
}

/// The strings of `parts` one after another, with `sep` between each two
/// (`[String]::join`).
pub open spec fn join(parts: Seq<Seq<char>>, sep: Seq<char>) -> Seq<char>
    decreases parts.len(),
{
    if parts.len() == 0 {
        Seq::empty()
    } else if parts.len() == 1 {
        parts[0]
    } else {
        join(parts.drop_last(), sep) + sep + parts.last()
    }
}

/// The views of the strings of `v`.
pub open spec fn string_views(v: Seq<String>) -> Seq<Seq<char>> {
    v.map_values(|s: String| s@)
}

/// Appends the strings of `parts` to `out`, with `sep` between each two.
pub fn push_joined(out: &mut String, parts: &Vec<String>, sep: &str)
    ensures
        final(out)@ == old(out)@ + join(string_views(parts@), sep@),
{
    let n = parts.len();
    let ghost views = string_views(parts@);
    assert(views.take(0) =~= Seq::<Seq<char>>::empty());
    for i in 0..n
        invariant
            n == parts@.len(),
            views == string_views(parts@),
            out@ == old(out)@ + join(views.take(i as int), sep@),
    {
        assert(views.take(i + 1).drop_last() == views.take(i as int));
        assert(views.take(i + 1).last() == parts@[i as int]@);
        if i > 0 {
            out.append(sep);
        }
        out.append(parts[i].as_str());
        proof {
            if i == 0 {
                assert(join(views.take(1), sep@) == parts@[0]@);
            }
        }
    }
    assert(views.take(n as int) == views);
}


/// Whether `a` and `b` hold the same characters.
pub fn chars_equal(a: &[char], b: &[char]) -> (r: bool)
    ensures
        r == (a@ == b@),
{
    if a.len() != b.len() {
        return false;
    }
    let r = matches_at(a, b, 0);
    assert(a@.subrange(0, a@.len() as int) == a@);
    r
}


proof fn lemma_digit_char(d: nat)
    requires
        d < 10,
    ensures
        is_digit(digit_char(d)),
        digit_value(digit_char(d)) == d,
{
}

/// The decimal representation of `n` is a non-empty run of digits that
/// spells `n`.
pub proof fn lemma_decimal_digits(n: nat)
    ensures
        decimal(n).len() > 0,
        all_digits(decimal(n)),
        decimal_value(decimal(n)) == n,
    decreases n,
{
    if n < 10 {
        lemma_digit_char(n);
        assert(decimal(n).drop_last() =~= Seq::<char>::empty());
        assert(decimal_value(Seq::<char>::empty()) == 0);
        assert(decimal(n).last() == digit_char(n));
        assert(decimal_value(decimal(n)) == decimal_value(decimal(n).drop_last()) * 10
            + digit_value(decimal(n).last()));
    } else {
        lemma_decimal_digits(n / 10);
        lemma_digit_char(n % 10);
        let d = decimal(n);
        assert(d.drop_last() == decimal(n / 10));
        assert forall|i: int| 0 <= i < d.len() implies is_digit(#[trigger] d[i]) by {
            if i < d.len() - 1 {
                assert(d[i] == decimal(n / 10)[i]);
            }
        }
        assert(d.last() == digit_char(n % 10));
        assert(decimal_value(d) == decimal_value(decimal(n / 10)) * 10 + digit_value(d.last()));
        assert((n / 10) * 10 + n % 10 == n);
    }
}

/// Reading back what `push_decimal` writes gives the number again.
pub proof fn lemma_parse_decimal(n: u64)
    ensures
        parse_u64(decimal(n as nat)) == Some(n),
{
    lemma_decimal_digits(n as nat);
    assert(is_digit(decimal(n as nat)[0]));
    assert(unsigned_digits(decimal(n as nat)) == decimal(n as nat));
}

/// Where `p` does not occur in `s`, replacing it leaves `s` as it is.
pub proof fn lemma_replace_absent(s: Seq<char>, p: Seq<char>, r: Seq<char>)
    requires
        !contains(s, p),
    ensures
        replace_all(s, p, r) == s,
    decreases s.len(),
{
    if p.len() > 0 && s.len() > 0 {
        assert(!occurs_at(s, p, 0));
        assert(!contains(s.drop_first(), p)) by {
            if contains(s.drop_first(), p) {
                let i = choose|i: int| occurs_at(s.drop_first(), p, i);
                assert(s.subrange(i + 1, i + 1 + p.len()) == s.drop_first().subrange(i, i + p.len()));
                assert(occurs_at(s, p, i + 1));
            }
        }
        lemma_replace_absent(s.drop_first(), p, r);
        assert(seq![s[0]] + s.drop_first() == s);
    }
}


/// `first_chars` keeps at most `k` characters, and they begin `s`.
pub proof fn lemma_first_chars(s: Seq<char>, k: nat)
    ensures
        first_chars(s, k).len() <= k,
        first_chars(s, k) == s.take(first_chars(s, k).len() as int),
{
    assert(s.take(s.len() as int) == s);
}


/// `after_last(s, c)` is the end of `s` that follows the last `c`, and holds
/// no `c`; where `c` occurs, the character just before it is that `c`.
pub proof fn lemma_after_last(s: Seq<char>, c: char)
    ensures
        after_last(s, c).len() <= s.len(),
        after_last(s, c) == s.skip(s.len() - after_last(s, c).len()),
        char_count(after_last(s, c), c) == 0,
        char_count(s, c) == 0 ==> after_last(s, c) == s,
        char_count(s, c) > 0 ==> after_last(s, c).len() < s.len() && s[s.len() - after_last(
            s,
            c,
        ).len() - 1] == c,
    decreases s.len(),
{
    if s.len() == 0 {
        assert(s.skip(0) == s);
    } else if s.last() == c {
        assert(s.skip(s.len() as int) =~= Seq::<char>::empty());
        assert(char_count(Seq::<char>::empty(), c) == 0);
    } else {
        let t = s.drop_last();
        lemma_after_last(t, c);
        let a = after_last(t, c);
        assert(after_last(s, c) == a.push(s.last()));
        assert(a.push(s.last()) =~= s.skip(s.len() - a.len() - 1));
        assert(a.push(s.last()).drop_last() == a);
        if char_count(s, c) > 0 {
            assert(s[s.len() - a.len() - 2] == t[t.len() - a.len() - 1]);
        } else {
            assert(t.push(s.last()) == s);
        }
    }
}

/// The part of `s` before its last `c`; empty where `c` does not occur.
pub open spec fn before_last(s: Seq<char>, c: char) -> Seq<char> {
    if char_count(s, c) == 0 {
        Seq::empty()
    } else {
        s.take(s.len() - after_last(s, c).len() - 1)
    }
}

/// The characters of `s` before its last `c`.
pub fn before_last_chars(s: &[char], c: char) -> (r: Vec<char>)
    ensures
        r@ == before_last(s@, c),
{
    let after = after_last_chars(s, c);
    proof {
        lemma_after_last(s@, c);
    }
    if count_char(s, c) == 0 {
        Vec::new()
    } else {
        sub_chars(s, 0, s.len() - after.len() - 1)
    }
}

/// Different numbers have different decimal representations.
pub proof fn lemma_decimal_injective(a: nat, b: nat)
    requires
        decimal(a) == decimal(b),
    ensures
        a == b,
{
    lemma_decimal_digits(a);
    lemma_decimal_digits(b);
}

/// A run of digits followed by `'_'` is read back off the front unambiguously.
pub proof fn lemma_digits_then_underscore(d1: Seq<char>, x: Seq<char>, d2: Seq<char>, y: Seq<char>)
    requires
        all_digits(d1),
        all_digits(d2),
        d1 + seq!['_'] + x == d2 + seq!['_'] + y,
    ensures
        d1 == d2,
        x == y,
{
    let l = d1 + seq!['_'] + x;
    let r = d2 + seq!['_'] + y;
    if d1.len() < d2.len() {
        assert(l[d1.len() as int] == '_');
        assert(r[d1.len() as int] == d2[d1.len() as int]);
        assert(is_digit(d2[d1.len() as int]));
    } else if d2.len() < d1.len() {
        assert(r[d2.len() as int] == '_');
        assert(l[d2.len() as int] == d1[d2.len() as int]);
        assert(is_digit(d1[d2.len() as int]));
    } else {
        assert(d1 =~= l.take(d1.len() as int));
        assert(d2 =~= r.take(d2.len() as int));
        assert(x =~= l.skip(d1.len() as int + 1));
        assert(y =~= r.skip(d2.len() as int + 1));
    }
}

} // verus!
