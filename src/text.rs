//! Character classes and the small scanners the grammar is built from.
use vstd::prelude::*;

verus! {

/// Relies on `String::push`, which appends one character to the end of the string.
pub assume_specification[ String::push ](s: &mut String, ch: char)
    ensures
        final(s)@ == old(s)@.push(ch),
;

/// The character classes that the scanners run over.
#[derive(Clone, Copy, PartialEq, Eq, Debug)]
pub enum CharClass {
    /// Horizontal whitespace: space or tab.
    Space,
    /// Characters of a parameter or tag name: `[A-Za-z0-9_.-]`.
    Name,
    /// Characters allowed in a shell function name.
    FnName,
    /// Characters that may appear in an unquoted default value.
    DefaultValue,
    /// Characters that may appear in an unquoted choice value.
    ChoiceValue,
    /// ASCII letters and digits.
    AsciiAlnum,
    /// The comment marker `#`.
    Hash,
    /// Anything but a line feed.
    LineChar,
}

pub open spec fn is_space(c: char) -> bool {
    c == ' ' || c == '\t'
}

pub open spec fn is_ascii_alnum(c: char) -> bool {
    ('a' <= c && c <= 'z') || ('A' <= c && c <= 'Z') || ('0' <= c && c <= '9')
}

pub open spec fn is_name_char(c: char) -> bool {
    is_ascii_alnum(c) || c == '_' || c == '-' || c == '.'
}

/// Whitespace and the characters a shell gives a meaning to.
pub open spec fn is_fn_name_stop(c: char) -> bool {
    is_whitespace(c) || c == '"' || c == '\'' || c == '`' || c == '(' || c == ')' || c == '['
        || c == ']' || c == '{' || c == '}' || c == '<' || c == '>' || c == '$' || c == '&' || c
        == '\\' || c == ';' || c == '|'
}

pub open spec fn is_fn_name_char(c: char) -> bool {
    !is_fn_name_stop(c)
}

/// A short flag character: ASCII, legal in a function name, and not a dash.
pub open spec fn is_short_char(c: char) -> bool {
    (c as u32) < 128 && is_fn_name_char(c) && c != '-'
}

/// Unicode `White_Space`, the set that trimming removes.
pub open spec fn is_whitespace(c: char) -> bool {
    let u = c as u32;
    (0x9 <= u && u <= 0xd) || u == 0x20 || u == 0x85 || u == 0xa0 || u == 0x1680 || (0x2000 <= u
        && u <= 0x200a) || u == 0x2028 || u == 0x2029 || u == 0x202f || u == 0x205f || u
        == 0x3000
}

/// An unquoted default value ends at whitespace or `#`.
pub open spec fn is_default_value_stop(c: char) -> bool {
    is_whitespace(c) || c == '#'
}

/// An unquoted choice value ends at `|` or `]`.
pub open spec fn is_choice_value_stop(c: char) -> bool {
    c == '|' || c == ']'
}

pub open spec fn in_class(c: char, k: CharClass) -> bool {
    match k {
        CharClass::Space => is_space(c),
        CharClass::Name => is_name_char(c),
        CharClass::FnName => is_fn_name_char(c),
        CharClass::DefaultValue => !is_default_value_stop(c),
        CharClass::ChoiceValue => !is_choice_value_stop(c),
        CharClass::AsciiAlnum => is_ascii_alnum(c),
        CharClass::Hash => c == '#',
        CharClass::LineChar => c != '\n',
    }
}

pub fn is_whitespace_exec(c: char) -> (r: bool)
    ensures
        r == is_whitespace(c),
{
    let u = c as u32;
    (0x9 <= u && u <= 0xd) || u == 0x20 || u == 0x85 || u == 0xa0 || u == 0x1680 || (0x2000 <= u
        && u <= 0x200a) || u == 0x2028 || u == 0x2029 || u == 0x202f || u == 0x205f || u
        == 0x3000
}

pub fn is_short_char_exec(c: char) -> (r: bool)
    ensures
        r == is_short_char(c),
{
    (c as u32) < 128 && class_has(c, CharClass::FnName) && c != '-'
}

pub fn class_has(c: char, k: CharClass) -> (r: bool)
    ensures
        r == in_class(c, k),
{
    match k {
        CharClass::Space => c == ' ' || c == '\t',
        CharClass::Name => {
            ('a' <= c && c <= 'z') || ('A' <= c && c <= 'Z') || ('0' <= c && c <= '9') || c
                == '_' || c == '-' || c == '.'
        },
        CharClass::FnName => {
            !(is_whitespace_exec(c) || c == '"' || c == '\'' || c == '`' || c == '(' || c == ')'
                || c == '[' || c == ']' || c == '{' || c == '}' || c == '<' || c == '>' || c
                == '$' || c == '&' || c == '\\' || c == ';' || c == '|')
        },
        CharClass::DefaultValue => !(is_whitespace_exec(c) || c == '#'),
        CharClass::ChoiceValue => !(c == '|' || c == ']'),
        CharClass::AsciiAlnum => {
            ('a' <= c && c <= 'z') || ('A' <= c && c <= 'Z') || ('0' <= c && c <= '9')
        },
        CharClass::Hash => c == '#',
        CharClass::LineChar => c != '\n',
    }
}

/// The first position at or after `i` whose character is outside class `k`
/// (or the end of `s`).
pub open spec fn scan(s: Seq<char>, i: int, k: CharClass) -> int
    decreases s.len() - i,
{
    if 0 <= i < s.len() && in_class(s[i], k) {
        scan(s, i + 1, k)
    } else {
        i
    }
}

pub proof fn lemma_scan_bounds(s: Seq<char>, i: int, k: CharClass)
    requires
        0 <= i <= s.len(),
    ensures
        i <= scan(s, i, k) <= s.len(),
        forall|m: int| i <= m < scan(s, i, k) ==> in_class(#[trigger] s[m], k),
        scan(s, i, k) < s.len() ==> !in_class(s[scan(s, i, k)], k),
    decreases s.len() - i,
{
    if i < s.len() && in_class(s[i], k) {
        lemma_scan_bounds(s, i + 1, k);
    }
}

/// Skips the characters of class `k` from `i` on.
pub fn scan_exec(s: &Vec<char>, i: usize, k: CharClass) -> (r: usize)
    requires
        i <= s@.len(),
    ensures
        r as int == scan(s@, i as int, k),
        i <= r <= s@.len(),
{
    let mut j: usize = i;
    while j < s.len() && class_has(s[j], k)
        invariant
            i <= j <= s@.len(),
            scan(s@, i as int, k) == scan(s@, j as int, k),
        decreases s@.len() - j,
    {
        j = j + 1;
    }
    j
}

/// Whether `s` holds the character `c` at position `i`.
pub open spec fn char_at(s: Seq<char>, i: int, c: char) -> bool {
    0 <= i < s.len() && s[i] == c
}

pub fn char_at_exec(s: &Vec<char>, i: usize, c: char) -> (r: bool)
    ensures
        r == char_at(s@, i as int, c),
{
    i < s.len() && s[i] == c
}

/// Whether `s` holds the word `w` from position `i` on.
pub open spec fn word_at(s: Seq<char>, i: int, w: Seq<char>) -> bool {
    0 <= i && i + w.len() <= s.len() && s.subrange(i, i + w.len()) == w
}

pub fn word_at_exec(s: &Vec<char>, i: usize, w: &str) -> (r: bool)
    ensures
        r == word_at(s@, i as int, w@),
{
    let wl = w.unicode_len();
    if i > s.len() || wl > s.len() - i {
        return false;
    }
    let mut k: usize = 0;
    while k < wl
        invariant
            wl == w@.len(),
            i + wl <= s@.len(),
            s@.len() <= usize::MAX,
            k <= wl,
            forall|m: int| 0 <= m < k ==> s@[i + m] == w@[m],
        decreases wl - k,
    {
        assert(i + k < s@.len());
        if s[i + k] != w.get_char(k) {
            assert(s@.subrange(i as int, i + wl)[k as int] != w@[k as int]);
            return false;
        }
        k = k + 1;
    }
    assert(s@.subrange(i as int, i + wl) =~= w@);
    true
}

/// The characters of `s` from `i` to `j`, as a `String`.
pub fn string_of(s: &Vec<char>, i: usize, j: usize) -> (r: String)
    requires
        i <= j <= s@.len(),
    ensures
        r@ == s@.subrange(i as int, j as int),
{
    let mut r = String::new();
    let mut k: usize = i;
    while k < j
        invariant
            i <= k <= j <= s@.len(),
            r@ == s@.subrange(i as int, k as int),
        decreases j - k,
    {
        r.push(s[k]);
        assert(s@.subrange(i as int, k + 1) =~= s@.subrange(i as int, k as int).push(s@[k as int]));
        k = k + 1;
    }
    r
}

/// The characters of `s`, one by one.
pub fn chars_of(s: &str) -> (r: Vec<char>)
    ensures
        r@ == s@,
{
    let n = s.unicode_len();
    let mut r: Vec<char> = Vec::new();
    let mut k: usize = 0;
    while k < n
        invariant
            n == s@.len(),
            k <= n,
            r@ == s@.subrange(0, k as int),
        decreases n - k,
    {
        r.push(s.get_char(k));
        assert(s@.subrange(0, k + 1) =~= s@.subrange(0, k as int).push(s@[k as int]));
        k = k + 1;
    }
    assert(s@.subrange(0, n as int) =~= s@);
    r
}

/// The first position in `i..j` that is not whitespace, or `j`.
pub open spec fn trim_start(s: Seq<char>, i: int, j: int) -> int
    decreases j - i,
{
    if i < j && is_whitespace(s[i]) {
        trim_start(s, i + 1, j)
    } else {
        i
    }
}

/// One past the last position in `i..j` that is not whitespace, or `i`.
pub open spec fn trim_end(s: Seq<char>, i: int, j: int) -> int
    decreases j - i,
{
    if i < j && is_whitespace(s[j - 1]) {
        trim_end(s, i, j - 1)
    } else {
        j
    }
}

/// `s[i..j]` without its leading and trailing whitespace.
pub open spec fn trimmed(s: Seq<char>, i: int, j: int) -> Seq<char> {
    let a = trim_start(s, i, j);
    s.subrange(a, trim_end(s, a, j))
}

/// `s[i..j]` trimmed of surrounding whitespace.
pub fn trimmed_exec(s: &Vec<char>, i: usize, j: usize) -> (r: String)
    requires
        i <= j <= s@.len(),
    ensures
        r@ == trimmed(s@, i as int, j as int),
{
    let mut a: usize = i;
    while a < j && is_whitespace_exec(s[a])
        invariant
            i <= a <= j <= s@.len(),
            trim_start(s@, i as int, j as int) == trim_start(s@, a as int, j as int),
        decreases j - a,
    {
        a = a + 1;
    }
    let mut b: usize = j;
    while a < b && is_whitespace_exec(s[b - 1])
        invariant
            a <= b <= j,
            j <= s@.len(),
            trim_end(s@, a as int, j as int) == trim_end(s@, a as int, b as int),
        decreases b - a,
    {
        b = b - 1;
    }
    string_of(s, a, b)
}

/// Appends the characters of `t` to `r`.
pub fn push_all(r: &mut String, t: &str)
    ensures
        final(r)@ == old(r)@ + t@,
{
    let n = t.unicode_len();
    let mut k: usize = 0;
    while k < n
        invariant
            n == t@.len(),
            k <= n,
            r@ == old(r)@ + t@.subrange(0, k as int),
        decreases n - k,
    {
        r.push(t.get_char(k));
        assert(t@.subrange(0, k + 1) =~= t@.subrange(0, k as int).push(t@[k as int]));
        k = k + 1;
    }
    assert(t@.subrange(0, n as int) =~= t@);
}

/// The pieces joined, with `sep` between each two.
pub open spec fn join(parts: Seq<Seq<char>>, sep: char) -> Seq<char>
    decreases parts.len(),
{
    if parts.len() == 0 {
        Seq::empty()
    } else if parts.len() == 1 {
        parts[0]
    } else {
        join(parts.drop_last(), sep).push(sep) + parts.last()
    }
}

pub fn join_exec(parts: &Vec<String>, sep: char) -> (r: String)
    ensures
        r@ == join(parts.deep_view(), sep),
{
    let mut r = String::new();
    let mut k: usize = 0;
    while k < parts.len()
        invariant
            k <= parts@.len(),
            r@ == join(parts.deep_view().take(k as int), sep),
        decreases parts@.len() - k,
    {
        let ghost before = parts.deep_view().take(k as int);
        if k > 0 {
            r.push(sep);
        }
        push_all(&mut r, parts[k].as_str());
        proof {
            let after = parts.deep_view().take(k + 1);
            assert(after.drop_last() =~= before);
            assert(after.last() == parts@[k as int]@);
            if k == 0 {
                assert(after.len() == 1);
            }
        }
        k = k + 1;
    }
    assert(parts.deep_view().take(parts@.len() as int) =~= parts.deep_view());
    r
}

} // verus!
