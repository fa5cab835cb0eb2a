//! Properties of the grammar that hold for every input.
use crate::driver::{
    comment_run, comment_text_start, events_from, takes_continuation, with_continuation, EventModel,
};
use crate::events::{tag_line, tag_start};
use crate::grammar::{
    assign_at, assign_fn_at, choice_value_at, default_value_at, choices_at, choices_default_at, choices_fn_at,
    dashes_at, flag_at, flag_long_at, modifier_at, more_choices_at, notation_at, notation_close,
    notations_at, option_at, option_long_at, param_at, plain_param, positional_at, quoted_at,
    quoted_body, run_at, short_at, tail_at, value_fn_at,
};
use crate::param::{
    choice_needs_quotes, choice_text, clause_text, default_needs_quotes, default_text,
    describe_parts, escape_double, flag_option_parts, fn_text, modifier_text, name_text,
    notation_text, positional_parts, render_flag_option, render_positional, FlagOptionModel,
    ParamModel, PositionalModel,
};
use crate::text::{
    char_at, in_class, is_fn_name_char, is_name_char, is_short_char, is_space, is_whitespace, join,
    lemma_scan_bounds, scan, trim_end, trim_start, trimmed, CharClass,
};
use vstd::prelude::*;

verus! {

/// Once a parameter carries a default and a choice list, the default came from
/// a `[=a|b|...]` list: it is the first choice and the parameter is not
/// required, whatever modifier was written.
pub proof fn lemma_defaulted_choices_not_required(s: Seq<char>, i: int)
    requires
        param_at(s, i) is Some,
        (param_at(s, i)->0).0.choices is Some,
        (param_at(s, i)->0).0.default is Some,
    ensures
        !(param_at(s, i)->0).0.required,
        (param_at(s, i)->0).0.default == Some(((param_at(s, i)->0).0.choices->0)[0]),
{
}

/// How much a character changes the bracket depth.
pub open spec fn bracket_step(c: char) -> int {
    if c == '<' {
        1
    } else if c == '>' {
        -1
    } else {
        0
    }
}

/// Brackets opened minus brackets closed in `s[i..j]`.
pub open spec fn bracket_balance(s: Seq<char>, i: int, j: int) -> int
    decreases j - i,
{
    if i >= j {
        0
    } else {
        bracket_step(s[i]) + bracket_balance(s, i + 1, j)
    }
}

proof fn lemma_notation_close_depth(s: Seq<char>, i: int, depth: int)
    requires
        0 <= i <= s.len(),
        depth >= 1,
    ensures
        match notation_close(s, i, depth) {
            Some(e) => i <= e < s.len() && s[e] == '>' && depth + bracket_balance(s, i, e) == 1
                && forall|m: int|
                i <= m < e ==> !(s[m] == '>' && depth + #[trigger] bracket_balance(s, i, m) == 1)
                    && depth + bracket_balance(s, i, m) >= 1,
            None => forall|m: int|
                i <= m < s.len() ==> !(s[m] == '>' && depth + #[trigger] bracket_balance(s, i, m)
                    == 1) && depth + bracket_balance(s, i, m) >= 1,
        },
    decreases s.len() - i,
{
    if i < s.len() {
        let d2 = depth + bracket_step(s[i]);
        assert(bracket_balance(s, i, i) == 0);
        if s[i] == '>' && depth <= 1 {
            assert(notation_close(s, i, depth) == Some(i));
        } else {
            assert(notation_close(s, i, depth) == notation_close(s, i + 1, d2));
            assert(d2 >= 1);
            lemma_notation_close_depth(s, i + 1, d2);
            assert forall|m: int| i < m <= s.len() implies bracket_balance(s, i, m)
                == bracket_step(s[i]) + bracket_balance(s, i + 1, m) by {}
            match notation_close(s, i, depth) {
                Some(e) => {
                    assert forall|m: int| i <= m < e implies !(s[m] == '>' && depth
                        + bracket_balance(s, i, m) == 1) && depth + bracket_balance(s, i, m)
                        >= 1 by {
                        if m > i {
                            assert(d2 + bracket_balance(s, i + 1, m) >= 1);
                        }
                    }
                },
                None => {
                    assert forall|m: int| i <= m < s.len() implies !(s[m] == '>' && depth
                        + bracket_balance(s, i, m) == 1) && depth + bracket_balance(s, i, m)
                        >= 1 by {
                        if m > i {
                            assert(d2 + bracket_balance(s, i + 1, m) >= 1);
                        }
                    }
                },
            }
        }
    }
}

/// A value notation closes at the first `>` that brings the depth, counted
/// from one for the opening `<`, back to zero: up to it the depth never drops
/// below one. Where no `>` does so, the notation is unterminated and fails.
pub proof fn lemma_notation_balanced(s: Seq<char>, i: int)
    requires
        0 <= i <= s.len(),
    ensures
        match notation_close(s, i, 1) {
            Some(e) => i <= e < s.len() && s[e] == '>' && bracket_balance(s, i, e) == 0 && forall|
                m: int,
            |
                i <= m < e ==> !(s[m] == '>' && bracket_balance(s, i, m) == 0) && bracket_balance(
                    s,
                    i,
                    m,
                ) >= 0,
            None => forall|m: int|
                i <= m < s.len() ==> !(s[m] == '>' && bracket_balance(s, i, m) == 0),
        },
{
    lemma_notation_close_depth(s, i, 1);
}

/// A line taken as a continuation is never a directive, and a line that does
/// not start with `#` (blank or code) is never a continuation.
pub proof fn lemma_continuation_is_plain_comment(l: Seq<char>)
    ensures
        comment_text_start(l) is Some ==> tag_start(l) is None && tag_line(l) is None,
        !char_at(l, 0, '#') ==> comment_text_start(l) is None,
{
    let h = scan(l, 0, CharClass::Hash);
    lemma_scan_bounds(l, 0, CharClass::Hash);
    if comment_text_start(l) is Some && h > 0 {
        lemma_scan_bounds(l, h, CharClass::Space);
        if h < l.len() && (l[h] == ' ' || l[h] == '\t') {
            assert(scan(l, h, CharClass::Space) == scan(l, h + 1, CharClass::Space));
        }
    }
}

/// Aggregation takes exactly the run of continuation lines that starts at `i`:
/// each line of it is a plain comment, and the line just after it (if any) is not.
pub proof fn lemma_continuation_stops(lines: Seq<Seq<char>>, i: int)
    requires
        0 <= i <= lines.len(),
    ensures
        i + comment_run(lines, i) <= lines.len(),
        forall|k: int|
            i <= k < i + comment_run(lines, i) ==> comment_text_start(#[trigger] lines[k]) is Some,
        i + comment_run(lines, i) < lines.len() ==> comment_text_start(
            lines[i + comment_run(lines, i)],
        ) is None,
    decreases lines.len() - i,
{
    if i < lines.len() && comment_text_start(lines[i]) is Some {
        lemma_continuation_stops(lines, i + 1);
    }
}

/// The text with a backslash put before each `q`.
pub open spec fn escape_quote(v: Seq<char>, q: char) -> Seq<char>
    decreases v.len(),
{
    if v.len() == 0 {
        Seq::empty()
    } else {
        (if v[0] == q {
            seq!['\\', q]
        } else {
            seq![v[0]]
        }) + escape_quote(v.drop_first(), q)
    }
}

/// A quoted body reads back any text without backslashes, written with each
/// matching quote escaped: the escape is removed and nothing else changes. A
/// backslash before any other character, the other quote included, is no escape.
pub proof fn lemma_quoted_unescape(s: Seq<char>, i: int, v: Seq<char>, q: char)
    requires
        q != '\\',
        0 <= i,
        i + escape_quote(v, q).len() < s.len(),
        s.subrange(i, i + escape_quote(v, q).len()) == escape_quote(v, q),
        s[i + escape_quote(v, q).len()] == q,
        forall|k: int| 0 <= k < v.len() ==> v[k] != '\\',
    ensures
        quoted_body(s, i, q) == Some((v, i + escape_quote(v, q).len())),
    decreases v.len(),
{
    let e = escape_quote(v, q);
    if v.len() > 0 {
        let rest = v.drop_first();
        let piece: Seq<char> = if v[0] == q {
            seq!['\\', q]
        } else {
            seq![v[0]]
        };
        assert(e == piece + escape_quote(rest, q));
        let n = piece.len() as int;
        assert(s[i] == e[0]);
        if v[0] == q {
            assert(s[i + 1] == e[1]);
        }
        assert(s.subrange(i + n, i + n + escape_quote(rest, q).len()) =~= escape_quote(rest, q))
            by {
            assert forall|k: int| 0 <= k < escape_quote(rest, q).len() implies s[i + n + k]
                == escape_quote(rest, q)[k] by {
                assert(s.subrange(i, i + e.len())[n + k] == e[n + k]);
            }
        }
        assert forall|k: int| 0 <= k < rest.len() implies rest[k] != '\\' by {
            assert(rest[k] == v[k + 1]);
        }
        lemma_quoted_unescape(s, i + n, rest, q);
        assert(seq![v[0]] + rest =~= v);
    } else {
        assert(e.len() == 0);
    }
}

/// A backslash inside a quoted body escapes only the quote that opened it.
pub proof fn lemma_mismatched_escape_fails(s: Seq<char>, i: int, q: char)
    requires
        0 <= i,
        i + 1 < s.len(),
        s[i] == '\\',
        s[i + 1] != q,
        q != '\\',
    ensures
        quoted_body(s, i, q) is None,
{
}

proof fn lemma_scan_stops(s: Seq<char>, i: int, j: int, k: CharClass)
    requires
        0 <= i <= j <= s.len(),
        forall|m: int| i <= m < j ==> in_class(#[trigger] s[m], k),
        j == s.len() || !in_class(s[j], k),
    ensures
        scan(s, i, k) == j,
    decreases j - i,
{
    if i < j {
        lemma_scan_stops(s, i + 1, j, k);
    }
}

proof fn lemma_balance_shift(r: Seq<char>, v: Seq<char>, o: int, a: int, m: int)
    requires
        0 <= o,
        o + v.len() <= r.len(),
        r.subrange(o, o + v.len()) == v,
        0 <= a <= m <= v.len(),
    ensures
        bracket_balance(r, o + a, o + m) == bracket_balance(v, a, m),
    decreases m - a,
{
    if a < m {
        assert(r[o + a] == r.subrange(o, o + v.len())[a]);
        lemma_balance_shift(r, v, o, a + 1, m);
    }
}

/// The text of a value notation: it closes exactly at its end.
pub open spec fn notation_text_ok(v: Seq<char>) -> bool {
    bracket_balance(v, 0, v.len() as int) == 0 && forall|m: int|
        0 <= m < v.len() ==> !(v[m] == '>' && bracket_balance(v, 0, m) == 0)
}

proof fn lemma_notation_reads_back(r: Seq<char>, v: Seq<char>, o: int)
    requires
        0 <= o,
        o + v.len() < r.len(),
        r.subrange(o, o + v.len()) == v,
        r[o + v.len()] == '>',
        notation_text_ok(v),
    ensures
        notation_close(r, o, 1) == Some(o + v.len()),
{
    let e = o + v.len();
    lemma_notation_close_depth(r, o, 1);
    assert forall|m: int| o <= m <= e implies bracket_balance(r, o, m) == bracket_balance(
        v,
        0,
        m - o,
    ) by {
        lemma_balance_shift(r, v, o, 0, m - o);
    }
    assert forall|m: int| o <= m < e implies !(r[m] == '>' && bracket_balance(r, o, m) == 0) by {
        assert(r[m] == r.subrange(o, o + v.len())[m - o]);
    }
    match notation_close(r, o, 1) {
        Some(e2) => {
            if e2 < e {
                assert(!(r[e2] == '>' && bracket_balance(r, o, e2) == 0));
            } else if e2 > e {
                assert(!(r[e] == '>' && bracket_balance(r, o, e) == 0));
            }
        },
        None => {
            assert(!(r[e] == '>' && bracket_balance(r, o, e) == 0));
        },
    }
}

proof fn lemma_trimmed_noop(s: Seq<char>, i: int, j: int)
    requires
        0 <= i < j <= s.len(),
        !is_whitespace(s[i]),
        !is_whitespace(s[j - 1]),
    ensures
        trimmed(s, i, j) == s.subrange(i, j),
{
    assert(trim_start(s, i, j) == i);
    assert(trim_end(s, i, j) == j);
}

/// What the rendering of a positional parameter holds after its name and modifier.
pub open spec fn positional_after(p: PositionalModel) -> Seq<char> {
    match p.value_name {
        Some(v) => if p.describe.len() > 0 {
            seq![' '] + notation_text(v) + seq![' '] + p.describe
        } else {
            seq![' '] + notation_text(v)
        },
        None => if p.describe.len() > 0 {
            seq![' '] + p.describe
        } else {
            Seq::empty()
        },
    }
}

proof fn lemma_render_positional_shape(p: PositionalModel)
    ensures
        render_positional(p) =~= name_text(p.data) + positional_after(p),
{
    let nm = name_text(p.data);
    let parts = positional_parts(p);
    let r = render_positional(p);
    assert(join(seq![nm], ' ') == nm);
    match p.value_name {
        Some(v) => {
            if p.describe.len() > 0 {
                let two = seq![nm, notation_text(v)];
                assert(parts =~= two.push(p.describe));
                assert(two.drop_last() =~= seq![nm]);
                assert(join(two, ' ') == nm.push(' ') + notation_text(v));
                assert(parts.drop_last() =~= two);
                assert(r == join(two, ' ').push(' ') + p.describe);
            } else {
                assert(parts =~= seq![nm, notation_text(v)]);
                assert(parts.drop_last() =~= seq![nm]);
                assert(r == nm.push(' ') + notation_text(v));
            }
        },
        None => {
            if p.describe.len() > 0 {
                assert(parts =~= seq![nm, p.describe]);
                assert(parts.drop_last() =~= seq![nm]);
                assert(r == nm.push(' ') + p.describe);
            } else {
                assert(parts =~= seq![nm]);
            }
        },
    }
}

/// The generator name in `fn_text`: one or more function-name characters.
pub open spec fn fn_name_ok(f: Seq<char>) -> bool {
    f.len() > 0 && forall|m: int| 0 <= m < f.len() ==> is_fn_name_char(#[trigger] f[m])
}

/// A choice the grammar could have read: where it needs quotes, it holds no
/// backslash, since a quoted body escapes only quotes.
pub open spec fn choice_ok(c: Seq<char>) -> bool {
    choice_needs_quotes(c) ==> forall|m: int| 0 <= m < c.len() ==> c[m] != '\\'
}

/// A parameter record the grammar could have read: a name of name characters
/// and at most one clause. A choice list is not empty and its choices are
/// valid; with a default it has two choices or more, the default is the first,
/// and the parameter is not required. A literal default or a default generator
/// comes without a modifier, and a default that needs quotes holds no backslash.
#[verifier::opaque]
pub open spec fn param_ok(d: ParamModel) -> bool {
    &&& d.name.len() > 0
    &&& forall|m: int| 0 <= m < d.name.len() ==> is_name_char(#[trigger] d.name[m])
    &&& match d.choices_fn {
        Some((f, _)) => fn_name_ok(f) && d.default is None && d.default_fn is None,
        None => true,
    }
    &&& match d.default_fn {
        Some(f) => fn_name_ok(f) && d.default is None && !d.required && !d.multiple,
        None => true,
    }
    &&& match d.choices {
        Some(cs) => {
            &&& cs.len() > 0
            &&& d.choices_fn is None
            &&& d.default_fn is None
            &&& forall|k: int| 0 <= k < cs.len() ==> choice_ok(#[trigger] cs[k])
            &&& match d.default {
                Some(v) => v == cs[0] && cs.len() >= 2 && !d.required,
                None => true,
            }
        },
        None => match d.default {
            Some(v) => !d.required && !d.multiple && (default_needs_quotes(v) ==> forall|m: int|
                0 <= m < v.len() ==> v[m] != '\\'),
            None => true,
        },
    }
}

proof fn lemma_escape_quote_push(a: Seq<char>, c: char, q: char)
    ensures
        escape_quote(a.push(c), q) == escape_quote(a, q) + (if c == q {
            seq!['\\', q]
        } else {
            seq![c]
        }),
    decreases a.len(),
{
    let v = a.push(c);
    if a.len() == 0 {
        assert(v.drop_first() =~= Seq::<char>::empty());
        assert(v[0] == c);
        assert(escape_quote(v.drop_first(), q) == Seq::<char>::empty());
        assert(escape_quote(a, q) == Seq::<char>::empty());
        assert(escape_quote(v, q) =~= escape_quote(a, q) + (if c == q {
            seq!['\\', q]
        } else {
            seq![c]
        }));
    } else {
        assert(v.drop_first() =~= a.drop_first().push(c));
        lemma_escape_quote_push(a.drop_first(), c, q);
        assert(v[0] == a[0]);
        let pa: Seq<char> = if a[0] == q {
            seq!['\\', q]
        } else {
            seq![a[0]]
        };
        let pc: Seq<char> = if c == q {
            seq!['\\', q]
        } else {
            seq![c]
        };
        assert(escape_quote(v, q) == pa + escape_quote(v.drop_first(), q));
        assert(escape_quote(a, q) == pa + escape_quote(a.drop_first(), q));
        assert(escape_quote(v, q) =~= escape_quote(a, q) + pc);
    }
}

proof fn lemma_escape_double_is_escape_quote(v: Seq<char>)
    ensures
        escape_double(v) == escape_quote(v, '"'),
    decreases v.len(),
{
    if v.len() > 0 {
        lemma_escape_double_is_escape_quote(v.drop_last());
        lemma_escape_quote_push(v.drop_last(), v.last(), '"');
        assert(v.drop_last().push(v.last()) =~= v);
    }
}

/// A generator name in backquotes reads back.
proof fn lemma_value_fn_reads_back(r: Seq<char>, k: int, f: Seq<char>)
    requires
        fn_name_ok(f),
        0 <= k,
        k + 2 + f.len() <= r.len(),
        r[k] == '`',
        r.subrange(k + 1, k + 1 + f.len()) == f,
        r[k + 1 + f.len()] == '`',
    ensures
        value_fn_at(r, k) == Some((f, k + 2 + f.len())),
{
    assert forall|m: int| k + 1 <= m < k + 1 + f.len() implies in_class(
        #[trigger] r[m],
        CharClass::FnName,
    ) by {
        assert(r[m] == r.subrange(k + 1, k + 1 + f.len())[m - k - 1]);
    }
    lemma_scan_stops(r, k + 1, k + 1 + f.len(), CharClass::FnName);
}

/// What the read-back lemmas ask of the text `r` around a rendered parameter
/// at `b`: the rendering, then a space or the end.
pub open spec fn rendered_at(r: Seq<char>, b: int, d: ParamModel) -> bool {
    &&& 0 <= b
    &&& b + name_text(d).len() <= r.len()
    &&& r.subrange(b, b + name_text(d).len()) == name_text(d)
    &&& (b + name_text(d).len() == r.len() || r[b + name_text(d).len()] == ' ')
}

/// The name and its modifier read back from the rendering, with the
/// position after them.
proof fn lemma_modifier_reads_back(r: Seq<char>, b: int, d: ParamModel)
    requires
        param_ok(d),
        0 <= b,
        b + (d.name + modifier_text(d.required, d.multiple)).len() <= r.len(),
        r.subrange(b, b + (d.name + modifier_text(d.required, d.multiple)).len()) == d.name
            + modifier_text(d.required, d.multiple),
        ({
            let e = b + (d.name + modifier_text(d.required, d.multiple)).len();
            e == r.len() || (!is_name_char(r[e]) && r[e] != '!' && r[e] != '*' && r[e] != '+')
        }),
    ensures
        run_at(r, b, CharClass::Name) == Some(b + d.name.len()),
        r.subrange(b, b + d.name.len()) == d.name,
        modifier_at(r, b) == Some(
            (
                ParamModel {
                    name: d.name,
                    required: d.required,
                    multiple: d.multiple,
                    default: None,
                    default_fn: None,
                    choices: None,
                    choices_fn: None,
                },
                b + (d.name + modifier_text(d.required, d.multiple)).len(),
            ),
        ),
{
    reveal(param_ok);
    let name = d.name;
    let nm = d.name + modifier_text(d.required, d.multiple);
    let l = nm.len() as int;
    assert forall|m: int| 0 <= m < l implies #[trigger] r[b + m] == nm[m] by {
        assert(r.subrange(b, b + l)[m] == nm[m]);
    }
    assert forall|m: int| b <= m < b + name.len() implies in_class(
        #[trigger] r[m],
        CharClass::Name,
    ) by {
        assert(r[b + (m - b)] == nm[m - b]);
    }
    if l > name.len() {
        assert(r[b + name.len()] == nm[name.len() as int]);
    }
    lemma_scan_stops(r, b, b + name.len(), CharClass::Name);
    assert(r.subrange(b, b + name.len()) =~= name);
}

/// Name, modifier and no clause read back.
#[verifier::rlimit(60)]
proof fn lemma_plain_param_reads_back(r: Seq<char>, b: int, d: ParamModel)
    requires
        param_ok(d),
        d.choices is None,
        d.choices_fn is None,
        d.default is None,
        d.default_fn is None,
        rendered_at(r, b, d),
    ensures
        param_at(r, b) == Some((d, b + name_text(d).len())),
{
    reveal(param_ok);
    let nm = name_text(d);
    let l = nm.len() as int;
    assert(clause_text(d) == Seq::<char>::empty());
    assert(nm =~= d.name + modifier_text(d.required, d.multiple));
    lemma_modifier_reads_back(r, b, d);
    if d.required || d.multiple {
        assert(r[b + d.name.len()] == nm[d.name.len() as int]);
    }
    assert(!char_at(r, b + d.name.len(), '='));
    assert(!char_at(r, b + l, '['));
}

/// A generator clause `[`f`]` or `[?`f`]` reads back.
#[verifier::rlimit(60)]
proof fn lemma_choices_fn_reads_back(r: Seq<char>, b: int, d: ParamModel)
    requires
        param_ok(d),
        d.choices_fn is Some,
        rendered_at(r, b, d),
    ensures
        param_at(r, b) == Some((d, b + name_text(d).len())),
{
    reveal(param_ok);
    let (f, validate) = d.choices_fn->0;
    let nm = name_text(d);
    let l = nm.len() as int;
    let head = d.name + modifier_text(d.required, d.multiple);
    let j = head.len() as int;
    let opener: Seq<char> = if validate {
        seq!['[']
    } else {
        seq!['[', '?']
    };
    let k = j + opener.len();
    assert(nm =~= head + opener + seq!['`'] + f + seq!['`', ']']);
    assert(l == k + 3 + f.len());
    assert forall|m: int| 0 <= m < l implies #[trigger] r[b + m] == nm[m] by {
        assert(r.subrange(b, b + l)[m] == nm[m]);
    }
    assert(r.subrange(b, b + j) =~= head);
    assert(r[b + j] == nm[j]);
    lemma_modifier_reads_back(r, b, d);
    assert(r[b + j + 1] == nm[j + 1]);
    assert(char_at(r, b + j + 1, '?') == !validate);
    assert(r[b + k] == nm[k]);
    assert(r.subrange(b + k + 1, b + k + 1 + f.len()) =~= f) by {
        assert forall|m: int| 0 <= m < f.len() implies r[b + k + 1 + m] == f[m] by {
            assert(r[b + (k + 1 + m)] == nm[k + 1 + m]);
        }
    }
    assert(r[b + k + 1 + f.len()] == nm[k + 1 + f.len()]);
    assert(r[b + k + 2 + f.len()] == nm[k + 2 + f.len()]);
    lemma_value_fn_reads_back(r, b + k, f);
    assert(choices_default_at(r, b) is None);
    assert(choices_fn_at(r, b) == Some((d, b + l)));
}

/// A default generator `=`f`` reads back.
#[verifier::rlimit(60)]
proof fn lemma_default_fn_reads_back(r: Seq<char>, b: int, d: ParamModel)
    requires
        param_ok(d),
        d.default_fn is Some,
        rendered_at(r, b, d),
    ensures
        param_at(r, b) == Some((d, b + name_text(d).len())),
{
    reveal(param_ok);
    let f = d.default_fn->0;
    let nm = name_text(d);
    let l = nm.len() as int;
    let j = d.name.len() as int;
    assert(modifier_text(d.required, d.multiple) =~= Seq::<char>::empty());
    assert(nm =~= d.name + seq!['=', '`'] + f + seq!['`']);
    assert forall|m: int| 0 <= m < l implies #[trigger] r[b + m] == nm[m] by {
        assert(r.subrange(b, b + l)[m] == nm[m]);
    }
    assert(r.subrange(b, b + j) =~= d.name + modifier_text(d.required, d.multiple));
    assert(r[b + j] == nm[j]);
    lemma_modifier_reads_back(r, b, d);
    assert(r.subrange(b + j + 2, b + j + 2 + f.len()) =~= f) by {
        assert forall|m: int| 0 <= m < f.len() implies r[b + j + 2 + m] == f[m] by {
            assert(r[b + (j + 2 + m)] == nm[j + 2 + m]);
        }
    }
    assert(r[b + j + 1] == nm[j + 1]);
    assert(r[b + j + 2 + f.len()] == nm[j + 2 + f.len()]);
    lemma_value_fn_reads_back(r, b + j + 1, f);
    assert(assign_fn_at(r, b) == Some((d, b + l)));
}

/// A literal default `=v`, quoted where it needs quotes, reads back.
#[verifier::rlimit(80)]
proof fn lemma_default_reads_back(r: Seq<char>, b: int, d: ParamModel)
    requires
        param_ok(d),
        d.choices is None,
        d.default is Some,
        rendered_at(r, b, d),
    ensures
        param_at(r, b) == Some((d, b + name_text(d).len())),
{
    reveal(param_ok);
    let v = d.default->0;
    let nm = name_text(d);
    let l = nm.len() as int;
    let j = d.name.len() as int;
    let t = default_text(v);
    assert(modifier_text(d.required, d.multiple) =~= Seq::<char>::empty());
    assert(nm =~= d.name + seq!['='] + t);
    assert forall|m: int| 0 <= m < l implies #[trigger] r[b + m] == nm[m] by {
        assert(r.subrange(b, b + l)[m] == nm[m]);
    }
    assert(r.subrange(b, b + j) =~= d.name + modifier_text(d.required, d.multiple));
    assert(r[b + j] == nm[j]);
    lemma_modifier_reads_back(r, b, d);
    if !default_needs_quotes(v) {
        assert(t == v);
        if v.len() > 0 {
            assert(r[b + j + 1] == nm[j + 1]);
        }
        assert(!char_at(r, b + j + 1, '`'));
        assert(!char_at(r, b + j + 1, '\'') && !char_at(r, b + j + 1, '"'));
        assert forall|m: int| b + j + 1 <= m < b + l implies in_class(
            #[trigger] r[m],
            CharClass::DefaultValue,
        ) by {
            assert(r[b + (m - b)] == nm[m - b]);
            assert(nm[m - b] == v[m - b - j - 1]);
        }
        lemma_scan_stops(r, b + j + 1, b + l, CharClass::DefaultValue);
        assert(r.subrange(b + j + 1, b + l) =~= v) by {
            assert forall|m: int| 0 <= m < v.len() implies r[b + j + 1 + m] == v[m] by {
                assert(r[b + (j + 1 + m)] == nm[j + 1 + m]);
            }
        }
    } else {
        let e = escape_double(v);
        lemma_escape_double_is_escape_quote(v);
        assert(t =~= seq!['"'] + e + seq!['"']);
        assert(r[b + j + 1] == nm[j + 1]);
        assert(r.subrange(b + j + 2, b + j + 2 + e.len()) =~= e) by {
            assert forall|m: int| 0 <= m < e.len() implies r[b + j + 2 + m] == e[m] by {
                assert(r[b + (j + 2 + m)] == nm[j + 2 + m]);
            }
        }
        assert(r[b + j + 2 + e.len()] == nm[j + 2 + e.len()]);
        lemma_quoted_unescape(r, b + j + 2, v, '"');
        assert(quoted_at(r, b + j + 1) == Some((v, b + l)));
    }
    assert(assign_at(r, b) == Some((d, b + l)));
}

/// A choice as rendered, followed by `|` or `]`, reads back.
#[verifier::rlimit(60)]
proof fn lemma_choice_value_reads_back(r: Seq<char>, i: int, c: Seq<char>)
    requires
        choice_ok(c),
        0 <= i,
        i + choice_text(c).len() < r.len(),
        r.subrange(i, i + choice_text(c).len()) == choice_text(c),
        r[i + choice_text(c).len()] == '|' || r[i + choice_text(c).len()] == ']',
    ensures
        choice_value_at(r, i) == Some((c, i + choice_text(c).len())),
{
    let ct = choice_text(c);
    let e = i + ct.len();
    assert forall|m: int| 0 <= m < ct.len() implies #[trigger] r[i + m] == ct[m] by {
        assert(r.subrange(i, e)[m] == ct[m]);
    }
    if !choice_needs_quotes(c) {
        assert(ct == c);
        if c.len() > 0 {
            assert(r[i] == c[0]);
        }
        assert(!char_at(r, i, '=') && !char_at(r, i, '`'));
        assert(!char_at(r, i, '\'') && !char_at(r, i, '"'));
        assert forall|m: int| i <= m < e implies in_class(
            #[trigger] r[m],
            CharClass::ChoiceValue,
        ) by {
            assert(r[i + (m - i)] == ct[m - i]);
        }
        lemma_scan_stops(r, i, e, CharClass::ChoiceValue);
        assert(r.subrange(i, e) =~= c);
    } else {
        let esc = escape_double(c);
        lemma_escape_double_is_escape_quote(c);
        assert(ct =~= seq!['"'] + esc + seq!['"']);
        assert(r[i + 0] == ct[0]);
        assert(r[i] == '"');
        assert(r.subrange(i + 1, i + 1 + esc.len()) =~= esc) by {
            assert forall|m: int| 0 <= m < esc.len() implies r[i + 1 + m] == esc[m] by {
                assert(r[i + (1 + m)] == ct[1 + m]);
            }
        }
        assert(r[i + 1 + esc.len()] == ct[1 + esc.len() as int]);
        lemma_quoted_unescape(r, i + 1, c, '"');
    }
}

proof fn lemma_join_front(xs: Seq<Seq<char>>, sep: char)
    requires
        xs.len() >= 2,
    ensures
        join(xs, sep) == xs[0] + seq![sep] + join(xs.drop_first(), sep),
    decreases xs.len(),
{
    if xs.len() == 2 {
        assert(xs.drop_last() =~= seq![xs[0]]);
        assert(xs.drop_first() =~= seq![xs[1]]);
        assert(join(xs.drop_last(), sep) == xs[0]);
        assert(join(xs.drop_first(), sep) == xs[1]);
        assert(join(xs, sep) =~= xs[0] + seq![sep] + join(xs.drop_first(), sep));
    } else {
        lemma_join_front(xs.drop_last(), sep);
        assert(xs.drop_last().drop_first() =~= xs.drop_first().drop_last());
        assert(xs.drop_first().last() == xs.last());
        assert(join(xs, sep) =~= xs[0] + seq![sep] + join(xs.drop_first(), sep));
    }
}

/// Choices as rendered, `|` between each two and `]` after them, read back:
/// the first as a choice value and the others as the list that follows it.
proof fn lemma_choice_list_reads_back(r: Seq<char>, i: int, cs: Seq<Seq<char>>)
    requires
        cs.len() >= 1,
        forall|k: int| 0 <= k < cs.len() ==> choice_ok(#[trigger] cs[k]),
        0 <= i,
        i + join(cs.map_values(|c: Seq<char>| choice_text(c)), '|').len() < r.len(),
        r.subrange(i, i + join(cs.map_values(|c: Seq<char>| choice_text(c)), '|').len())
            == join(cs.map_values(|c: Seq<char>| choice_text(c)), '|'),
        r[i + join(cs.map_values(|c: Seq<char>| choice_text(c)), '|').len()] == ']',
    ensures
        choice_value_at(r, i) == Some((cs[0], i + choice_text(cs[0]).len())),
        more_choices_at(r, i + choice_text(cs[0]).len()) == (cs.drop_first(), i + join(
            cs.map_values(|c: Seq<char>| choice_text(c)),
            '|',
        ).len()),
    decreases cs.len(),
{
    let ts = cs.map_values(|c: Seq<char>| choice_text(c));
    let t = join(ts, '|');
    let e = i + t.len();
    let c0 = cs[0];
    let n0 = choice_text(c0).len() as int;
    assert(choice_ok(cs[0]));
    if cs.len() == 1 {
        assert(t == ts[0]);
        lemma_choice_value_reads_back(r, i, c0);
        assert(cs.drop_first() =~= Seq::<Seq<char>>::empty());
    } else {
        lemma_join_front(ts, '|');
        let rest = cs.drop_first();
        let ts2 = rest.map_values(|c: Seq<char>| choice_text(c));
        assert(ts.drop_first() =~= ts2);
        let t2 = join(ts2, '|');
        assert(t == choice_text(c0) + seq!['|'] + t2);
        assert(r.subrange(i, i + n0) =~= choice_text(c0)) by {
            assert forall|m: int| 0 <= m < n0 implies r[i + m] == choice_text(c0)[m] by {
                assert(r.subrange(i, e)[m] == t[m]);
            }
        }
        assert(r[i + n0] == t[n0]);
        lemma_choice_value_reads_back(r, i, c0);
        assert(r.subrange(i + n0 + 1, i + n0 + 1 + t2.len()) =~= t2) by {
            assert forall|m: int| 0 <= m < t2.len() implies r[i + n0 + 1 + m] == t2[m] by {
                assert(r.subrange(i, e)[n0 + 1 + m] == t[n0 + 1 + m]);
            }
        }
        assert forall|k: int| 0 <= k < rest.len() implies choice_ok(#[trigger] rest[k]) by {
            assert(rest[k] == cs[k + 1]);
        }
        lemma_choice_list_reads_back(r, i + n0 + 1, rest);
        assert(seq![rest[0]] + rest.drop_first() =~= rest);
    }
}

/// A choice list `[a|b]`, or `[=a|b]` with its first choice the default, reads back.
#[verifier::rlimit(80)]
proof fn lemma_choices_reads_back(r: Seq<char>, b: int, d: ParamModel)
    requires
        param_ok(d),
        d.choices is Some,
        rendered_at(r, b, d),
    ensures
        param_at(r, b) == Some((d, b + name_text(d).len())),
{
    reveal(param_ok);
    let cs = d.choices->0;
    let nm = name_text(d);
    let l = nm.len() as int;
    let head = d.name + modifier_text(d.required, d.multiple);
    let j = head.len() as int;
    let eq: Seq<char> = if d.default is Some {
        seq!['=']
    } else {
        Seq::empty()
    };
    let ts = cs.map_values(|c: Seq<char>| choice_text(c));
    let t = join(ts, '|');
    let k = b + j + 1 + eq.len();
    assert(nm =~= head + seq!['['] + eq + t + seq![']']);
    assert forall|m: int| 0 <= m < l implies #[trigger] r[b + m] == nm[m] by {
        assert(r.subrange(b, b + l)[m] == nm[m]);
    }
    assert(r.subrange(b, b + j) =~= head);
    assert(r[b + j] == nm[j]);
    lemma_modifier_reads_back(r, b, d);
    assert(r.subrange(k, k + t.len()) =~= t) by {
        assert forall|m: int| 0 <= m < t.len() implies r[k + m] == t[m] by {
            assert(r[b + (k - b + m)] == nm[k - b + m]);
        }
    }
    assert(r[k + t.len()] == nm[k - b + t.len()]);
    lemma_choice_list_reads_back(r, k, cs);
    assert(seq![cs[0]] + cs.drop_first() =~= cs);
    if d.default is Some {
        assert(r[b + j + 1] == nm[j + 1]);
        assert(choices_default_at(r, b) == Some((d, b + l)));
    } else {
        // the list does not start like a default marker or a generator
        let c0 = cs[0];
        assert(choice_ok(cs[0]));
        if cs.len() >= 2 {
            lemma_join_front(ts, '|');
        }
        assert(r[k] == nm[k - b]);
        assert(c0.len() > 0 || choice_needs_quotes(c0));
        if choice_text(c0).len() > 0 {
            assert(t[0] == choice_text(c0)[0]);
            if !choice_needs_quotes(c0) {
                assert(choice_text(c0)[0] == c0[0]);
            }
        }
        assert(!char_at(r, k, '=') && !char_at(r, k, '?') && !char_at(r, k, '`'));
        assert(!char_at(r, k, ']'));
        assert(choices_default_at(r, b) is None);
        assert(choices_fn_at(r, b) is None);
        assert(choices_at(r, b) == Some((d, b + l)));
    }
}

/// A parameter record, as rendered, reads back.
proof fn lemma_param_reads_back(r: Seq<char>, b: int, d: ParamModel)
    requires
        param_ok(d),
        rendered_at(r, b, d),
    ensures
        param_at(r, b) == Some((d, b + name_text(d).len())),
{
    if d.choices is Some {
        lemma_choices_reads_back(r, b, d);
    } else if d.choices_fn is Some {
        lemma_choices_fn_reads_back(r, b, d);
    } else if d.default_fn is Some {
        lemma_default_fn_reads_back(r, b, d);
    } else if d.default is Some {
        lemma_default_reads_back(r, b, d);
    } else {
        lemma_plain_param_reads_back(r, b, d);
    }
}

/// A space and a trimmed description at the end of the text read back as the
/// free text of a directive.
proof fn lemma_tail_reads_back(r: Seq<char>, e: int, dsc: Seq<char>)
    requires
        0 <= e,
        dsc.len() > 0,
        !is_whitespace(dsc[0]),
        !is_whitespace(dsc.last()),
        r.len() == e + 1 + dsc.len(),
        r[e] == ' ',
        r.subrange(e + 1, r.len() as int) == dsc,
    ensures
        tail_at(r, e) == Some(dsc),
        scan(r, e, CharClass::Space) == e + 1,
{
    assert(r[e + 1] == r.subrange(e + 1, r.len() as int)[0]);
    assert(r[r.len() - 1] == r.subrange(e + 1, r.len() as int)[dsc.len() - 1]);
    lemma_scan_stops(r, e, e + 1, CharClass::Space);
    lemma_trimmed_noop(r, e + 1, r.len() as int);
}

/// A positional parameter that the grammar could have read: a valid parameter
/// record, a notation that closes at its end, and a description that is
/// trimmed and, without a notation, does not start like one.
pub open spec fn positional_ok(p: PositionalModel) -> bool {
    &&& param_ok(p.data)
    &&& match p.value_name {
        Some(v) => notation_text_ok(v),
        None => true,
    }
    &&& p.describe.len() > 0 ==> !is_whitespace(p.describe[0]) && !is_whitespace(
        p.describe.last(),
    )
    &&& (p.value_name is None && p.describe.len() > 0) ==> p.describe[0] != '<'
}

/// The three readings an `@arg` body is made of, put together.
proof fn lemma_positional_compose(
    r: Seq<char>,
    d: ParamModel,
    c: int,
    v: Option<Seq<char>>,
    e: int,
    dsc: Seq<char>,
)
    requires
        param_at(r, 0) == Some((d, c)),
        match v {
            Some(x) => notation_at(r, c) == Some((x, e)),
            None => notation_at(r, c) is None && e == c,
        },
        tail_at(r, e) == Some(dsc),
    ensures
        positional_at(r, 0) == Some(PositionalModel { data: d, describe: dsc, value_name: v }),
{
}

/// Where the pieces of `nm`, then maybe a space and `dsc`, stand.
proof fn lemma_words_shape(r: Seq<char>, nm: Seq<char>, dsc: Seq<char>)
    requires
        r == nm + if dsc.len() > 0 {
            seq![' '] + dsc
        } else {
            Seq::empty()
        },
    ensures
        r.subrange(0, nm.len() as int) == nm,
        dsc.len() > 0 ==> r.len() == nm.len() + 1 + dsc.len() && r[nm.len() as int] == ' '
            && r.subrange(nm.len() as int + 1, r.len() as int) == dsc && r[nm.len() as int + 1] == dsc[0],
        dsc.len() == 0 ==> r.len() == nm.len(),
{
    assert(r.subrange(0, nm.len() as int) =~= nm);
    if dsc.len() > 0 {
        assert(r.subrange(nm.len() as int + 1, r.len() as int) =~= dsc);
    }
}

/// A parameter with a notation and maybe a description, as rendered, read back.
#[verifier::rlimit(60)]
proof fn lemma_reads_back_with_notation(r: Seq<char>, p: PositionalModel, v: Seq<char>)
    requires
        positional_ok(p),
        p.value_name == Some(v),
        r == name_text(p.data) + positional_after(p),
    ensures
        positional_at(r, 0) == Some(p),
{
    let d = p.data;
    let nm = name_text(d);
    let l = nm.len() as int;
    let head = nm + seq![' '] + notation_text(v);
    assert(r == head + if p.describe.len() > 0 {
        seq![' '] + p.describe
    } else {
        Seq::empty()
    }) by {
        assert(r =~= head + if p.describe.len() > 0 {
            seq![' '] + p.describe
        } else {
            Seq::empty()
        });
    }
    lemma_words_shape(r, head, p.describe);
    assert(r.subrange(0, l) =~= nm) by {
        assert forall|m: int| 0 <= m < l implies r[m] == nm[m] by {
            assert(r.subrange(0, head.len() as int)[m] == head[m]);
        }
    }
    let o = l + 2;
    assert forall|m: int| 0 <= m < head.len() implies r[m] == head[m] by {
        assert(r.subrange(0, head.len() as int)[m] == head[m]);
    }
    assert(r[l] == head[l]);
    assert(r[l + 1] == head[l + 1]);
    lemma_param_reads_back(r, 0, d);
    lemma_scan_stops(r, l, l + 1, CharClass::Space);
    assert(r.subrange(o, o + v.len()) =~= v) by {
        assert forall|m: int| 0 <= m < v.len() implies r[o + m] == v[m] by {
            assert(r[o + m] == head[o + m]);
        }
    }
    assert(r[o + v.len()] == head[o + v.len()]);
    lemma_notation_reads_back(r, v, o);
    let t = o + v.len() + 1;
    assert(notation_at(r, l) == Some((v, t)));
    if p.describe.len() > 0 {
        lemma_tail_reads_back(r, t, p.describe);
    } else {
        assert(p.describe =~= Seq::<char>::empty());
        assert(t == r.len());
    }
    lemma_positional_compose(r, d, l, Some(v), t, p.describe);
}

/// A parameter without a notation, and maybe with a description, as rendered,
/// read back.
#[verifier::rlimit(60)]
proof fn lemma_reads_back_without_notation(r: Seq<char>, p: PositionalModel)
    requires
        positional_ok(p),
        p.value_name is None,
        r == name_text(p.data) + positional_after(p),
    ensures
        positional_at(r, 0) == Some(p),
{
    let d = p.data;
    let nm = name_text(d);
    let l = nm.len() as int;
    lemma_words_shape(r, nm, p.describe);
    lemma_param_reads_back(r, 0, d);
    if p.describe.len() > 0 {
        lemma_tail_reads_back(r, l, p.describe);
    } else {
        assert(p.describe =~= Seq::<char>::empty());
    }
    assert(notation_at(r, l) is None);
    lemma_positional_compose(r, d, l, None, l, p.describe);
}

/// Rendering a positional parameter that the grammar could have read, with any
/// modifier, clause, notation and description, and reading the rendering as an
/// `@arg` body, gives the same record.
pub proof fn lemma_positional_round_trip(p: PositionalModel)
    requires
        positional_ok(p),
    ensures
        positional_at(render_positional(p), 0) == Some(p),
{
    lemma_render_positional_shape(p);
    match p.value_name {
        Some(v) => lemma_reads_back_with_notation(render_positional(p), p, v),
        None => lemma_reads_back_without_notation(render_positional(p), p),
    }
}

/// The notations of an option as rendered: ` <v>` for each.
pub open spec fn notes_text(vs: Seq<Seq<char>>) -> Seq<char>
    decreases vs.len(),
{
    if vs.len() == 0 {
        Seq::empty()
    } else {
        notes_text(vs.drop_last()) + seq![' '] + notation_text(vs.last())
    }
}

proof fn lemma_notes_text_front(vs: Seq<Seq<char>>)
    requires
        vs.len() > 0,
    ensures
        notes_text(vs) == seq![' '] + notation_text(vs[0]) + notes_text(vs.drop_first()),
    decreases vs.len(),
{
    if vs.len() == 1 {
        assert(vs.drop_last() =~= Seq::<Seq<char>>::empty());
        assert(vs.drop_first() =~= Seq::<Seq<char>>::empty());
        assert(notes_text(vs) =~= seq![' '] + notation_text(vs[0]) + notes_text(vs.drop_first()));
    } else {
        lemma_notes_text_front(vs.drop_last());
        assert(vs.drop_last().drop_first() =~= vs.drop_first().drop_last());
        assert(vs.drop_first().last() == vs.last());
        assert(vs.drop_last()[0] == vs[0]);
        assert(notes_text(vs) =~= seq![' '] + notation_text(vs[0]) + notes_text(vs.drop_first()));
    }
}

/// Joining words and then notations puts each notation after a space.
proof fn lemma_join_notes(xs: Seq<Seq<char>>, vs: Seq<Seq<char>>)
    requires
        xs.len() > 0,
    ensures
        join(xs + vs.map_values(|v: Seq<char>| notation_text(v)), ' ') == join(xs, ' ')
            + notes_text(vs),
    decreases vs.len(),
{
    let ys = vs.map_values(|v: Seq<char>| notation_text(v));
    if vs.len() == 0 {
        assert(xs + ys =~= xs);
        assert(join(xs, ' ') + notes_text(vs) =~= join(xs, ' '));
    } else {
        lemma_join_notes(xs, vs.drop_last());
        let zs = xs + ys;
        assert(zs.drop_last() =~= xs + vs.drop_last().map_values(|v: Seq<char>| notation_text(v)));
        assert(zs.last() == notation_text(vs.last()));
        assert(join(zs, ' ') =~= join(xs, ' ') + notes_text(vs));
    }
}

/// Notations as rendered, followed by the end or a space and a character that
/// opens none, read back.
proof fn lemma_notes_read_back(r: Seq<char>, c: int, vs: Seq<Seq<char>>)
    requires
        0 <= c,
        c + notes_text(vs).len() <= r.len(),
        r.subrange(c, c + notes_text(vs).len()) == notes_text(vs),
        forall|k: int| 0 <= k < vs.len() ==> notation_text_ok(#[trigger] vs[k]),
        ({
            let e = c + notes_text(vs).len();
            e == r.len() || (r[e] == ' ' && e + 1 < r.len() && r[e + 1] != '<' && !is_space(
                r[e + 1],
            ))
        }),
    ensures
        notations_at(r, c) == (vs, c + notes_text(vs).len()),
    decreases vs.len(),
{
    let e = c + notes_text(vs).len();
    if vs.len() == 0 {
        if e < r.len() {
            lemma_scan_stops(r, c, c + 1, CharClass::Space);
        }
        assert(notation_at(r, c) is None);
    } else {
        lemma_notes_text_front(vs);
        let v = vs[0];
        let rest = vs.drop_first();
        let piece = seq![' '] + notation_text(v);
        let n = piece.len() as int;
        assert(notes_text(vs) == piece + notes_text(rest));
        assert(n == v.len() + 3);
        assert(r[c] == notes_text(vs)[0]);
        assert(r[c + 1] == notes_text(vs)[1]);
        lemma_scan_stops(r, c, c + 1, CharClass::Space);
        assert(r.subrange(c + 2, c + 2 + v.len()) =~= v) by {
            assert forall|m: int| 0 <= m < v.len() implies r[c + 2 + m] == v[m] by {
                assert(r[c + 2 + m] == r.subrange(c, c + notes_text(vs).len())[2 + m]);
            }
        }
        assert(r[c + 2 + v.len()] == r.subrange(c, c + notes_text(vs).len())[2 + v.len() as int]);
        lemma_notation_reads_back(r, v, c + 2);
        assert(notation_at(r, c) == Some((v, c + n)));
        assert(r.subrange(c + n, c + n + notes_text(rest).len()) =~= notes_text(rest)) by {
            assert forall|m: int| 0 <= m < notes_text(rest).len() implies r[c + n + m]
                == notes_text(rest)[m] by {
                assert(r[c + n + m] == r.subrange(c, c + notes_text(vs).len())[n + m]);
            }
        }
        assert forall|k: int| 0 <= k < rest.len() implies notation_text_ok(#[trigger] rest[k]) by {
            assert(rest[k] == vs[k + 1]);
        }
        lemma_notes_read_back(r, c + n, rest);
        assert(seq![v] + rest =~= vs);
    }
}

/// The long form of a flag or option record that the grammar could have read:
/// a valid parameter record after `--`, or after `-` where the name does not
/// start with a dash; a short form that is a short character; and no lone
/// `-c` that something follows (that reads as a short form).
pub open spec fn long_form_ok(p: FlagOptionModel) -> bool {
    &&& param_ok(p.data)
    &&& (p.dashes == seq!['-', '-'] || (p.dashes == seq!['-'] && p.data.name[0] != '-'))
    &&& match p.short {
        Some(c) => is_short_char(c),
        None => true,
    }
    &&& (p.short is None && p.dashes == seq!['-'] && name_text(p.data).len() == 1) ==> (
    p.value_names.len() == 0 && p.describe.len() == 0)
}

/// An `@option` record with a long name that the grammar could have read: a
/// valid long form, notations that close at their ends, and a trimmed
/// description that does not start like a notation.
pub open spec fn option_ok(p: FlagOptionModel) -> bool {
    &&& !p.is_flag
    &&& long_form_ok(p)
    &&& forall|k: int| 0 <= k < p.value_names.len() ==> notation_text_ok(#[trigger] p.value_names[k])
    &&& p.describe.len() > 0 ==> !is_whitespace(p.describe[0]) && !is_whitespace(
        p.describe.last(),
    ) && p.describe[0] != '<'
}

/// A `@flag` record with a long name that the grammar could have read: a valid
/// long form of a name with at most a `*`, no notations, and a trimmed description.
pub open spec fn flag_ok(p: FlagOptionModel) -> bool {
    &&& p.is_flag
    &&& long_form_ok(p)
    &&& p.data == ParamModel { multiple: p.data.multiple, ..plain_param(p.data.name) }
    &&& p.value_names.len() == 0
    &&& p.describe.len() > 0 ==> !is_whitespace(p.describe[0]) && !is_whitespace(
        p.describe.last(),
    )
}

/// What precedes the parameter in the rendering of an option with a long name.
pub open spec fn option_prefix(p: FlagOptionModel) -> Seq<char> {
    match p.short {
        Some(c) => seq!['-', c, ' '] + p.dashes,
        None => p.dashes,
    }
}

/// What follows the parameter in the rendering of an option.
pub open spec fn option_after(p: FlagOptionModel) -> Seq<char> {
    notes_text(p.value_names) + if p.describe.len() > 0 {
        seq![' '] + p.describe
    } else {
        Seq::empty()
    }
}

proof fn lemma_render_option_shape(p: FlagOptionModel)
    requires
        p.dashes.len() > 0,
    ensures
        render_flag_option(p) =~= option_prefix(p) + name_text(p.data) + option_after(p),
{
    let nm = name_text(p.data);
    let names: Seq<Seq<char>> = match p.short {
        Some(c) => seq![seq!['-', c], p.dashes + nm],
        None => seq![p.dashes + nm],
    };
    let notes = p.value_names.map_values(|v: Seq<char>| notation_text(v));
    assert(flag_option_parts(p) == names + notes + describe_parts(p.describe));
    match p.short {
        Some(c) => {
            assert(names.drop_last() =~= seq![seq!['-', c]]);
            assert(join(names.drop_last(), ' ') == seq!['-', c]);
            assert(join(names, ' ') =~= option_prefix(p) + nm);
        },
        None => {
            assert(join(names, ' ') =~= option_prefix(p) + nm);
        },
    }
    lemma_join_notes(names, p.value_names);
    if p.describe.len() > 0 {
        let all = names + notes + seq![p.describe];
        assert(all.drop_last() =~= names + notes);
        assert(join(all, ' ') =~= option_prefix(p) + nm + option_after(p));
    } else {
        assert(names + notes + describe_parts(p.describe) =~= names + notes);
    }
}

proof fn lemma_second_char_not_space(d: ParamModel)
    requires
        param_ok(d),
        name_text(d).len() > 1,
    ensures
        !is_space(name_text(d)[1]),
{
    reveal(param_ok);
    let nm = name_text(d);
    let md = modifier_text(d.required, d.multiple);
    let cl = clause_text(d);
    assert(nm == d.name + md + cl);
    if d.name.len() > 1 {
        assert(nm[1] == d.name[1]);
    } else if md.len() > 0 {
        assert(nm[1] == md[0]);
    } else {
        assert(nm[1] == cl[0]);
        assert(cl[0] == '[' || cl[0] == '=');
    }
}

/// The short form and the dashes of an option, as rendered, read back.
#[verifier::rlimit(60)]
proof fn lemma_option_prefix_reads_back(r: Seq<char>, p: FlagOptionModel)
    requires
        long_form_ok(p),
        r == option_prefix(p) + name_text(p.data) + option_after(p),
    ensures
        short_at(r, 0) == (p.short, if p.short is Some {
            2int
        } else {
            0int
        }),
        dashes_at(
            r,
            if p.short is Some {
                2int
            } else {
                0int
            },
        ) == Some((p.dashes, option_prefix(p).len() as int)),
{
    reveal(param_ok);
    let d = p.data;
    let nm = name_text(d);
    let l = nm.len() as int;
    let b = option_prefix(p).len() as int;
    match p.short {
        Some(c) => {
            assert(r[0] == '-' && r[1] == c && r[2] == ' ');
            assert(r[3] == '-');
            lemma_scan_stops(r, 2, 3, CharClass::Space);
        },
        None => {
            if p.dashes == seq!['-'] && l > 1 {
                lemma_second_char_not_space(d);
                assert(r[2] == nm[1]);
            }
            if p.dashes == seq!['-'] && l == 1 {
                assert(r.len() == 2);
            }
            assert(r[0] == '-');
            lemma_scan_stops(r, 0, 0, CharClass::Space);
        },
    }
    assert(r[b - p.dashes.len()] == '-');
    if p.dashes == seq!['-', '-'] {
        assert(r[b - 1] == '-');
    } else {
        assert(r[b] == nm[0]);
        assert(nm[0] == d.name[0]);
    }
}

/// The notations and the description of an option, as rendered, read back.
#[verifier::rlimit(60)]
proof fn lemma_option_rest_reads_back(r: Seq<char>, p: FlagOptionModel)
    requires
        option_ok(p),
        r == option_prefix(p) + name_text(p.data) + option_after(p),
    ensures
        ({
            let c = (option_prefix(p).len() + name_text(p.data).len()) as int;
            let e = c + notes_text(p.value_names).len();
            notations_at(r, c) == (p.value_names, e) && tail_at(r, e) == Some(p.describe)
        }),
{
    let c = (option_prefix(p).len() + name_text(p.data).len()) as int;
    let nt = notes_text(p.value_names);
    let e = c + nt.len();
    assert(r.subrange(c, e) =~= nt);
    if p.describe.len() > 0 {
        assert(r[e] == ' ');
        assert(r[e + 1] == p.describe[0]);
    } else {
        assert(e == r.len());
    }
    lemma_notes_read_back(r, c, p.value_names);
    if p.describe.len() > 0 {
        lemma_scan_stops(r, e, e + 1, CharClass::Space);
        assert(r[r.len() - 1] == p.describe.last());
        lemma_trimmed_noop(r, e + 1, r.len() as int);
        assert(r.subrange(e + 1, r.len() as int) =~= p.describe);
    }
}

/// The parameter of a rendered flag or option, after its prefix, read back.
#[verifier::rlimit(60)]
proof fn lemma_long_param_reads_back(r: Seq<char>, p: FlagOptionModel)
    requires
        param_ok(p.data),
        r == option_prefix(p) + name_text(p.data) + option_after(p),
    ensures
        param_at(r, option_prefix(p).len() as int) == Some(
            (p.data, (option_prefix(p).len() + name_text(p.data).len()) as int),
        ),
{
    let b = option_prefix(p).len() as int;
    let nm = name_text(p.data);
    let l = nm.len() as int;
    let after = option_after(p);
    assert(r.subrange(b, b + l) =~= nm);
    if after.len() > 0 {
        lemma_notes_after_starts_with_space(p);
        assert(r[b + l] == after[0]);
    }
    lemma_param_reads_back(r, b, p.data);
}

/// The readings an `@option` body with a long name is made of, put together.
proof fn lemma_option_compose(r: Seq<char>, p: FlagOptionModel, s0: int, b: int, c: int, e: int)
    requires
        !p.is_flag,
        short_at(r, 0) == (p.short, s0),
        dashes_at(r, s0) == Some((p.dashes, b)),
        param_at(r, b) == Some((p.data, c)),
        notations_at(r, c) == (p.value_names, e),
        tail_at(r, e) == Some(p.describe),
    ensures
        option_at(r, 0) == Some(p),
{
    assert(option_long_at(r, 0) == Some(p));
}

/// An `@option` record with a long name, as rendered, read back.
#[verifier::rlimit(60)]
proof fn lemma_option_reads_back(r: Seq<char>, p: FlagOptionModel)
    requires
        option_ok(p),
        r == option_prefix(p) + name_text(p.data) + option_after(p),
    ensures
        option_at(r, 0) == Some(p),
{
    let b = option_prefix(p).len() as int;
    let c = b + name_text(p.data).len();
    let e = c + notes_text(p.value_names).len();
    lemma_option_prefix_reads_back(r, p);
    lemma_long_param_reads_back(r, p);
    lemma_option_rest_reads_back(r, p);
    let s0: int = if p.short is Some {
        2
    } else {
        0
    };
    lemma_option_compose(r, p, s0, b, c, e);
}

/// Rendering an `@option` record with a long name that the grammar could have
/// read, with any short form, modifier, clause, notations and description, and
/// reading the rendering as an `@option` body, gives the same record.
pub proof fn lemma_option_round_trip(p: FlagOptionModel)
    requires
        option_ok(p),
    ensures
        option_at(render_flag_option(p), 0) == Some(p),
{
    lemma_render_option_shape(p);
    lemma_option_reads_back(render_flag_option(p), p);
}

proof fn lemma_notes_after_starts_with_space(p: FlagOptionModel)
    requires
        option_after(p).len() > 0,
    ensures
        option_after(p)[0] == ' ',
{
    if p.value_names.len() > 0 {
        lemma_notes_text_front(p.value_names);
    }
}

/// Rendering a `@flag` record with a long name that the grammar could have
/// read, with any short form, `*` and description, and reading the rendering
/// as a `@flag` body, gives the same record.
pub proof fn lemma_flag_round_trip(p: FlagOptionModel)
    requires
        flag_ok(p),
    ensures
        flag_at(render_flag_option(p), 0) == Some(p),
{
    lemma_render_option_shape(p);
    lemma_flag_reads_back(render_flag_option(p), p);
}

/// A `@flag` record with a long name, as rendered, read back.
#[verifier::rlimit(60)]
proof fn lemma_flag_reads_back(r: Seq<char>, p: FlagOptionModel)
    requires
        flag_ok(p),
        r == option_prefix(p) + name_text(p.data) + option_after(p),
    ensures
        flag_at(r, 0) == Some(p),
{
    let d = p.data;
    let nm = name_text(d);
    let l = nm.len() as int;
    let b = option_prefix(p).len() as int;
    let after = option_after(p);
    assert(notes_text(p.value_names) == Seq::<char>::empty());
    lemma_option_prefix_reads_back(r, p);
    assert(r.subrange(b, b + l) =~= nm);
    assert(clause_text(d) == Seq::<char>::empty());
    assert(nm =~= d.name + modifier_text(d.required, d.multiple));
    if after.len() > 0 {
        assert(r[b + l] == ' ');
    }
    lemma_modifier_reads_back(r, b, d);
    let c = b + d.name.len();
    if d.multiple {
        assert(r[c] == nm[d.name.len() as int]);
    } else if c < r.len() {
        assert(r[c] == ' ');
    }
    let e = b + l;
    if p.describe.len() > 0 {
        assert(r[e] == ' ');
        assert(r[e + 1] == p.describe[0]);
        lemma_scan_stops(r, e, e + 1, CharClass::Space);
        assert(r[r.len() - 1] == p.describe.last());
        lemma_trimmed_noop(r, e + 1, r.len() as int);
        assert(r.subrange(e + 1, r.len() as int) =~= p.describe);
    } else {
        assert(e == r.len());
    }
    assert(tail_at(r, e) == Some(p.describe));
    assert(p.value_names =~= Seq::<Seq<char>>::empty());
    assert(flag_long_at(r, 0) == Some(p));
}

/// How many lines after its own an event took as continuation.
pub open spec fn lines_taken(lines: Seq<Seq<char>>, ev: EventModel) -> int {
    if takes_continuation(ev.data) {
        comment_run(lines, ev.position) as int
    } else {
        0
    }
}

/// The events read from line `i` on stand after it, in order, and each next
/// event stands after the lines the one before it took as continuation: a
/// line taken into a description is never read again as an event.
pub proof fn lemma_taken_lines_not_read_again(lines: Seq<Seq<char>>, i: int)
    requires
        0 <= i,
    ensures
        events_from(lines, i) is Ok ==> {
            let evs = events_from(lines, i)->Ok_0;
            &&& forall|k: int| 0 <= k < evs.len() ==> #[trigger] evs[k].position > i
            &&& forall|k: int|
                0 <= k < evs.len() - 1 ==> #[trigger] evs[k + 1].position > evs[k].position
                    + lines_taken(lines, evs[k])
        },
    decreases lines.len() - i,
{
    if i < lines.len() {
        match crate::events::line_at(lines[i]) {
            None => {
                lemma_taken_lines_not_read_again(lines, i + 1);
            },
            Some(None) => {},
            Some(Some(d)) => {
                let n: int = if takes_continuation(d) {
                    comment_run(lines, i + 1) as int
                } else {
                    0
                };
                if i + 1 + n <= lines.len() {
                    lemma_taken_lines_not_read_again(lines, i + 1 + n);
                    let data = if takes_continuation(d) {
                        with_continuation(d, lines, i + 1)
                    } else {
                        d
                    };
                    let ev = EventModel { data, position: i + 1 };
                    assert(takes_continuation(data) == takes_continuation(d));
                    assert(lines_taken(lines, ev) == n);
                    match events_from(lines, i + 1 + n) {
                        Ok(rest) => {
                            let evs = seq![ev] + rest;
                            assert(events_from(lines, i) == Ok::<Seq<EventModel>, int>(evs));
                            assert forall|k: int| 0 <= k < evs.len() implies #[trigger] evs[k].position
                                > i by {
                                if k > 0 {
                                    assert(evs[k] == rest[k - 1]);
                                }
                            }
                            assert forall|k: int| 0 <= k < evs.len() - 1 implies #[trigger] evs[k
                                + 1].position > evs[k].position + lines_taken(lines, evs[k]) by {
                                assert(evs[k + 1] == rest[k]);
                                assert(rest[k].position > i + 1 + n);
                                if k > 0 {
                                    assert(evs[k] == rest[k - 1]);
                                    assert(rest[(k - 1) + 1].position > rest[k - 1].position
                                        + lines_taken(lines, rest[k - 1]));
                                }
                            }
                        },
                        Err(_) => {},
                    }
                }
            },
        }
    }
}

proof fn lemma_run_chars(s: Seq<char>, i: int, k: CharClass)
    requires
        0 <= i <= s.len(),
        run_at(s, i, k) is Some,
    ensures
        i < run_at(s, i, k)->0 <= s.len(),
        forall|m: int|
            0 <= m < run_at(s, i, k)->0 - i ==> in_class(
                #[trigger] s.subrange(i, run_at(s, i, k)->0)[m],
                k,
            ),
{
    lemma_scan_bounds(s, i, k);
    let j = run_at(s, i, k)->0;
    assert forall|m: int| 0 <= m < j - i implies in_class(#[trigger] s.subrange(i, j)[m], k) by {
        assert(s.subrange(i, j)[m] == s[i + m]);
    }
}

proof fn lemma_value_fn_ok(s: Seq<char>, i: int)
    requires
        0 <= i <= s.len(),
        value_fn_at(s, i) is Some,
    ensures
        fn_name_ok((value_fn_at(s, i)->0).0),
{
    lemma_run_chars(s, i + 1, CharClass::FnName);
}

/// The choices and the default that a parameter record holds could be written
/// in quotes: where one needs quotes, it holds no backslash.
pub open spec fn values_quotable(d: ParamModel) -> bool {
    &&& match d.choices {
        Some(cs) => forall|k: int| 0 <= k < cs.len() ==> choice_ok(#[trigger] cs[k]),
        None => true,
    }
    &&& match d.default {
        Some(v) => d.choices is None ==> (default_needs_quotes(v) ==> forall|m: int|
            0 <= m < v.len() ==> v[m] != '\\'),
        None => true,
    }
}

/// What the grammar reads as a parameter is a valid record, as far as its
/// values can be written in quotes.
#[verifier::rlimit(80)]
pub proof fn lemma_param_read_is_ok(s: Seq<char>, i: int)
    requires
        0 <= i <= s.len(),
        param_at(s, i) is Some,
        values_quotable((param_at(s, i)->0).0),
    ensures
        param_ok((param_at(s, i)->0).0),
        run_at(s, i, CharClass::Name) is Some,
        (param_at(s, i)->0).0.name == s.subrange(i, run_at(s, i, CharClass::Name)->0),
{
    reveal(param_ok);
    let d = (param_at(s, i)->0).0;
    lemma_run_chars(s, i, CharClass::Name);
    let j = run_at(s, i, CharClass::Name)->0;
    assert forall|m: int| 0 <= m < d.name.len() implies is_name_char(#[trigger] d.name[m]) by {
        assert(d.name == s.subrange(i, j));
        assert(in_class(s.subrange(i, j)[m], CharClass::Name));
    }
    if choices_default_at(s, i) is Some {
    } else if choices_fn_at(s, i) is Some {
        let (md, j2) = modifier_at(s, i)->0;
        let k = if char_at(s, j2 + 1, '?') {
            j2 + 2
        } else {
            j2 + 1
        };
        lemma_scan_bounds(s, i, CharClass::Name);
        if k <= s.len() {
            lemma_value_fn_ok(s, k);
        }
    } else if choices_at(s, i) is Some {
    } else if assign_fn_at(s, i) is Some {
        lemma_scan_bounds(s, i, CharClass::Name);
        lemma_value_fn_ok(s, j + 1);
    }
}

proof fn lemma_trim_start_stops(s: Seq<char>, i: int, j: int)
    requires
        0 <= i <= j <= s.len(),
    ensures
        i <= trim_start(s, i, j) <= j,
        trim_start(s, i, j) < j ==> !is_whitespace(s[trim_start(s, i, j)]),
    decreases j - i,
{
    if i < j && is_whitespace(s[i]) {
        lemma_trim_start_stops(s, i + 1, j);
    }
}

proof fn lemma_trim_end_stops(s: Seq<char>, i: int, j: int)
    requires
        0 <= i <= j <= s.len(),
    ensures
        i <= trim_end(s, i, j) <= j,
        trim_end(s, i, j) > i ==> !is_whitespace(s[trim_end(s, i, j) - 1]),
    decreases j - i,
{
    if i < j && is_whitespace(s[j - 1]) {
        lemma_trim_end_stops(s, i, j - 1);
    }
}

/// Trimmed text starts and ends with a character that is not whitespace.
proof fn lemma_trimmed_ends(s: Seq<char>, i: int, j: int)
    requires
        0 <= i <= j <= s.len(),
    ensures
        trimmed(s, i, j).len() > 0 ==> !is_whitespace(trimmed(s, i, j)[0]) && !is_whitespace(
            trimmed(s, i, j).last(),
        ),
{
    let a = trim_start(s, i, j);
    lemma_trim_start_stops(s, i, j);
    lemma_trim_end_stops(s, a, j);
    let b = trim_end(s, a, j);
    if b > a {
        assert(trimmed(s, i, j)[0] == s[a]);
        assert(trimmed(s, i, j).last() == s[b - 1]);
    }
}

proof fn lemma_tail_read_is_trimmed(s: Seq<char>, e: int)
    requires
        0 <= e,
        tail_at(s, e) is Some,
    ensures
        (tail_at(s, e)->0).len() > 0 ==> !is_whitespace((tail_at(s, e)->0)[0]) && !is_whitespace(
            (tail_at(s, e)->0).last(),
        ),
{
    if e < s.len() {
        lemma_scan_bounds(s, e, CharClass::Space);
        lemma_trimmed_ends(s, scan(s, e, CharClass::Space), s.len() as int);
    }
}

/// The text of a notation the grammar reads closes exactly at its end.
proof fn lemma_notation_read_is_ok(s: Seq<char>, i: int)
    requires
        0 <= i,
        notation_at(s, i) is Some,
    ensures
        notation_text_ok((notation_at(s, i)->0).0),
{
    let a = scan(s, i, CharClass::Space);
    lemma_scan_ge(s, i, CharClass::Space);
    let e = notation_close(s, a + 1, 1)->0;
    lemma_notation_close_depth(s, a + 1, 1);
    let v = s.subrange(a + 1, e);
    assert(v == (notation_at(s, i)->0).0);
    assert forall|m: int| 0 <= m <= v.len() implies bracket_balance(s, a + 1, a + 1 + m)
        == bracket_balance(v, 0, m) by {
        lemma_balance_shift(s, v, a + 1, 0, m);
    }
    assert(bracket_balance(v, 0, v.len() as int) == bracket_balance(s, a + 1, e));
    assert forall|m: int| 0 <= m < v.len() implies !(v[m] == '>' && bracket_balance(v, 0, m)
        == 0) by {
        assert(v[m] == s[a + 1 + m]);
        assert(bracket_balance(s, a + 1, a + 1 + m) == bracket_balance(v, 0, m));
    }
}

proof fn lemma_param_read_is_ok_from(s: Seq<char>, i: int)
    requires
        0 <= i,
        param_at(s, i) is Some,
        values_quotable((param_at(s, i)->0).0),
    ensures
        param_ok((param_at(s, i)->0).0),
        i <= s.len(),
        run_at(s, i, CharClass::Name) is Some,
        (param_at(s, i)->0).0.name == s.subrange(i, run_at(s, i, CharClass::Name)->0),
{
    if i <= s.len() {
        lemma_param_read_is_ok(s, i);
    } else {
        assert(run_at(s, i, CharClass::Name) is None);
    }
}

/// Rendering a positional parameter that the grammar read from `@arg` text,
/// and reading the rendering, gives the same record, where its values can be
/// written in quotes and, without a notation, its description does not start
/// with `<`.
pub proof fn lemma_read_positional_round_trip(s: Seq<char>)
    requires
        positional_at(s, 0) is Some,
        values_quotable((positional_at(s, 0)->0).data),
        (positional_at(s, 0)->0).value_name is None && (positional_at(s, 0)->0).describe.len()
            > 0 ==> (positional_at(s, 0)->0).describe[0] != '<',
    ensures
        positional_at(render_positional(positional_at(s, 0)->0), 0) == positional_at(s, 0),
{
    let p = positional_at(s, 0)->0;
    let (d, c) = param_at(s, 0)->0;
    lemma_param_ends_after(s, 0);
    lemma_param_read_is_ok_from(s, 0);
    let e = match notation_at(s, c) {
        Some((v, e)) => {
            lemma_notation_read_is_ok(s, c);
            e
        },
        None => c,
    };
    lemma_notation_ends_after(s, c);
    lemma_tail_read_is_trimmed(s, e);
    assert(positional_ok(p));
    lemma_positional_round_trip(p);
}

proof fn lemma_scan_ge(s: Seq<char>, i: int, k: CharClass)
    requires
        0 <= i,
    ensures
        scan(s, i, k) >= i,
    decreases s.len() - i,
{
    if i < s.len() && in_class(s[i], k) {
        lemma_scan_ge(s, i + 1, k);
    }
}

proof fn lemma_quoted_body_ge(s: Seq<char>, i: int, q: char)
    requires
        0 <= i,
    ensures
        quoted_body(s, i, q) is Some ==> (quoted_body(s, i, q)->0).1 >= i,
    decreases s.len() - i,
{
    if 0 <= i < s.len() && s[i] != q {
        if s[i] == '\\' {
            if i + 1 < s.len() && s[i + 1] == q {
                lemma_quoted_body_ge(s, i + 2, q);
            }
        } else {
            lemma_quoted_body_ge(s, i + 1, q);
        }
    }
}

proof fn lemma_choice_value_ge(s: Seq<char>, i: int)
    requires
        0 <= i,
    ensures
        choice_value_at(s, i) is Some ==> (choice_value_at(s, i)->0).1 >= i,
        default_value_at(s, i).1 >= i,
        value_fn_at(s, i) is Some ==> (value_fn_at(s, i)->0).1 >= i,
{
    lemma_quoted_body_ge(s, i + 1, s[i]);
    lemma_scan_ge(s, i, CharClass::ChoiceValue);
    lemma_scan_ge(s, i, CharClass::DefaultValue);
}

proof fn lemma_more_choices_ge(s: Seq<char>, i: int)
    requires
        0 <= i,
    ensures
        more_choices_at(s, i).1 >= i,
    decreases s.len() - i,
{
    if 0 <= i < s.len() && s[i] == '|' {
        lemma_choice_value_ge(s, i + 1);
        match choice_value_at(s, i + 1) {
            Some((v, j)) => if i < j <= s.len() {
                lemma_more_choices_ge(s, j);
            },
            None => {},
        }
    }
}

/// A parameter read from `i` ends at or after `i`.
proof fn lemma_param_ends_after(s: Seq<char>, i: int)
    requires
        0 <= i,
        param_at(s, i) is Some,
    ensures
        (param_at(s, i)->0).1 >= i,
{
    lemma_scan_ge(s, i, CharClass::Name);
    let j = scan(s, i, CharClass::Name);
    lemma_choice_value_ge(s, j + 1);
    lemma_choice_value_ge(s, j + 2);
    lemma_choice_value_ge(s, j + 3);
    match modifier_at(s, i) {
        Some((d, j2)) => {
            lemma_choice_value_ge(s, j2 + 1);
            lemma_choice_value_ge(s, j2 + 2);
            match choice_value_at(s, j2 + 1) {
                Some((h, k)) => lemma_more_choices_ge(s, k),
                None => {},
            }
            match choice_value_at(s, j2 + 2) {
                Some((h, k)) => lemma_more_choices_ge(s, k),
                None => {},
            }
        },
        None => {},
    }
}

proof fn lemma_notation_ends_after(s: Seq<char>, i: int)
    requires
        0 <= i,
    ensures
        notation_at(s, i) is Some ==> i <= (notation_at(s, i)->0).1 <= s.len(),
{
    lemma_scan_ge(s, i, CharClass::Space);
    let a = scan(s, i, CharClass::Space);
    if char_at(s, a, '<') {
        lemma_notation_close_depth(s, a + 1, 1);
    }
}

proof fn lemma_notations_read_ok(s: Seq<char>, i: int)
    requires
        0 <= i,
    ensures
        notations_at(s, i).1 >= i,
        forall|k: int|
            0 <= k < notations_at(s, i).0.len() ==> notation_text_ok(
                #[trigger] notations_at(s, i).0[k],
            ),
    decreases s.len() - i,
{
    match notation_at(s, i) {
        Some((v, j)) => if i < j <= s.len() {
            lemma_notation_read_is_ok(s, i);
            lemma_notations_read_ok(s, j);
            let vs = notations_at(s, j).0;
            assert forall|k: int| 0 <= k < notations_at(s, i).0.len() implies notation_text_ok(
                #[trigger] notations_at(s, i).0[k],
            ) by {
                assert(notations_at(s, i).0 == seq![v] + vs);
                if k > 0 {
                    assert(notations_at(s, i).0[k] == vs[k - 1]);
                }
            }
        },
        None => {},
    }
}

/// Rendering an `@option` record that the grammar read with a long name, and
/// reading the rendering, gives the same record, where its values can be
/// written in quotes, its description does not start with `<`, and it is no
/// lone `-c` glued to a notation (which reads back as a short form).
#[verifier::rlimit(80)]
pub proof fn lemma_read_option_round_trip(s: Seq<char>)
    requires
        option_long_at(s, 0) is Some,
        values_quotable((option_long_at(s, 0)->0).data),
        (option_long_at(s, 0)->0).describe.len() > 0 ==> (option_long_at(s, 0)->0).describe[0]
            != '<',
        ({
            let p = option_long_at(s, 0)->0;
            (p.short is None && p.dashes == seq!['-'] && name_text(p.data).len() == 1) ==> (
            p.value_names.len() == 0 && p.describe.len() == 0)
        }),
    ensures
        option_at(render_flag_option(option_long_at(s, 0)->0), 0) == option_at(s, 0),
{
    let p = option_long_at(s, 0)->0;
    let (short, a) = short_at(s, 0);
    let a2 = scan(s, a, CharClass::Space);
    lemma_scan_ge(s, a, CharClass::Space);
    let (dashes, b) = dashes_at(s, a)->0;
    lemma_param_read_is_ok_from(s, b);
    lemma_param_ends_after(s, b);
    let c = (param_at(s, b)->0).1;
    lemma_notations_read_ok(s, c);
    let e = notations_at(s, c).1;
    lemma_tail_read_is_trimmed(s, e);
    reveal(param_ok);
    if dashes == seq!['-'] {
        assert(b == a2 + 1);
        assert(!char_at(s, a2 + 1, '-'));
        lemma_run_chars(s, b, CharClass::Name);
        assert(p.data.name[0] == s[b]);
    }
    assert(long_form_ok(p));
    assert(option_ok(p));
    lemma_option_round_trip(p);
}

/// Rendering a `@flag` record that the grammar read with a long name, and
/// reading the rendering, gives the same record, where it is no lone `-c`
/// after leading spaces with a description (which reads back as a short form).
#[verifier::rlimit(80)]
pub proof fn lemma_read_flag_round_trip(s: Seq<char>)
    requires
        flag_long_at(s, 0) is Some,
        ({
            let p = flag_long_at(s, 0)->0;
            (p.short is None && p.dashes == seq!['-'] && name_text(p.data).len() == 1) ==> (
            p.value_names.len() == 0 && p.describe.len() == 0)
        }),
    ensures
        flag_at(render_flag_option(flag_long_at(s, 0)->0), 0) == flag_at(s, 0),
{
    let p = flag_long_at(s, 0)->0;
    let (short, a) = short_at(s, 0);
    let a2 = scan(s, a, CharClass::Space);
    lemma_scan_ge(s, a, CharClass::Space);
    let (dashes, b) = dashes_at(s, a)->0;
    lemma_run_chars(s, b, CharClass::Name);
    let c = run_at(s, b, CharClass::Name)->0;
    let e = if char_at(s, c, '*') {
        c + 1
    } else {
        c
    };
    lemma_tail_read_is_trimmed(s, e);
    reveal(param_ok);
    assert forall|m: int| 0 <= m < p.data.name.len() implies is_name_char(
        #[trigger] p.data.name[m],
    ) by {
        assert(in_class(s.subrange(b, c)[m], CharClass::Name));
    }
    assert(param_ok(p.data));
    if dashes == seq!['-'] {
        assert(b == a2 + 1);
        assert(!char_at(s, a2 + 1, '-'));
        assert(p.data.name[0] == s[b]);
    }
    assert(long_form_ok(p));
    assert(flag_ok(p));
    lemma_flag_round_trip(p);
}

} // verus!
