//! The parameter grammar: names, modifiers, choice lists, defaults and value notations.
//!
//! Every rule reads a line `s` from a position `i` and either fails or returns
//! what it read with the position just after it. Each `*_at` spec function states
//! a rule; the executable parser of the same stem is proved to compute it.
use crate::param::{
    opt_view, FlagOptionModel, FlagOptionParam, ParamData, ParamModel, PositionalModel,
    PositionalParam,
};
use crate::text::{
    char_at, char_at_exec, class_has, is_short_char, is_short_char_exec, is_space, lemma_scan_bounds,
    scan, scan_exec, string_of, trimmed, trimmed_exec,
    CharClass,
};
use vstd::prelude::*;

verus! {

/// A parameter of the given name, with no modifier and no clause.
pub open spec fn plain_param(name: Seq<char>) -> ParamModel {
    ParamModel {
        name,
        required: false,
        multiple: false,
        default: None,
        default_fn: None,
        choices: None,
        choices_fn: None,
    }
}

/// One or more characters of class `k`: the end of the run.
pub open spec fn run_at(s: Seq<char>, i: int, k: CharClass) -> Option<int> {
    if scan(s, i, k) > i {
        Some(scan(s, i, k))
    } else {
        None
    }
}

/// The body of a string quoted with `q`, from `i` up to the closing quote: the
/// text with each `\q` read as `q`, and the position of the closing quote. Any
/// other backslash, or no closing quote, fails.
pub open spec fn quoted_body(s: Seq<char>, i: int, q: char) -> Option<(Seq<char>, int)>
    decreases s.len() - i,
{
    if i < 0 || i >= s.len() {
        None
    } else if s[i] == q {
        Some((Seq::empty(), i))
    } else if s[i] == '\\' {
        if i + 1 < s.len() && s[i + 1] == q {
            match quoted_body(s, i + 2, q) {
                Some((t, j)) => Some((seq![q] + t, j)),
                None => None,
            }
        } else {
            None
        }
    } else {
        match quoted_body(s, i + 1, q) {
            Some((t, j)) => Some((seq![s[i]] + t, j)),
            None => None,
        }
    }
}

/// A string in single or double quotes.
pub open spec fn quoted_at(s: Seq<char>, i: int) -> Option<(Seq<char>, int)> {
    if char_at(s, i, '\'') || char_at(s, i, '"') {
        match quoted_body(s, i + 1, s[i]) {
            Some((t, j)) => Some((t, j + 1)),
            None => None,
        }
    } else {
        None
    }
}

/// A default value: quoted, or else the run up to whitespace or `#` (maybe empty).
pub open spec fn default_value_at(s: Seq<char>, i: int) -> (Seq<char>, int) {
    match quoted_at(s, i) {
        Some(r) => r,
        None => (s.subrange(i, scan(s, i, CharClass::DefaultValue)), scan(
            s,
            i,
            CharClass::DefaultValue,
        )),
    }
}

/// A choice value: never starting with `=` or a backquote; quoted, or else the
/// run up to `|` or `]` (maybe empty).
pub open spec fn choice_value_at(s: Seq<char>, i: int) -> Option<(Seq<char>, int)> {
    if char_at(s, i, '=') || char_at(s, i, '`') {
        None
    } else {
        match quoted_at(s, i) {
            Some(r) => Some(r),
            None => Some(
                (s.subrange(i, scan(s, i, CharClass::ChoiceValue)), scan(
                    s,
                    i,
                    CharClass::ChoiceValue,
                )),
            ),
        }
    }
}

/// A function name in backquotes.
pub open spec fn value_fn_at(s: Seq<char>, i: int) -> Option<(Seq<char>, int)> {
    if char_at(s, i, '`') {
        match run_at(s, i + 1, CharClass::FnName) {
            Some(j) => if char_at(s, j, '`') {
                Some((s.subrange(i + 1, j), j + 1))
            } else {
                None
            },
            None => None,
        }
    } else {
        None
    }
}

/// A name with an optional `!`, `*` or `+` after it.
pub open spec fn modifier_at(s: Seq<char>, i: int) -> Option<(ParamModel, int)> {
    match run_at(s, i, CharClass::Name) {
        Some(j) => {
            let d = plain_param(s.subrange(i, j));
            if char_at(s, j, '!') {
                Some((ParamModel { required: true, ..d }, j + 1))
            } else if char_at(s, j, '*') {
                Some((ParamModel { multiple: true, ..d }, j + 1))
            } else if char_at(s, j, '+') {
                Some((ParamModel { required: true, multiple: true, ..d }, j + 1))
            } else {
                Some((d, j))
            }
        },
        None => None,
    }
}

/// As many `|value` as follow from `i`.
pub open spec fn more_choices_at(s: Seq<char>, i: int) -> (Seq<Seq<char>>, int)
    decreases s.len() - i,
{
    if 0 <= i < s.len() && s[i] == '|' {
        match choice_value_at(s, i + 1) {
            Some((v, j)) => if i < j <= s.len() {
                let (vs, k) = more_choices_at(s, j);
                (seq![v] + vs, k)
            } else {
                (Seq::empty(), i)
            },
            None => (Seq::empty(), i),
        }
    } else {
        (Seq::empty(), i)
    }
}

/// `name[=a|b|...]`: two choices or more, the first of them the default.
pub open spec fn choices_default_at(s: Seq<char>, i: int) -> Option<(ParamModel, int)> {
    match modifier_at(s, i) {
        Some((d, j)) => if char_at(s, j, '[') && char_at(s, j + 1, '=') {
            match choice_value_at(s, j + 2) {
                Some((h, k)) => {
                    let (t, m) = more_choices_at(s, k);
                    if t.len() >= 1 && char_at(s, m, ']') {
                        Some(
                            (
                                ParamModel {
                                    required: false,
                                    default: Some(h),
                                    choices: Some(seq![h] + t),
                                    ..d
                                },
                                m + 1,
                            ),
                        )
                    } else {
                        None
                    }
                },
                None => None,
            }
        } else {
            None
        },
        None => None,
    }
}

/// `name[`fn`]`, or `name[?`fn`]` for suggestions that are not checked.
pub open spec fn choices_fn_at(s: Seq<char>, i: int) -> Option<(ParamModel, int)> {
    match modifier_at(s, i) {
        Some((d, j)) => if char_at(s, j, '[') {
            let k = if char_at(s, j + 1, '?') {
                j + 2
            } else {
                j + 1
            };
            match value_fn_at(s, k) {
                Some((f, m)) => if char_at(s, m, ']') {
                    Some(
                        (
                            ParamModel { choices_fn: Some((f, !char_at(s, j + 1, '?'))), ..d },
                            m + 1,
                        ),
                    )
                } else {
                    None
                },
                None => None,
            }
        } else {
            None
        },
        None => None,
    }
}

/// `name[a|b|...]`: at least one choice, so `[]` is no list.
pub open spec fn choices_at(s: Seq<char>, i: int) -> Option<(ParamModel, int)> {
    match modifier_at(s, i) {
        Some((d, j)) => if char_at(s, j, '[') && !char_at(s, j + 1, ']') {
            match choice_value_at(s, j + 1) {
                Some((h, k)) => {
                    let (t, m) = more_choices_at(s, k);
                    if char_at(s, m, ']') {
                        Some((ParamModel { choices: Some(seq![h] + t), ..d }, m + 1))
                    } else {
                        None
                    }
                },
                None => None,
            }
        } else {
            None
        },
        None => None,
    }
}

/// `name=`fn``.
pub open spec fn assign_fn_at(s: Seq<char>, i: int) -> Option<(ParamModel, int)> {
    match run_at(s, i, CharClass::Name) {
        Some(j) => if char_at(s, j, '=') {
            match value_fn_at(s, j + 1) {
                Some((f, k)) => Some(
                    (ParamModel { default_fn: Some(f), ..plain_param(s.subrange(i, j)) }, k),
                ),
                None => None,
            }
        } else {
            None
        },
        None => None,
    }
}

/// `name=value`.
pub open spec fn assign_at(s: Seq<char>, i: int) -> Option<(ParamModel, int)> {
    match run_at(s, i, CharClass::Name) {
        Some(j) => if char_at(s, j, '=') {
            let (v, k) = default_value_at(s, j + 1);
            Some((ParamModel { default: Some(v), ..plain_param(s.subrange(i, j)) }, k))
        } else {
            None
        },
        None => None,
    }
}

/// A parameter with its modifier and clause; the first form that matches wins.
pub open spec fn param_at(s: Seq<char>, i: int) -> Option<(ParamModel, int)> {
    if choices_default_at(s, i) is Some {
        choices_default_at(s, i)
    } else if choices_fn_at(s, i) is Some {
        choices_fn_at(s, i)
    } else if choices_at(s, i) is Some {
        choices_at(s, i)
    } else if assign_fn_at(s, i) is Some {
        assign_fn_at(s, i)
    } else if assign_at(s, i) is Some {
        assign_at(s, i)
    } else {
        modifier_at(s, i)
    }
}

pub fn run_exec(s: &Vec<char>, i: usize, k: CharClass) -> (r: Option<usize>)
    requires
        i <= s@.len() < usize::MAX,
    ensures
        match r {
            Some(j) => run_at(s@, i as int, k) == Some(j as int) && i < j <= s@.len(),
            None => run_at(s@, i as int, k) is None,
        },
{
    let j = scan_exec(s, i, k);
    if j > i {
        Some(j)
    } else {
        None
    }
}

fn quoted_body_exec(s: &Vec<char>, i: usize, q: char) -> (r: Option<(String, usize)>)
    requires
        i <= s@.len() < usize::MAX,
    ensures
        match r {
            Some((t, j)) => quoted_body(s@, i as int, q) == Some((t@, j as int)) && i <= j
                < s@.len(),
            None => quoted_body(s@, i as int, q) is None,
        },
{
    let mut acc = String::new();
    let mut k: usize = i;
    while k < s.len() && s[k] != q
        invariant
            i <= k <= s@.len(),
            quoted_body(s@, i as int, q) == match quoted_body(s@, k as int, q) {
                Some((t, j)) => Some((acc@ + t, j)),
                None => None,
            },
        decreases s@.len() - k,
    {
        if s[k] == '\\' {
            if k + 1 < s.len() && s[k + 1] == q {
                let ghost before = acc@;
                acc.push(q);
                proof {
                    match quoted_body(s@, k + 2, q) {
                        Some((t, j)) => {
                            assert(before + (seq![q] + t) =~= acc@ + t);
                        },
                        None => {},
                    }
                }
                k = k + 2;
            } else {
                return None;
            }
        } else {
            let ghost before = acc@;
            acc.push(s[k]);
            proof {
                match quoted_body(s@, k + 1, q) {
                    Some((t, j)) => {
                        assert(before + (seq![s@[k as int]] + t) =~= acc@ + t);
                    },
                    None => {},
                }
            }
            k = k + 1;
        }
    }
    if k < s.len() {
        assert(acc@ + Seq::<char>::empty() =~= acc@);
        Some((acc, k))
    } else {
        None
    }
}

/// Reads a string in single or double quotes at `i`: its text with each escaped
/// matching quote un-escaped, and the position after the closing quote.
pub fn quoted_exec(s: &Vec<char>, i: usize) -> (r: Option<(String, usize)>)
    requires
        i <= s@.len() < usize::MAX,
    ensures
        match r {
            Some((t, j)) => quoted_at(s@, i as int) == Some((t@, j as int)) && i < j <= s@.len(),
            None => quoted_at(s@, i as int) is None,
        },
{
    if char_at_exec(s, i, '\'') || char_at_exec(s, i, '"') {
        match quoted_body_exec(s, i + 1, s[i]) {
            Some((t, j)) => Some((t, j + 1)),
            None => None,
        }
    } else {
        None
    }
}

fn default_value_exec(s: &Vec<char>, i: usize) -> (r: (String, usize))
    requires
        i <= s@.len() < usize::MAX,
    ensures
        default_value_at(s@, i as int) == (r.0@, r.1 as int),
        i <= r.1 <= s@.len(),
{
    match quoted_exec(s, i) {
        Some(r) => r,
        None => {
            let j = scan_exec(s, i, CharClass::DefaultValue);
            (string_of(s, i, j), j)
        },
    }
}

fn choice_value_exec(s: &Vec<char>, i: usize) -> (r: Option<(String, usize)>)
    requires
        i <= s@.len() < usize::MAX,
    ensures
        match r {
            Some((t, j)) => choice_value_at(s@, i as int) == Some((t@, j as int)) && i <= j
                <= s@.len(),
            None => choice_value_at(s@, i as int) is None,
        },
{
    if char_at_exec(s, i, '=') || char_at_exec(s, i, '`') {
        None
    } else {
        match quoted_exec(s, i) {
            Some(r) => Some(r),
            None => {
                let j = scan_exec(s, i, CharClass::ChoiceValue);
                Some((string_of(s, i, j), j))
            },
        }
    }
}

fn value_fn_exec(s: &Vec<char>, i: usize) -> (r: Option<(String, usize)>)
    requires
        i <= s@.len() < usize::MAX,
    ensures
        match r {
            Some((t, j)) => value_fn_at(s@, i as int) == Some((t@, j as int)) && i < j <= s@.len(),
            None => value_fn_at(s@, i as int) is None,
        },
{
    if char_at_exec(s, i, '`') {
        match run_exec(s, i + 1, CharClass::FnName) {
            Some(j) => if char_at_exec(s, j, '`') {
                Some((string_of(s, i + 1, j), j + 1))
            } else {
                None
            },
            None => None,
        }
    } else {
        None
    }
}

fn modifier_exec(s: &Vec<char>, i: usize) -> (r: Option<(ParamData, usize)>)
    requires
        i <= s@.len() < usize::MAX,
    ensures
        match r {
            Some((d, j)) => modifier_at(s@, i as int) == Some((d@, j as int)) && i < j <= s@.len(),
            None => modifier_at(s@, i as int) is None,
        },
{
    match run_exec(s, i, CharClass::Name) {
        Some(j) => {
            let mut d = ParamData::new(string_of(s, i, j));
            if char_at_exec(s, j, '!') {
                d.required = true;
                Some((d, j + 1))
            } else if char_at_exec(s, j, '*') {
                d.multiple = true;
                Some((d, j + 1))
            } else if char_at_exec(s, j, '+') {
                d.required = true;
                d.multiple = true;
                Some((d, j + 1))
            } else {
                Some((d, j))
            }
        },
        None => None,
    }
}

fn more_choices_exec(s: &Vec<char>, i: usize) -> (r: (Vec<String>, usize))
    requires
        i <= s@.len() < usize::MAX,
    ensures
        more_choices_at(s@, i as int) == (r.0.deep_view(), r.1 as int),
        i <= r.1 <= s@.len(),
{
    let mut acc: Vec<String> = Vec::new();
    let mut k: usize = i;
    let mut done = false;
    while !done
        invariant
            i <= k <= s@.len() < usize::MAX,
            more_choices_at(s@, i as int) == ({
                let (vs, m) = more_choices_at(s@, k as int);
                (acc.deep_view() + vs, m)
            }),
            done ==> more_choices_at(s@, k as int) == (Seq::<Seq<char>>::empty(), k as int),
        decreases s@.len() - k, if done { 0int } else { 1int },
    {
        if char_at_exec(s, k, '|') {
            match choice_value_exec(s, k + 1) {
                Some((v, j)) => {
                    let ghost before = acc.deep_view();
                    acc.push(v);
                    proof {
                        let (vs, m) = more_choices_at(s@, j as int);
                        assert(acc.deep_view() =~= before.push(v@));
                        assert(before + (seq![v@] + vs) =~= acc.deep_view() + vs);
                    }
                    k = j;
                },
                None => {
                    done = true;
                },
            }
        } else {
            done = true;
        }
    }
    assert(acc.deep_view() + Seq::<Seq<char>>::empty() =~= acc.deep_view());
    (acc, k)
}

fn choices_default_exec(s: &Vec<char>, i: usize) -> (r: Option<(ParamData, usize)>)
    requires
        i <= s@.len() < usize::MAX,
    ensures
        match r {
            Some((d, j)) => choices_default_at(s@, i as int) == Some((d@, j as int)) && i < j
                <= s@.len(),
            None => choices_default_at(s@, i as int) is None,
        },
{
    match modifier_exec(s, i) {
        Some((mut d, j)) => {
            if char_at_exec(s, j, '[') && char_at_exec(s, j + 1, '=') {
                match choice_value_exec(s, j + 2) {
                    Some((h, k)) => {
                        let (t, m) = more_choices_exec(s, k);
                        if t.len() >= 1 && char_at_exec(s, m, ']') {
                            let cs = prepend(h.clone(), &t);
                            d.required = false;
                            d.default = Some(h);
                            d.choices = Some(cs);
                            Some((d, m + 1))
                        } else {
                            None
                        }
                    },
                    None => None,
                }
            } else {
                None
            }
        },
        None => None,
    }
}

/// `h` followed by the strings of `t`.
fn prepend(h: String, t: &Vec<String>) -> (r: Vec<String>)
    ensures
        r.deep_view() == seq![h@] + t.deep_view(),
{
    let mut r: Vec<String> = Vec::new();
    r.push(h);
    assert(r.deep_view() =~= seq![h@]);
    let mut q: usize = 0;
    while q < t.len()
        invariant
            q <= t@.len(),
            r.deep_view() =~= seq![h@] + t.deep_view().take(q as int),
        decreases t@.len() - q,
    {
        let ghost before = r.deep_view();
        r.push(t[q].clone());
        assert(r.deep_view() =~= before.push(t@[q as int]@));
        assert(t.deep_view().take(q + 1) =~= t.deep_view().take(q as int).push(t@[q as int]@));
        q = q + 1;
    }
    assert(t.deep_view().take(q as int) =~= t.deep_view());
    r
}

fn choices_fn_exec(s: &Vec<char>, i: usize) -> (r: Option<(ParamData, usize)>)
    requires
        i <= s@.len() < usize::MAX,
    ensures
        match r {
            Some((d, j)) => choices_fn_at(s@, i as int) == Some((d@, j as int)) && i < j
                <= s@.len(),
            None => choices_fn_at(s@, i as int) is None,
        },
{
    match modifier_exec(s, i) {
        Some((mut d, j)) => {
            if char_at_exec(s, j, '[') {
                let ask = char_at_exec(s, j + 1, '?');
                let k = if ask {
                    j + 2
                } else {
                    j + 1
                };
                match value_fn_exec(s, k) {
                    Some((f, m)) => if char_at_exec(s, m, ']') {
                        d.choices_fn = Some((f, !ask));
                        Some((d, m + 1))
                    } else {
                        None
                    },
                    None => None,
                }
            } else {
                None
            }
        },
        None => None,
    }
}

fn choices_exec(s: &Vec<char>, i: usize) -> (r: Option<(ParamData, usize)>)
    requires
        i <= s@.len() < usize::MAX,
    ensures
        match r {
            Some((d, j)) => choices_at(s@, i as int) == Some((d@, j as int)) && i < j <= s@.len(),
            None => choices_at(s@, i as int) is None,
        },
{
    match modifier_exec(s, i) {
        Some((mut d, j)) => {
            if char_at_exec(s, j, '[') && !char_at_exec(s, j + 1, ']') {
                match choice_value_exec(s, j + 1) {
                    Some((h, k)) => {
                        let (t, m) = more_choices_exec(s, k);
                        if char_at_exec(s, m, ']') {
                            d.choices = Some(prepend(h, &t));
                            Some((d, m + 1))
                        } else {
                            None
                        }
                    },
                    None => None,
                }
            } else {
                None
            }
        },
        None => None,
    }
}

fn assign_fn_exec(s: &Vec<char>, i: usize) -> (r: Option<(ParamData, usize)>)
    requires
        i <= s@.len() < usize::MAX,
    ensures
        match r {
            Some((d, j)) => assign_fn_at(s@, i as int) == Some((d@, j as int)) && i < j
                <= s@.len(),
            None => assign_fn_at(s@, i as int) is None,
        },
{
    match run_exec(s, i, CharClass::Name) {
        Some(j) => if char_at_exec(s, j, '=') {
            match value_fn_exec(s, j + 1) {
                Some((f, k)) => {
                    let mut d = ParamData::new(string_of(s, i, j));
                    d.default_fn = Some(f);
                    Some((d, k))
                },
                None => None,
            }
        } else {
            None
        },
        None => None,
    }
}

fn assign_exec(s: &Vec<char>, i: usize) -> (r: Option<(ParamData, usize)>)
    requires
        i <= s@.len() < usize::MAX,
    ensures
        match r {
            Some((d, j)) => assign_at(s@, i as int) == Some((d@, j as int)) && i < j <= s@.len(),
            None => assign_at(s@, i as int) is None,
        },
{
    match run_exec(s, i, CharClass::Name) {
        Some(j) => if char_at_exec(s, j, '=') {
            let (v, k) = default_value_exec(s, j + 1);
            let mut d = ParamData::new(string_of(s, i, j));
            d.default = Some(v);
            Some((d, k))
        } else {
            None
        },
        None => None,
    }
}

/// Reads a parameter name with its modifier and its choice, generator or default
/// clause, trying the forms in a fixed order.
pub fn param_exec(s: &Vec<char>, i: usize) -> (r: Option<(ParamData, usize)>)
    requires
        i <= s@.len() < usize::MAX,
    ensures
        match r {
            Some((d, j)) => param_at(s@, i as int) == Some((d@, j as int)) && i < j <= s@.len(),
            None => param_at(s@, i as int) is None,
        },
{
    if let Some(r) = choices_default_exec(s, i) {
        return Some(r);
    }
    if let Some(r) = choices_fn_exec(s, i) {
        return Some(r);
    }
    if let Some(r) = choices_exec(s, i) {
        return Some(r);
    }
    if let Some(r) = assign_fn_exec(s, i) {
        return Some(r);
    }
    if let Some(r) = assign_exec(s, i) {
        return Some(r);
    }
    modifier_exec(s, i)
}

/// The position of the `>` that closes a notation, scanning from `i` with
/// `depth` brackets open: `<` opens one more, `>` closes one.
pub open spec fn notation_close(s: Seq<char>, i: int, depth: int) -> Option<int>
    decreases s.len() - i,
{
    if i < 0 || i >= s.len() {
        None
    } else if s[i] == '<' {
        notation_close(s, i + 1, depth + 1)
    } else if s[i] == '>' {
        if depth <= 1 {
            Some(i)
        } else {
            notation_close(s, i + 1, depth - 1)
        }
    } else {
        notation_close(s, i + 1, depth)
    }
}

/// `<text>` after optional spaces; the text may hold balanced brackets.
pub open spec fn notation_at(s: Seq<char>, i: int) -> Option<(Seq<char>, int)> {
    let a = scan(s, i, CharClass::Space);
    if char_at(s, a, '<') {
        match notation_close(s, a + 1, 1) {
            Some(e) => Some((s.subrange(a + 1, e), e + 1)),
            None => None,
        }
    } else {
        None
    }
}

/// As many notations as follow from `i`.
pub open spec fn notations_at(s: Seq<char>, i: int) -> (Seq<Seq<char>>, int)
    decreases s.len() - i,
{
    match notation_at(s, i) {
        Some((v, j)) => if i < j <= s.len() {
            let (vs, k) = notations_at(s, j);
            (seq![v] + vs, k)
        } else {
            (Seq::empty(), i)
        },
        None => (Seq::empty(), i),
    }
}

/// The free text at the end of a directive: nothing, or spaces and then the
/// rest of the line trimmed.
pub open spec fn tail_at(s: Seq<char>, i: int) -> Option<Seq<char>> {
    if i >= s.len() {
        Some(Seq::empty())
    } else if is_space(s[i]) {
        Some(trimmed(s, scan(s, i, CharClass::Space), s.len() as int))
    } else {
        None
    }
}

/// `-c` followed by a space: a short form before the long one.
pub open spec fn short_at(s: Seq<char>, i: int) -> (Option<char>, int) {
    if char_at(s, i, '-') && i + 2 < s.len() && is_short_char(s[i + 1]) && is_space(s[i + 2]) {
        (Some(s[i + 1]), i + 2)
    } else {
        (None, i)
    }
}

/// `--` or `-` after optional spaces.
pub open spec fn dashes_at(s: Seq<char>, i: int) -> Option<(Seq<char>, int)> {
    let a = scan(s, i, CharClass::Space);
    if char_at(s, a, '-') && char_at(s, a + 1, '-') {
        Some((seq!['-', '-'], a + 2))
    } else if char_at(s, a, '-') {
        Some((seq!['-'], a + 1))
    } else {
        None
    }
}

/// An option with a long name: `[-c ]--name...`, notations, description.
pub open spec fn option_long_at(s: Seq<char>, i: int) -> Option<FlagOptionModel> {
    let (short, a) = short_at(s, i);
    match dashes_at(s, a) {
        Some((dashes, b)) => match param_at(s, b) {
            Some((d, c)) => {
                let (vs, e) = notations_at(s, c);
                match tail_at(s, e) {
                    Some(describe) => Some(
                        FlagOptionModel {
                            data: d,
                            describe,
                            short,
                            is_flag: false,
                            dashes,
                            value_names: vs,
                        },
                    ),
                    None => None,
                }
            },
            None => None,
        },
        None => None,
    }
}

/// At most one ASCII letter or digit at `i`.
pub open spec fn single_char_at(s: Seq<char>, i: int) -> bool {
    scan(s, i, CharClass::AsciiAlnum) <= i + 1
}

/// An option given by a single short character only: `-c...`.
pub open spec fn option_short_at(s: Seq<char>, i: int) -> Option<FlagOptionModel> {
    let a = scan(s, i, CharClass::Space);
    if char_at(s, a, '-') && a + 1 < s.len() && is_short_char(s[a + 1]) && single_char_at(
        s,
        a + 1,
    ) {
        match param_at(s, a + 1) {
            Some((d, c)) => {
                let (vs, e) = notations_at(s, c);
                match tail_at(s, e) {
                    Some(describe) => Some(
                        FlagOptionModel {
                            data: d,
                            describe,
                            short: Some(d.name[0]),
                            is_flag: false,
                            dashes: Seq::empty(),
                            value_names: vs,
                        },
                    ),
                    None => None,
                }
            },
            None => None,
        }
    } else {
        None
    }
}

/// What follows `@option`.
pub open spec fn option_at(s: Seq<char>, i: int) -> Option<FlagOptionModel> {
    if option_long_at(s, i) is Some {
        option_long_at(s, i)
    } else {
        option_short_at(s, i)
    }
}

/// A flag with a long name: `[-c ]--name[*]`, description.
pub open spec fn flag_long_at(s: Seq<char>, i: int) -> Option<FlagOptionModel> {
    let (short, a) = short_at(s, i);
    match dashes_at(s, a) {
        Some((dashes, b)) => match run_at(s, b, CharClass::Name) {
            Some(c) => {
                let star = char_at(s, c, '*');
                let e = if star {
                    c + 1
                } else {
                    c
                };
                match tail_at(s, e) {
                    Some(describe) => Some(
                        FlagOptionModel {
                            data: ParamModel { multiple: star, ..plain_param(s.subrange(b, c)) },
                            describe,
                            short,
                            is_flag: true,
                            dashes,
                            value_names: Seq::empty(),
                        },
                    ),
                    None => None,
                }
            },
            None => None,
        },
        None => None,
    }
}

/// A flag given by a single character only: `-c[*]`, description.
pub open spec fn flag_short_at(s: Seq<char>, i: int) -> Option<FlagOptionModel> {
    let a = scan(s, i, CharClass::Space);
    if char_at(s, a, '-') && a + 1 < s.len() && is_short_char(s[a + 1]) {
        let c = s[a + 1];
        let star = char_at(s, a + 2, '*');
        let e = if star {
            a + 3
        } else {
            a + 2
        };
        match tail_at(s, e) {
            Some(describe) => Some(
                FlagOptionModel {
                    data: ParamModel { multiple: star, ..plain_param(seq![c]) },
                    describe,
                    short: Some(c),
                    is_flag: true,
                    dashes: Seq::empty(),
                    value_names: Seq::empty(),
                },
            ),
            None => None,
        }
    } else {
        None
    }
}

/// What follows `@flag`.
pub open spec fn flag_at(s: Seq<char>, i: int) -> Option<FlagOptionModel> {
    if flag_long_at(s, i) is Some {
        flag_long_at(s, i)
    } else {
        flag_short_at(s, i)
    }
}

/// What follows `@arg`: a parameter, at most one notation, description.
pub open spec fn positional_at(s: Seq<char>, i: int) -> Option<PositionalModel> {
    match param_at(s, i) {
        Some((d, c)) => {
            let (v, e) = match notation_at(s, c) {
                Some((v, e)) => (Some(v), e),
                None => (None, c),
            };
            match tail_at(s, e) {
                Some(describe) => Some(PositionalModel { data: d, describe, value_name: v }),
                None => None,
            }
        },
        None => None,
    }
}

/// Finds the `>` that closes a notation opened just before `i`, counting the
/// brackets opened and closed in between.
pub fn notation_close_exec(s: &Vec<char>, i: usize) -> (r: Option<usize>)
    requires
        i <= s@.len() < usize::MAX,
    ensures
        match r {
            Some(e) => notation_close(s@, i as int, 1) == Some(e as int) && i <= e < s@.len(),
            None => notation_close(s@, i as int, 1) is None,
        },
{
    let mut k: usize = i;
    let mut depth: usize = 1;
    while k < s.len() && !(s[k] == '>' && depth <= 1)
        invariant
            i <= k <= s@.len() < usize::MAX,
            1 <= depth <= k - i + 1,
            notation_close(s@, i as int, 1) == notation_close(s@, k as int, depth as int),
        decreases s@.len() - k,
    {
        if s[k] == '<' {
            depth = depth + 1;
        } else if s[k] == '>' {
            depth = depth - 1;
        }
        k = k + 1;
    }
    if k < s.len() {
        Some(k)
    } else {
        None
    }
}

fn notation_exec(s: &Vec<char>, i: usize) -> (r: Option<(String, usize)>)
    requires
        i <= s@.len() < usize::MAX,
    ensures
        match r {
            Some((v, j)) => notation_at(s@, i as int) == Some((v@, j as int)) && i < j <= s@.len(),
            None => notation_at(s@, i as int) is None,
        },
{
    let a = scan_exec(s, i, CharClass::Space);
    if char_at_exec(s, a, '<') {
        match notation_close_exec(s, a + 1) {
            Some(e) => Some((string_of(s, a + 1, e), e + 1)),
            None => None,
        }
    } else {
        None
    }
}

fn notations_exec(s: &Vec<char>, i: usize) -> (r: (Vec<String>, usize))
    requires
        i <= s@.len() < usize::MAX,
    ensures
        notations_at(s@, i as int) == (r.0.deep_view(), r.1 as int),
        i <= r.1 <= s@.len(),
{
    let mut acc: Vec<String> = Vec::new();
    let mut k: usize = i;
    let mut done = false;
    while !done
        invariant
            i <= k <= s@.len() < usize::MAX,
            notations_at(s@, i as int) == ({
                let (vs, m) = notations_at(s@, k as int);
                (acc.deep_view() + vs, m)
            }),
            done ==> notations_at(s@, k as int) == (Seq::<Seq<char>>::empty(), k as int),
        decreases s@.len() - k, if done { 0int } else { 1int },
    {
        match notation_exec(s, k) {
            Some((v, j)) => {
                let ghost before = acc.deep_view();
                acc.push(v);
                proof {
                    let (vs, m) = notations_at(s@, j as int);
                    assert(acc.deep_view() =~= before.push(v@));
                    assert(before + (seq![v@] + vs) =~= acc.deep_view() + vs);
                }
                k = j;
            },
            None => {
                done = true;
            },
        }
    }
    assert(acc.deep_view() + Seq::<Seq<char>>::empty() =~= acc.deep_view());
    (acc, k)
}

pub(crate) fn tail_exec(s: &Vec<char>, i: usize) -> (r: Option<String>)
    requires
        i <= s@.len() < usize::MAX,
    ensures
        opt_view(r) == tail_at(s@, i as int),
{
    if i >= s.len() {
        Some(String::new())
    } else if class_has(s[i], CharClass::Space) {
        let a = scan_exec(s, i, CharClass::Space);
        Some(trimmed_exec(s, a, s.len()))
    } else {
        None
    }
}

fn short_exec(s: &Vec<char>, i: usize) -> (r: (Option<char>, usize))
    requires
        i <= s@.len() < usize::MAX,
    ensures
        short_at(s@, i as int) == (r.0, r.1 as int),
        i <= r.1 <= s@.len(),
{
    if char_at_exec(s, i, '-') && i + 2 < s.len() && is_short_char_exec(s[i + 1]) && class_has(
        s[i + 2],
        CharClass::Space,
    ) {
        (Some(s[i + 1]), i + 2)
    } else {
        (None, i)
    }
}

fn dashes_exec(s: &Vec<char>, i: usize) -> (r: Option<(String, usize)>)
    requires
        i <= s@.len() < usize::MAX,
    ensures
        match r {
            Some((d, j)) => dashes_at(s@, i as int) == Some((d@, j as int)) && i < j <= s@.len(),
            None => dashes_at(s@, i as int) is None,
        },
{
    let a = scan_exec(s, i, CharClass::Space);
    if char_at_exec(s, a, '-') && char_at_exec(s, a + 1, '-') {
        Some((string_of(s, a, a + 2), a + 2))
    } else if char_at_exec(s, a, '-') {
        Some((string_of(s, a, a + 1), a + 1))
    } else {
        None
    }
}

pub open spec fn flag_option_view(r: Option<FlagOptionParam>) -> Option<FlagOptionModel> {
    match r {
        Some(p) => Some(p@),
        None => None,
    }
}

pub open spec fn positional_view(r: Option<PositionalParam>) -> Option<PositionalModel> {
    match r {
        Some(p) => Some(p@),
        None => None,
    }
}

fn option_long_exec(s: &Vec<char>, i: usize) -> (r: Option<FlagOptionParam>)
    requires
        i <= s@.len() < usize::MAX,
    ensures
        flag_option_view(r) == option_long_at(s@, i as int),
{
    let (short, a) = short_exec(s, i);
    let (dashes, b) = match dashes_exec(s, a) {
        Some(x) => x,
        None => return None,
    };
    let (data, c) = match param_exec(s, b) {
        Some(x) => x,
        None => return None,
    };
    let (value_names, e) = notations_exec(s, c);
    match tail_exec(s, e) {
        Some(describe) => Some(
            FlagOptionParam { data, describe, short, is_flag: false, dashes, value_names },
        ),
        None => None,
    }
}

fn single_char_exec(s: &Vec<char>, i: usize) -> (r: bool)
    requires
        i <= s@.len() < usize::MAX,
    ensures
        r == single_char_at(s@, i as int),
{
    scan_exec(s, i, CharClass::AsciiAlnum) <= i + 1
}

fn option_short_exec(s: &Vec<char>, i: usize) -> (r: Option<FlagOptionParam>)
    requires
        i <= s@.len() < usize::MAX,
    ensures
        flag_option_view(r) == option_short_at(s@, i as int),
{
    let a = scan_exec(s, i, CharClass::Space);
    if !(char_at_exec(s, a, '-') && a + 1 < s.len() && is_short_char_exec(s[a + 1])
        && single_char_exec(s, a + 1)) {
        return None;
    }
    let (data, c) = match param_exec(s, a + 1) {
        Some(x) => x,
        None => return None,
    };
    proof {
        lemma_scan_bounds(s@, (a + 1) as int, CharClass::Name);
    }
    let short = Some(s[a + 1]);
    let (value_names, e) = notations_exec(s, c);
    match tail_exec(s, e) {
        Some(describe) => Some(
            FlagOptionParam {
                data,
                describe,
                short,
                is_flag: false,
                dashes: String::new(),
                value_names,
            },
        ),
        None => None,
    }
}

fn flag_long_exec(s: &Vec<char>, i: usize) -> (r: Option<FlagOptionParam>)
    requires
        i <= s@.len() < usize::MAX,
    ensures
        flag_option_view(r) == flag_long_at(s@, i as int),
{
    let (short, a) = short_exec(s, i);
    let (dashes, b) = match dashes_exec(s, a) {
        Some(x) => x,
        None => return None,
    };
    let c = match run_exec(s, b, CharClass::Name) {
        Some(x) => x,
        None => return None,
    };
    let star = char_at_exec(s, c, '*');
    let e = if star {
        c + 1
    } else {
        c
    };
    match tail_exec(s, e) {
        Some(describe) => {
            let mut data = ParamData::new(string_of(s, b, c));
            data.multiple = star;
            let value_names: Vec<String> = Vec::new();
            assert(value_names.deep_view() =~= Seq::<Seq<char>>::empty());
            Some(
                FlagOptionParam {
                    data,
                    describe,
                    short,
                    is_flag: true,
                    dashes,
                    value_names,
                },
            )
        },
        None => None,
    }
}

fn flag_short_exec(s: &Vec<char>, i: usize) -> (r: Option<FlagOptionParam>)
    requires
        i <= s@.len() < usize::MAX,
    ensures
        flag_option_view(r) == flag_short_at(s@, i as int),
{
    let a = scan_exec(s, i, CharClass::Space);
    if !(char_at_exec(s, a, '-') && a + 1 < s.len() && is_short_char_exec(s[a + 1])) {
        return None;
    }
    let c = s[a + 1];
    let star = char_at_exec(s, a + 2, '*');
    let e = if star {
        a + 3
    } else {
        a + 2
    };
    match tail_exec(s, e) {
        Some(describe) => {
            let mut name = String::new();
            name.push(c);
            assert(name@ =~= seq![c]);
            let mut data = ParamData::new(name);
            data.multiple = star;
            let value_names: Vec<String> = Vec::new();
            assert(value_names.deep_view() =~= Seq::<Seq<char>>::empty());
            Some(
                FlagOptionParam {
                    data,
                    describe,
                    short: Some(c),
                    is_flag: true,
                    dashes: String::new(),
                    value_names,
                },
            )
        },
        None => None,
    }
}

pub(crate) fn option_exec(s: &Vec<char>, i: usize) -> (r: Option<FlagOptionParam>)
    requires
        i <= s@.len() < usize::MAX,
    ensures
        flag_option_view(r) == option_at(s@, i as int),
{
    match option_long_exec(s, i) {
        Some(p) => Some(p),
        None => option_short_exec(s, i),
    }
}

pub(crate) fn flag_exec(s: &Vec<char>, i: usize) -> (r: Option<FlagOptionParam>)
    requires
        i <= s@.len() < usize::MAX,
    ensures
        flag_option_view(r) == flag_at(s@, i as int),
{
    match flag_long_exec(s, i) {
        Some(p) => Some(p),
        None => flag_short_exec(s, i),
    }
}

pub(crate) fn positional_exec(s: &Vec<char>, i: usize) -> (r: Option<PositionalParam>)
    requires
        i <= s@.len() < usize::MAX,
    ensures
        positional_view(r) == positional_at(s@, i as int),
{
    let (data, c) = match param_exec(s, i) {
        Some(x) => x,
        None => return None,
    };
    let (value_name, e) = match notation_exec(s, c) {
        Some((v, e)) => (Some(v), e),
        None => (None, c),
    };
    match tail_exec(s, e) {
        Some(describe) => Some(PositionalParam { data, describe, value_name }),
        None => None,
    }
}

/// Reads what follows `@option`: an optional short form, the long form with its
/// modifier and clause, value notations and a description.
pub fn parse_option_param(text: &str) -> (r: Option<FlagOptionParam>)
    requires
        text@.len() < usize::MAX,
    ensures
        flag_option_view(r) == option_at(text@, 0),
{
    let s = crate::text::chars_of(text);
    option_exec(&s, 0)
}

/// Reads what follows `@flag`: an optional short form, the long name with an
/// optional `*`, and a description.
pub fn parse_flag_param(text: &str) -> (r: Option<FlagOptionParam>)
    requires
        text@.len() < usize::MAX,
    ensures
        flag_option_view(r) == flag_at(text@, 0),
{
    let s = crate::text::chars_of(text);
    flag_exec(&s, 0)
}

/// Reads what follows `@arg`: the name with its modifier and clause, at most one
/// value notation, and a description.
pub fn parse_positional_param(text: &str) -> (r: Option<PositionalParam>)
    requires
        text@.len() < usize::MAX,
    ensures
        positional_view(r) == positional_at(text@, 0),
{
    let s = crate::text::chars_of(text);
    positional_exec(&s, 0)
}

} // verus!
