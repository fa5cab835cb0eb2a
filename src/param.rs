//! Parameter records and their canonical textual form.
use crate::text::{
    class_has, is_choice_value_stop, is_default_value_stop, join, join_exec, push_all, CharClass,
};
use vstd::prelude::*;

verus! {

/// What every parameter carries.
#[derive(Debug, Clone, PartialEq, Eq)]
pub struct ParamData {
    pub name: String,
    pub required: bool,
    pub multiple: bool,
    pub default: Option<String>,
    pub default_fn: Option<String>,
    pub choices: Option<Vec<String>>,
    /// The generator function, and whether values are checked against it.
    pub choices_fn: Option<(String, bool)>,
}

/// A flag (`@flag`) or an option that takes values (`@option`).
#[derive(Debug, Clone, PartialEq, Eq)]
pub struct FlagOptionParam {
    pub data: ParamData,
    pub describe: String,
    pub short: Option<char>,
    pub is_flag: bool,
    /// `-` or `--` as written before the long name; empty when there is none.
    pub dashes: String,
    pub value_names: Vec<String>,
}

/// A positional argument (`@arg`).
#[derive(Debug, Clone, PartialEq, Eq)]
pub struct PositionalParam {
    pub data: ParamData,
    pub describe: String,
    pub value_name: Option<String>,
}

pub struct ParamModel {
    pub name: Seq<char>,
    pub required: bool,
    pub multiple: bool,
    pub default: Option<Seq<char>>,
    pub default_fn: Option<Seq<char>>,
    pub choices: Option<Seq<Seq<char>>>,
    pub choices_fn: Option<(Seq<char>, bool)>,
}

pub struct FlagOptionModel {
    pub data: ParamModel,
    pub describe: Seq<char>,
    pub short: Option<char>,
    pub is_flag: bool,
    pub dashes: Seq<char>,
    pub value_names: Seq<Seq<char>>,
}

pub struct PositionalModel {
    pub data: ParamModel,
    pub describe: Seq<char>,
    pub value_name: Option<Seq<char>>,
}

pub open spec fn opt_view(o: Option<String>) -> Option<Seq<char>> {
    match o {
        Some(s) => Some(s@),
        None => None,
    }
}

impl View for ParamData {
    type V = ParamModel;

    open spec fn view(&self) -> ParamModel {
        ParamModel {
            name: self.name@,
            required: self.required,
            multiple: self.multiple,
            default: opt_view(self.default),
            default_fn: opt_view(self.default_fn),
            choices: match self.choices {
                Some(v) => Some(v.deep_view()),
                None => None,
            },
            choices_fn: match self.choices_fn {
                Some((f, v)) => Some((f@, v)),
                None => None,
            },
        }
    }
}

impl View for FlagOptionParam {
    type V = FlagOptionModel;

    open spec fn view(&self) -> FlagOptionModel {
        FlagOptionModel {
            data: self.data@,
            describe: self.describe@,
            short: self.short,
            is_flag: self.is_flag,
            dashes: self.dashes@,
            value_names: self.value_names.deep_view(),
        }
    }
}

impl View for PositionalParam {
    type V = PositionalModel;

    open spec fn view(&self) -> PositionalModel {
        PositionalModel {
            data: self.data@,
            describe: self.describe@,
            value_name: opt_view(self.value_name),
        }
    }
}

/// `!` for required, `*` for multiple, `+` for both.
pub open spec fn modifier_text(required: bool, multiple: bool) -> Seq<char> {
    if required && multiple {
        seq!['+']
    } else if required {
        seq!['!']
    } else if multiple {
        seq!['*']
    } else {
        Seq::empty()
    }
}

/// The text with each `"` preceded by a backslash.
pub open spec fn escape_double(v: Seq<char>) -> Seq<char>
    decreases v.len(),
{
    if v.len() == 0 {
        Seq::empty()
    } else {
        escape_double(v.drop_last()) + if v.last() == '"' {
            seq!['\\', '"']
        } else {
            seq![v.last()]
        }
    }
}

pub open spec fn quoted_text(v: Seq<char>) -> Seq<char> {
    seq!['"'] + escape_double(v) + seq!['"']
}

pub open spec fn starts_reserved(v: Seq<char>) -> bool {
    v.len() > 0 && (v[0] == '"' || v[0] == '\'' || v[0] == '`' || v[0] == '=')
}

/// Whether the text holds a backslash. A quoted body never does (a backslash
/// there only escapes the quote), so such a value was read bare and is
/// written bare.
pub open spec fn has_backslash(v: Seq<char>) -> bool {
    exists|m: int| 0 <= m < v.len() && v[m] == '\\'
}

/// A choice needs quotes where it is empty, holds a character that ends a
/// bare choice, or starts like a quote, a generator, a default marker or a `?`.
pub open spec fn choice_needs_quotes(v: Seq<char>) -> bool {
    v.len() == 0 || starts_reserved(v) || (v.len() > 0 && v[0] == '?') || exists|m: int|
        0 <= m < v.len() && is_choice_value_stop(v[m])
}

/// A choice, quoted where it needs quotes and holds no backslash.
pub open spec fn choice_text(v: Seq<char>) -> Seq<char> {
    if choice_needs_quotes(v) && !has_backslash(v) {
        quoted_text(v)
    } else {
        v
    }
}

/// A default value needs quotes where it holds a character that ends a bare
/// default, or starts like a quote or a generator.
pub open spec fn default_needs_quotes(v: Seq<char>) -> bool {
    starts_reserved(v) || exists|m: int| 0 <= m < v.len() && is_default_value_stop(v[m])
}

/// A default value, quoted where it needs quotes and holds no backslash.
pub open spec fn default_text(v: Seq<char>) -> Seq<char> {
    if default_needs_quotes(v) && !has_backslash(v) {
        quoted_text(v)
    } else {
        v
    }
}

pub open spec fn fn_text(f: Seq<char>) -> Seq<char> {
    seq!['`'] + f + seq!['`']
}

/// The clause after the name and modifier: choices, generator or default.
pub open spec fn clause_text(d: ParamModel) -> Seq<char> {
    match d.choices {
        Some(cs) => seq!['['] + (if d.default is Some {
            seq!['=']
        } else {
            Seq::empty()
        }) + join(cs.map_values(|c: Seq<char>| choice_text(c)), '|') + seq![']'],
        None => match d.choices_fn {
            Some((f, validate)) => seq!['['] + (if validate {
                Seq::empty()
            } else {
                seq!['?']
            }) + fn_text(f) + seq![']'],
            None => match d.default_fn {
                Some(f) => seq!['='] + fn_text(f),
                None => match d.default {
                    Some(v) => seq!['='] + default_text(v),
                    None => Seq::empty(),
                },
            },
        },
    }
}

pub open spec fn name_text(d: ParamModel) -> Seq<char> {
    d.name + modifier_text(d.required, d.multiple) + clause_text(d)
}

pub open spec fn notation_text(v: Seq<char>) -> Seq<char> {
    seq!['<'] + v + seq!['>']
}

pub open spec fn describe_parts(describe: Seq<char>) -> Seq<Seq<char>> {
    if describe.len() == 0 {
        Seq::empty()
    } else {
        seq![describe]
    }
}

/// The words of an option or flag: short form, long form, notations, description.
pub open spec fn flag_option_parts(p: FlagOptionModel) -> Seq<Seq<char>> {
    let names = if p.dashes.len() == 0 {
        seq![seq!['-'] + name_text(p.data)]
    } else {
        match p.short {
            Some(c) => seq![seq!['-', c], p.dashes + name_text(p.data)],
            None => seq![p.dashes + name_text(p.data)],
        }
    };
    names + p.value_names.map_values(|v: Seq<char>| notation_text(v)) + describe_parts(
        p.describe,
    )
}

pub open spec fn positional_parts(p: PositionalModel) -> Seq<Seq<char>> {
    let notes = match p.value_name {
        Some(v) => seq![notation_text(v)],
        None => Seq::empty(),
    };
    seq![name_text(p.data)] + notes + describe_parts(p.describe)
}

pub open spec fn render_flag_option(p: FlagOptionModel) -> Seq<char> {
    join(flag_option_parts(p), ' ')
}

pub open spec fn render_positional(p: PositionalModel) -> Seq<char> {
    join(positional_parts(p), ' ')
}

fn escape_double_exec(v: &str) -> (r: String)
    ensures
        r@ == escape_double(v@),
{
    let n = v.unicode_len();
    let mut r = String::new();
    let mut k: usize = 0;
    while k < n
        invariant
            n == v@.len(),
            k <= n,
            r@ == escape_double(v@.take(k as int)),
        decreases n - k,
    {
        let c = v.get_char(k);
        let ghost before = r@;
        if c == '"' {
            r.push('\\');
        }
        r.push(c);
        proof {
            let t = v@.take(k + 1);
            assert(t.drop_last() =~= v@.take(k as int));
            assert(t.last() == c);
            if c == '"' {
                assert(r@ =~= escape_double(t));
            } else {
                assert(r@ =~= escape_double(t));
            }
        }
        k = k + 1;
    }
    assert(v@.take(n as int) =~= v@);
    r
}

/// Whether a choice (or a default) value needs quotes.
fn needs_quotes(v: &str, choice: bool) -> (r: bool)
    ensures
        r == if choice {
            choice_needs_quotes(v@)
        } else {
            default_needs_quotes(v@)
        },
{
    let n = v.unicode_len();
    if choice && n == 0 {
        return true;
    }
    if n > 0 {
        let c = v.get_char(0);
        if c == '"' || c == '\'' || c == '`' || c == '=' || (choice && c == '?') {
            return true;
        }
    }
    let mut k: usize = 0;
    while k < n
        invariant
            n == v@.len(),
            k <= n,
            !starts_reserved(v@),
            choice ==> !(v@.len() > 0 && v@[0] == '?') && v@.len() > 0,
            forall|m: int|
                0 <= m < k ==> !(if choice {
                    is_choice_value_stop(v@[m])
                } else {
                    is_default_value_stop(v@[m])
                }),
        decreases n - k,
    {
        let c = v.get_char(k);
        let stop = if choice {
            !class_has(c, CharClass::ChoiceValue)
        } else {
            !class_has(c, CharClass::DefaultValue)
        };
        if stop {
            return true;
        }
        k = k + 1;
    }
    false
}

fn has_backslash_exec(v: &str) -> (r: bool)
    ensures
        r == has_backslash(v@),
{
    let n = v.unicode_len();
    let mut k: usize = 0;
    while k < n
        invariant
            n == v@.len(),
            k <= n,
            forall|m: int| 0 <= m < k ==> v@[m] != '\\',
        decreases n - k,
    {
        if v.get_char(k) == '\\' {
            return true;
        }
        k = k + 1;
    }
    false
}

fn value_text_exec(v: &str, choice: bool) -> (r: String)
    ensures
        r@ == (if choice {
            choice_text(v@)
        } else {
            default_text(v@)
        }),
{
    if needs_quotes(v, choice) && !has_backslash_exec(v) {
        let mut r = String::new();
        r.push('"');
        let e = escape_double_exec(v);
        push_all(&mut r, e.as_str());
        r.push('"');
        assert(r@ =~= quoted_text(v@));
        r
    } else {
        let mut r = String::new();
        push_all(&mut r, v);
        assert(r@ =~= v@);
        r
    }
}

fn push_fn_text(r: &mut String, f: &str)
    ensures
        final(r)@ == old(r)@ + fn_text(f@),
{
    r.push('`');
    push_all(r, f);
    r.push('`');
    assert(r@ =~= old(r)@ + fn_text(f@));
}

impl ParamData {
    /// A parameter of this name with no modifier and no clause.
    pub fn new(name: String) -> (r: ParamData)
        ensures
            r@ == (ParamModel {
                name: name@,
                required: false,
                multiple: false,
                default: None,
                default_fn: None,
                choices: None,
                choices_fn: None,
            }),
    {
        ParamData {
            name,
            required: false,
            multiple: false,
            default: None,
            default_fn: None,
            choices: None,
            choices_fn: None,
        }
    }

    /// The name with its modifier and clause, as written in a directive.
    pub fn render_name(&self) -> (r: String)
        ensures
            r@ == name_text(self@),
    {
        let mut r = String::new();
        push_all(&mut r, self.name.as_str());
        if self.required && self.multiple {
            r.push('+');
        } else if self.required {
            r.push('!');
        } else if self.multiple {
            r.push('*');
        }
        let ghost head = r@;
        assert(head =~= self.name@ + modifier_text(self.required, self.multiple));
        let clause = clause_exec(self);
        push_all(&mut r, clause.as_str());
        r
    }
}

/// The choices in their canonical form, separated by `|`.
fn choices_exec(cs: &Vec<String>) -> (r: String)
    ensures
        r@ == join(cs.deep_view().map_values(|c: Seq<char>| choice_text(c)), '|'),
{
    let mut texts: Vec<String> = Vec::new();
    let mut k: usize = 0;
    while k < cs.len()
        invariant
            k <= cs@.len(),
            texts@.len() == k,
            forall|m: int| 0 <= m < k ==> #[trigger] texts@[m]@ == choice_text(cs@[m]@),
        decreases cs@.len() - k,
    {
        texts.push(value_text_exec(cs[k].as_str(), true));
        k = k + 1;
    }
    assert(texts.deep_view() =~= cs.deep_view().map_values(|c: Seq<char>| choice_text(c)));
    join_exec(&texts, '|')
}

fn clause_exec(d: &ParamData) -> (r: String)
    ensures
        r@ == clause_text(d@),
{
    let mut r = String::new();
    match &d.choices {
        Some(cs) => {
            r.push('[');
            if d.default.is_some() {
                r.push('=');
            }
            let joined = choices_exec(cs);
            push_all(&mut r, joined.as_str());
            r.push(']');
            assert(r@ =~= clause_text(d@));
        },
        None => match &d.choices_fn {
            Some((f, validate)) => {
                r.push('[');
                if !*validate {
                    r.push('?');
                }
                push_fn_text(&mut r, f.as_str());
                r.push(']');
                assert(r@ =~= clause_text(d@));
            },
            None => match &d.default_fn {
                Some(f) => {
                    r.push('=');
                    push_fn_text(&mut r, f.as_str());
                    assert(r@ =~= clause_text(d@));
                },
                None => match &d.default {
                    Some(v) => {
                        r.push('=');
                        let t = value_text_exec(v.as_str(), false);
                        push_all(&mut r, t.as_str());
                        assert(r@ =~= clause_text(d@));
                    },
                    None => {
                        assert(r@ =~= clause_text(d@));
                    },
                },
            },
        },
    }
    r
}

fn notation_exec(v: &str) -> (r: String)
    ensures
        r@ == notation_text(v@),
{
    let mut r = String::new();
    r.push('<');
    push_all(&mut r, v);
    r.push('>');
    assert(r@ =~= notation_text(v@));
    r
}

impl FlagOptionParam {
    /// The canonical text of the parameter, as it would follow `@flag` or `@option`.
    pub fn render(&self) -> (r: String)
        ensures
            r@ == render_flag_option(self@),
    {
        let mut parts: Vec<String> = Vec::new();
        let name = self.data.render_name();
        if self.dashes.unicode_len() == 0 {
            let mut t = String::new();
            t.push('-');
            push_all(&mut t, name.as_str());
            parts.push(t);
            assert(parts.deep_view() =~= seq![seq!['-'] + name_text(self@.data)]);
        } else {
            if let Some(c) = self.short {
                let mut t = String::new();
                t.push('-');
                t.push(c);
                assert(t@ =~= seq!['-', c]);
                parts.push(t);
                assert(parts.deep_view() =~= seq![seq!['-', c]]);
            }
            let ghost before = parts.deep_view();
            let mut t = String::new();
            push_all(&mut t, self.dashes.as_str());
            push_all(&mut t, name.as_str());
            parts.push(t);
            assert(parts.deep_view() =~= before.push(self@.dashes + name_text(self@.data)));
        }
        let ghost names = parts.deep_view();
        let mut k: usize = 0;
        while k < self.value_names.len()
            invariant
                k <= self@.value_names.len(),
                parts.deep_view() =~= names + self@.value_names.take(k as int).map_values(
                    |v: Seq<char>| notation_text(v),
                ),
            decreases self@.value_names.len() - k,
        {
            let ghost before = parts.deep_view();
            let t = notation_exec(self.value_names[k].as_str());
            parts.push(t);
            proof {
                assert(parts.deep_view() =~= before.push(t@));
                let a = self@.value_names.take(k + 1).map_values(|v: Seq<char>| notation_text(v));
                let b = self@.value_names.take(k as int).map_values(
                    |v: Seq<char>| notation_text(v),
                );
                assert(a =~= b.push(notation_text(self.value_names@[k as int]@)));
            }
            k = k + 1;
        }
        assert(self@.value_names.take(k as int) =~= self@.value_names);
        let ghost with_notes = parts.deep_view();
        assert(with_notes =~= names + self@.value_names.map_values(|v: Seq<char>| notation_text(v)));
        if self.describe.unicode_len() > 0 {
            parts.push(self.describe.clone());
            assert(parts.deep_view() =~= with_notes.push(self@.describe));
        }
        assert(parts.deep_view() =~= flag_option_parts(self@));
        join_exec(&parts, ' ')
    }
}

impl PositionalParam {
    /// The canonical text of the parameter, as it would follow `@arg`.
    pub fn render(&self) -> (r: String)
        ensures
            r@ == render_positional(self@),
    {
        let mut parts: Vec<String> = Vec::new();
        parts.push(self.data.render_name());
        if let Some(v) = &self.value_name {
            parts.push(notation_exec(v.as_str()));
        }
        if self.describe.unicode_len() > 0 {
            parts.push(self.describe.clone());
        }
        assert(parts.deep_view() =~= positional_parts(self@));
        join_exec(&parts, ' ')
    }
}

} // verus!
