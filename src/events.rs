//! Line classification: directive tags, function headers, and the events they give.
use crate::grammar::{
    flag_at, flag_exec, option_at, option_exec, positional_at, positional_exec, run_at, run_exec,
    tail_at, tail_exec,
};
use crate::param::{FlagOptionModel, FlagOptionParam, PositionalModel, PositionalParam};
use crate::text::{
    char_at, char_at_exec, chars_of, scan, scan_exec, string_of, word_at, word_at_exec, CharClass,
};
use vstd::prelude::*;

verus! {

/// What a directive or a function header declares.
#[derive(Debug, Clone, PartialEq, Eq)]
pub enum EventData {
    /// Description
    Describe(String),
    /// Version info
    Version(String),
    /// Author info
    Author(String),
    /// Define a subcommand, e.g. `@cmd A sub command`
    Cmd(String),
    /// Define alias for a subcommand, e.g. `@alias t,tst`
    Aliases(Vec<String>),
    /// Define a flag or option parameter
    FlagOption(FlagOptionParam),
    /// Define a positional parameter
    Positional(PositionalParam),
    /// A shell function. e.g `function cmd()` or `cmd()`
    Func(String),
    /// A tag word this grammar does not know, kept for diagnostics
    Unknown(String),
}

/// Where the events read so far leave a downstream reader: at the top level,
/// inside a subcommand, or after the function that closes one.
#[derive(Debug, Clone, Copy, PartialEq, Eq)]
pub enum EventScope {
    Root,
    CmdStart,
    FnEnd,
}

impl Default for EventScope {
    fn default() -> (r: EventScope)
        ensures
            r == EventScope::Root,
    {
        EventScope::Root
    }
}

pub enum EventDataModel {
    Describe(Seq<char>),
    Version(Seq<char>),
    Author(Seq<char>),
    Cmd(Seq<char>),
    Aliases(Seq<Seq<char>>),
    FlagOption(FlagOptionModel),
    Positional(PositionalModel),
    Func(Seq<char>),
    Unknown(Seq<char>),
}

impl View for EventData {
    type V = EventDataModel;

    open spec fn view(&self) -> EventDataModel {
        match self {
            EventData::Describe(t) => EventDataModel::Describe(t@),
            EventData::Version(t) => EventDataModel::Version(t@),
            EventData::Author(t) => EventDataModel::Author(t@),
            EventData::Cmd(t) => EventDataModel::Cmd(t@),
            EventData::Aliases(v) => EventDataModel::Aliases(v.deep_view()),
            EventData::FlagOption(p) => EventDataModel::FlagOption(p@),
            EventData::Positional(p) => EventDataModel::Positional(p@),
            EventData::Func(t) => EventDataModel::Func(t@),
            EventData::Unknown(t) => EventDataModel::Unknown(t@),
        }
    }
}

/// How a line reads: `None` when it is ignored, `Some(None)` when it starts a
/// parameter directive whose body is malformed, `Some(Some(d))` for an event.
pub open spec fn line_view(r: Option<Option<EventData>>) -> Option<Option<EventDataModel>> {
    match r {
        Some(Some(d)) => Some(Some(d@)),
        Some(None) => Some(None),
        None => None,
    }
}

/// The position just after `#...#` (one or more), optional spaces and `@`.
pub open spec fn tag_start(s: Seq<char>) -> Option<int> {
    match run_at(s, 0, CharClass::Hash) {
        Some(h) => {
            let a = scan(s, h, CharClass::Space);
            if char_at(s, a, '@') {
                Some(a + 1)
            } else {
                None
            }
        },
        None => None,
    }
}

/// `describe`, `version`, `author` or `cmd`, and the free text after it.
pub open spec fn text_tag_at(s: Seq<char>, t: int) -> Option<EventDataModel> {
    if word_at(s, t, "describe"@) {
        match tail_at(s, t + 8) {
            Some(x) => Some(EventDataModel::Describe(x)),
            None => None,
        }
    } else if word_at(s, t, "version"@) {
        match tail_at(s, t + 7) {
            Some(x) => Some(EventDataModel::Version(x)),
            None => None,
        }
    } else if word_at(s, t, "author"@) {
        match tail_at(s, t + 6) {
            Some(x) => Some(EventDataModel::Author(x)),
            None => None,
        }
    } else if word_at(s, t, "cmd"@) {
        match tail_at(s, t + 3) {
            Some(x) => Some(EventDataModel::Cmd(x)),
            None => None,
        }
    } else {
        None
    }
}

/// `flag`, `option` or `arg` at `t`: `None` when none of the three words stands
/// there, `Some(None)` when the parameter that follows is malformed.
pub open spec fn param_tag_at(s: Seq<char>, t: int) -> Option<Option<EventDataModel>> {
    if word_at(s, t, "option"@) || word_at(s, t, "flag"@) || word_at(s, t, "arg"@) {
        Some(
            if word_at(s, t, "flag"@) && run_at(s, t + 4, CharClass::Space) is Some && flag_at(
                s,
                run_at(s, t + 4, CharClass::Space)->0,
            ) is Some {
                Some(
                    EventDataModel::FlagOption(
                        flag_at(s, run_at(s, t + 4, CharClass::Space)->0)->0,
                    ),
                )
            } else if word_at(s, t, "option"@) && run_at(s, t + 6, CharClass::Space) is Some
                && option_at(s, run_at(s, t + 6, CharClass::Space)->0) is Some {
                Some(
                    EventDataModel::FlagOption(
                        option_at(s, run_at(s, t + 6, CharClass::Space)->0)->0,
                    ),
                )
            } else if word_at(s, t, "arg"@) && run_at(s, t + 3, CharClass::Space) is Some
                && positional_at(s, run_at(s, t + 3, CharClass::Space)->0) is Some {
                Some(
                    EventDataModel::Positional(
                        positional_at(s, run_at(s, t + 3, CharClass::Space)->0)->0,
                    ),
                )
            } else {
                None
            },
        )
    } else {
        None
    }
}

/// A name between optional spaces.
pub open spec fn name_item_at(s: Seq<char>, i: int) -> Option<(Seq<char>, int)> {
    let a = scan(s, i, CharClass::Space);
    match run_at(s, a, CharClass::Name) {
        Some(b) => Some((s.subrange(a, b), scan(s, b, CharClass::Space))),
        None => None,
    }
}

/// As many `,name` as follow from `i`.
pub open spec fn more_names_at(s: Seq<char>, i: int) -> Seq<Seq<char>>
    decreases s.len() - i,
{
    if char_at(s, i, ',') {
        match name_item_at(s, i + 1) {
            Some((n, j)) => if i < j <= s.len() {
                seq![n] + more_names_at(s, j)
            } else {
                Seq::empty()
            },
            None => Seq::empty(),
        }
    } else {
        Seq::empty()
    }
}

/// `alias` and a comma-separated list of names.
pub open spec fn alias_at(s: Seq<char>, t: int) -> Option<EventDataModel> {
    if word_at(s, t, "alias"@) {
        match run_at(s, t + 5, CharClass::Space) {
            Some(b) => match name_item_at(s, b) {
                Some((n, j)) => Some(EventDataModel::Aliases(seq![n] + more_names_at(s, j))),
                None => None,
            },
            None => None,
        }
    } else {
        None
    }
}

/// Any other tag word.
pub open spec fn unknown_at(s: Seq<char>, t: int) -> Option<EventDataModel> {
    match run_at(s, t, CharClass::Name) {
        Some(e) => Some(EventDataModel::Unknown(s.subrange(t, e))),
        None => None,
    }
}

/// A directive line: `None` when the line is no directive.
pub open spec fn tag_line(s: Seq<char>) -> Option<Option<EventDataModel>> {
    match tag_start(s) {
        Some(t) => if text_tag_at(s, t) is Some {
            Some(text_tag_at(s, t))
        } else if param_tag_at(s, t) is Some {
            param_tag_at(s, t)
        } else if alias_at(s, t) is Some {
            Some(alias_at(s, t))
        } else if unknown_at(s, t) is Some {
            Some(unknown_at(s, t))
        } else {
            None
        },
        None => None,
    }
}

/// A function header, `function name` or `name ()`: the name.
pub open spec fn fn_line(s: Seq<char>) -> Option<Seq<char>> {
    let a = scan(s, 0, CharClass::Space);
    let kw = if word_at(s, a, "function"@) {
        match run_at(s, a + 8, CharClass::Space) {
            Some(c) => match run_at(s, c, CharClass::FnName) {
                Some(e) => Some(s.subrange(c, e)),
                None => None,
            },
            None => None,
        }
    } else {
        None
    };
    if kw is Some {
        kw
    } else {
        match run_at(s, a, CharClass::FnName) {
            Some(e) => {
                let f = scan(s, e, CharClass::Space);
                if char_at(s, f, '(') && char_at(s, scan(s, f + 1, CharClass::Space), ')') {
                    Some(s.subrange(a, e))
                } else {
                    None
                }
            },
            None => None,
        }
    }
}

/// How one line reads: a directive first, else a function header, else ignored.
pub open spec fn line_at(s: Seq<char>) -> Option<Option<EventDataModel>> {
    match tag_line(s) {
        Some(x) => Some(x),
        None => match fn_line(s) {
            Some(n) => Some(Some(EventDataModel::Func(n))),
            None => None,
        },
    }
}

pub open spec fn data_view(r: Option<EventData>) -> Option<EventDataModel> {
    match r {
        Some(d) => Some(d@),
        None => None,
    }
}

fn tag_start_exec(s: &Vec<char>) -> (r: Option<usize>)
    requires
        s@.len() < usize::MAX,
    ensures
        match r {
            Some(t) => tag_start(s@) == Some(t as int) && t <= s@.len(),
            None => tag_start(s@) is None,
        },
{
    match run_exec(s, 0, CharClass::Hash) {
        Some(h) => {
            let a = scan_exec(s, h, CharClass::Space);
            if char_at_exec(s, a, '@') {
                Some(a + 1)
            } else {
                None
            }
        },
        None => None,
    }
}

fn text_tag_exec(s: &Vec<char>, t: usize) -> (r: Option<EventData>)
    requires
        t <= s@.len() < usize::MAX,
    ensures
        data_view(r) == text_tag_at(s@, t as int),
{
    proof {
        reveal_strlit("describe");
        reveal_strlit("version");
        reveal_strlit("author");
        reveal_strlit("cmd");
    }
    if word_at_exec(s, t, "describe") {
        match tail_exec(s, t + 8) {
            Some(x) => Some(EventData::Describe(x)),
            None => None,
        }
    } else if word_at_exec(s, t, "version") {
        match tail_exec(s, t + 7) {
            Some(x) => Some(EventData::Version(x)),
            None => None,
        }
    } else if word_at_exec(s, t, "author") {
        match tail_exec(s, t + 6) {
            Some(x) => Some(EventData::Author(x)),
            None => None,
        }
    } else if word_at_exec(s, t, "cmd") {
        match tail_exec(s, t + 3) {
            Some(x) => Some(EventData::Cmd(x)),
            None => None,
        }
    } else {
        None
    }
}

fn param_tag_exec(s: &Vec<char>, t: usize) -> (r: Option<Option<EventData>>)
    requires
        t <= s@.len() < usize::MAX,
    ensures
        line_view(r) == param_tag_at(s@, t as int),
{
    proof {
        reveal_strlit("option");
        reveal_strlit("flag");
        reveal_strlit("arg");
    }
    let is_option = word_at_exec(s, t, "option");
    let is_flag = word_at_exec(s, t, "flag");
    let is_arg = word_at_exec(s, t, "arg");
    if !(is_option || is_flag || is_arg) {
        return None;
    }
    if is_flag {
        if let Some(b) = run_exec(s, t + 4, CharClass::Space) {
            if let Some(p) = flag_exec(s, b) {
                return Some(Some(EventData::FlagOption(p)));
            }
        }
    }
    if is_option {
        if let Some(b) = run_exec(s, t + 6, CharClass::Space) {
            if let Some(p) = option_exec(s, b) {
                return Some(Some(EventData::FlagOption(p)));
            }
        }
    }
    if is_arg {
        if let Some(b) = run_exec(s, t + 3, CharClass::Space) {
            if let Some(p) = positional_exec(s, b) {
                return Some(Some(EventData::Positional(p)));
            }
        }
    }
    Some(None)
}

fn name_item_exec(s: &Vec<char>, i: usize) -> (r: Option<(String, usize)>)
    requires
        i <= s@.len() < usize::MAX,
    ensures
        match r {
            Some((n, j)) => name_item_at(s@, i as int) == Some((n@, j as int)) && i < j
                <= s@.len(),
            None => name_item_at(s@, i as int) is None,
        },
{
    let a = scan_exec(s, i, CharClass::Space);
    match run_exec(s, a, CharClass::Name) {
        Some(b) => Some((string_of(s, a, b), scan_exec(s, b, CharClass::Space))),
        None => None,
    }
}

fn alias_exec(s: &Vec<char>, t: usize) -> (r: Option<EventData>)
    requires
        t <= s@.len() < usize::MAX,
    ensures
        data_view(r) == alias_at(s@, t as int),
{
    proof {
        reveal_strlit("alias");
    }
    if !word_at_exec(s, t, "alias") {
        return None;
    }
    let b = match run_exec(s, t + 5, CharClass::Space) {
        Some(b) => b,
        None => return None,
    };
    let (first, mut k) = match name_item_exec(s, b) {
        Some(x) => x,
        None => return None,
    };
    let mut names: Vec<String> = Vec::new();
    names.push(first);
    let ghost j0 = k as int;
    assert(names.deep_view() =~= seq![first@]);
    let mut done = false;
    while !done
        invariant
            b <= k <= s@.len() < usize::MAX,
            seq![first@] + more_names_at(s@, j0) == names.deep_view() + more_names_at(
                s@,
                k as int,
            ),
            done ==> more_names_at(s@, k as int) == Seq::<Seq<char>>::empty(),
        decreases s@.len() - k, if done { 0int } else { 1int },
    {
        if char_at_exec(s, k, ',') {
            match name_item_exec(s, k + 1) {
                Some((n, j)) => {
                    let ghost before = names.deep_view();
                    names.push(n);
                    proof {
                        assert(names.deep_view() =~= before.push(n@));
                        assert(before + (seq![n@] + more_names_at(s@, j as int))
                            =~= names.deep_view() + more_names_at(s@, j as int));
                    }
                    k = j;
                },
                None => {
                    done = true;
                },
            }
        } else {
            done = true;
        }
    }
    assert(names.deep_view() + Seq::<Seq<char>>::empty() =~= names.deep_view());
    Some(EventData::Aliases(names))
}

fn tag_line_exec(s: &Vec<char>) -> (r: Option<Option<EventData>>)
    requires
        s@.len() < usize::MAX,
    ensures
        line_view(r) == tag_line(s@),
{
    let t = match tag_start_exec(s) {
        Some(t) => t,
        None => return None,
    };
    if let Some(d) = text_tag_exec(s, t) {
        return Some(Some(d));
    }
    if let Some(x) = param_tag_exec(s, t) {
        return Some(x);
    }
    if let Some(d) = alias_exec(s, t) {
        return Some(Some(d));
    }
    match run_exec(s, t, CharClass::Name) {
        Some(e) => Some(Some(EventData::Unknown(string_of(s, t, e)))),
        None => None,
    }
}

fn fn_line_exec(s: &Vec<char>) -> (r: Option<String>)
    requires
        s@.len() < usize::MAX,
    ensures
        match r {
            Some(n) => fn_line(s@) == Some(n@),
            None => fn_line(s@) is None,
        },
{
    proof {
        reveal_strlit("function");
    }
    let a = scan_exec(s, 0, CharClass::Space);
    if word_at_exec(s, a, "function") {
        if let Some(c) = run_exec(s, a + 8, CharClass::Space) {
            if let Some(e) = run_exec(s, c, CharClass::FnName) {
                return Some(string_of(s, c, e));
            }
        }
    }
    match run_exec(s, a, CharClass::FnName) {
        Some(e) => {
            let f = scan_exec(s, e, CharClass::Space);
            if char_at_exec(s, f, '(') {
                let g = scan_exec(s, f + 1, CharClass::Space);
                if char_at_exec(s, g, ')') {
                    return Some(string_of(s, a, e));
                }
            }
            None
        },
        None => None,
    }
}

pub(crate) fn line_exec(s: &Vec<char>) -> (r: Option<Option<EventData>>)
    requires
        s@.len() < usize::MAX,
    ensures
        line_view(r) == line_at(s@),
{
    match tag_line_exec(s) {
        Some(x) => Some(x),
        None => match fn_line_exec(s) {
            Some(n) => Some(Some(EventData::Func(n))),
            None => None,
        },
    }
}

/// Classifies one line: `None` when it is ignored, `Some(None)` when it starts
/// a parameter directive whose body is malformed, `Some(Some(d))` for an event.
pub fn parse_line(line: &str) -> (r: Option<Option<EventData>>)
    requires
        line@.len() < usize::MAX,
    ensures
        line_view(r) == line_at(line@),
{
    let s = chars_of(line);
    line_exec(&s)
}

} // verus!
