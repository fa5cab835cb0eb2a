//! The line driver: splits a script into lines, classifies each, folds
//! continuation comments into descriptions, and collects the events.
use crate::events::{line_at, line_exec, EventData, EventDataModel};
use crate::text::{
    char_at, char_at_exec, chars_of, push_all, scan, scan_exec,
    trimmed, trimmed_exec, CharClass,
};
use vstd::prelude::*;

verus! {

/// An event and the 1-based line of the directive it came from.
#[derive(Debug, Clone, PartialEq, Eq)]
pub struct Event {
    pub data: EventData,
    pub position: usize,
}

pub struct EventModel {
    pub data: EventDataModel,
    pub position: int,
}

impl View for Event {
    type V = EventModel;

    open spec fn view(&self) -> EventModel {
        EventModel { data: self.data@, position: self.position as int }
    }
}

/// Why a script could not be read.
#[derive(Debug, Clone, Copy, PartialEq, Eq)]
pub enum ParseError {
    /// The line (1-based) starts a parameter directive whose body is malformed.
    /// Every other line classifies: unmatched lines are ignored.
    DirectiveBodyInvalid(usize),
}

/// The decimal digits of `n`.
pub open spec fn decimal(n: nat) -> Seq<char>
    decreases n,
{
    if n < 10 {
        seq![digit(n)]
    } else {
        decimal(n / 10) + seq![digit(n % 10)]
    }
}

pub open spec fn digit(d: nat) -> char {
    if d == 0 { '0' } else if d == 1 { '1' } else if d == 2 { '2' } else if d == 3 { '3' }
    else if d == 4 { '4' } else if d == 5 { '5' } else if d == 6 { '6' } else if d == 7 { '7' }
    else if d == 8 { '8' } else { '9' }
}

fn digit_exec(d: usize) -> (r: char)
    requires
        d < 10,
    ensures
        r == digit(d as nat),
{
    if d == 0 { '0' } else if d == 1 { '1' } else if d == 2 { '2' } else if d == 3 { '3' }
    else if d == 4 { '4' } else if d == 5 { '5' } else if d == 6 { '6' } else if d == 7 { '7' }
    else if d == 8 { '8' } else { '9' }
}

/// Appends the decimal digits of `n` to `r`.
fn push_decimal(r: &mut String, n: usize)
    ensures
        final(r)@ == old(r)@ + decimal(n as nat),
    decreases n,
{
    if n >= 10 {
        push_decimal(r, n / 10);
    }
    r.push(digit_exec(n % 10));
    assert(r@ =~= old(r)@ + decimal(n as nat));
}

impl ParseError {
    /// The 1-based line the error is at.
    pub fn position(&self) -> (r: usize)
        ensures
            r == match self {
                ParseError::DirectiveBodyInvalid(p) => *p,
            },
    {
        match self {
            ParseError::DirectiveBodyInvalid(p) => *p,
        }
    }

    /// A human-readable cause: `syntax error at line N`.
    pub fn message(&self) -> (r: String)
        ensures
            r@ == "syntax error at line "@ + decimal(
                match self {
                    ParseError::DirectiveBodyInvalid(p) => *p as nat,
                },
            ),
    {
        proof {
            reveal_strlit("syntax error at line ");
        }
        let mut r = String::new();
        push_all(&mut r, "syntax error at line ");
        push_decimal(&mut r, self.position());
        r
    }
}

/// The lines of `s` from `i` on: split at line feeds, a carriage return just
/// before a line feed dropped, no line after a final line feed.
pub open spec fn lines_from(s: Seq<char>, i: int) -> Seq<Seq<char>>
    decreases s.len() - i,
{
    if i < 0 || i >= s.len() {
        Seq::empty()
    } else {
        let e = scan(s, i, CharClass::LineChar);
        if i <= e < s.len() {
            let b = if e > i && s[e - 1] == '\r' {
                e - 1
            } else {
                e
            };
            seq![s.subrange(i, b)] + lines_from(s, e + 1)
        } else {
            seq![s.subrange(i, e)]
        }
    }
}

pub open spec fn lines_of(s: Seq<char>) -> Seq<Seq<char>> {
    lines_from(s, 0)
}

/// A plain comment that continues a description: one or more `#`, then either
/// only spaces, or an optional space or tab and text that does not start (after
/// spaces) with `@`. The position where the carried text starts.
pub open spec fn comment_text_start(s: Seq<char>) -> Option<int> {
    let h = scan(s, 0, CharClass::Hash);
    if h == 0 {
        None
    } else if scan(s, h, CharClass::Space) == s.len() {
        Some(s.len() as int)
    } else {
        let b = if h < s.len() && (s[h] == ' ' || s[h] == '\t') {
            h + 1
        } else {
            h
        };
        if char_at(s, scan(s, b, CharClass::Space), '@') {
            None
        } else {
            Some(b)
        }
    }
}

/// The text a continuation line carries.
pub open spec fn comment_text(s: Seq<char>) -> Seq<char> {
    s.subrange(comment_text_start(s)->0, s.len() as int)
}

/// How many lines from `i` on are continuation comments.
pub open spec fn comment_run(lines: Seq<Seq<char>>, i: int) -> nat
    decreases lines.len() - i,
{
    if 0 <= i < lines.len() && comment_text_start(lines[i]) is Some {
        1 + comment_run(lines, i + 1)
    } else {
        0
    }
}

/// The texts of `n` lines from `i` on, each after a line feed.
pub open spec fn comment_block(lines: Seq<Seq<char>>, i: int, n: nat) -> Seq<char>
    decreases n,
{
    if n == 0 {
        Seq::empty()
    } else {
        comment_block(lines, i, (n - 1) as nat) + seq!['\n'] + comment_text(lines[i + n - 1])
    }
}

/// `text` with the continuation lines from `i` on appended, then trimmed.
pub open spec fn continued(text: Seq<char>, lines: Seq<Seq<char>>, i: int) -> Seq<char> {
    let all = text + comment_block(lines, i, comment_run(lines, i));
    trimmed(all, 0, all.len() as int)
}

/// Whether events of this kind take continuation lines into their text.
pub open spec fn takes_continuation(d: EventDataModel) -> bool {
    match d {
        EventDataModel::Describe(_) => true,
        EventDataModel::Cmd(_) => true,
        EventDataModel::FlagOption(_) => true,
        EventDataModel::Positional(_) => true,
        _ => false,
    }
}

/// The event with its free text extended by the continuation lines from `i` on.
pub open spec fn with_continuation(
    d: EventDataModel,
    lines: Seq<Seq<char>>,
    i: int,
) -> EventDataModel {
    match d {
        EventDataModel::Describe(t) => EventDataModel::Describe(continued(t, lines, i)),
        EventDataModel::Cmd(t) => EventDataModel::Cmd(continued(t, lines, i)),
        EventDataModel::FlagOption(p) => EventDataModel::FlagOption(
            crate::param::FlagOptionModel { describe: continued(p.describe, lines, i), ..p },
        ),
        EventDataModel::Positional(p) => EventDataModel::Positional(
            crate::param::PositionalModel { describe: continued(p.describe, lines, i), ..p },
        ),
        _ => d,
    }
}

/// The events of the lines from `i` on, or the 1-based line of the first
/// malformed directive.
pub open spec fn events_from(lines: Seq<Seq<char>>, i: int) -> Result<Seq<EventModel>, int>
    decreases lines.len() - i,
{
    if i < 0 || i >= lines.len() {
        Ok(Seq::empty())
    } else {
        match line_at(lines[i]) {
            None => events_from(lines, i + 1),
            Some(None) => Err(i + 1),
            Some(Some(d)) => {
                let n: int = if takes_continuation(d) {
                    comment_run(lines, i + 1) as int
                } else {
                    0
                };
                let ev = EventModel {
                    data: if takes_continuation(d) {
                        with_continuation(d, lines, i + 1)
                    } else {
                        d
                    },
                    position: i + 1,
                };
                // A run of continuation lines ends within the script, so this
                // test always passes; it keeps the recursion visibly decreasing.
                if i + 1 + n <= lines.len() {
                    match events_from(lines, i + 1 + n) {
                        Ok(evs) => Ok(seq![ev] + evs),
                        Err(p) => Err(p),
                    }
                } else {
                    Err(i + 1)
                }
            },
        }
    }
}

/// What reading a whole script gives.
pub open spec fn events_of(source: Seq<char>) -> Result<Seq<EventModel>, int> {
    events_from(lines_of(source), 0)
}

pub open spec fn lines_view(v: Seq<Vec<char>>) -> Seq<Seq<char>> {
    v.map_values(|l: Vec<char>| l@)
}

pub open spec fn events_view(evs: Seq<Event>) -> Seq<EventModel> {
    evs.map_values(|e: Event| e@)
}

/// The characters of `s` from `i` to `j`.
fn sub_chars(s: &Vec<char>, i: usize, j: usize) -> (r: Vec<char>)
    requires
        i <= j <= s@.len(),
    ensures
        r@ == s@.subrange(i as int, j as int),
{
    let mut r: Vec<char> = Vec::new();
    let mut k: usize = i;
    while k < j
        invariant
            i <= k <= j <= s@.len(),
            r@ == s@.subrange(i as int, k as int),
        decreases j - k,
    {
        r.push(s[k]);
        assert(s@.subrange(i as int, k + 1) =~= s@.subrange(i as int, k as int).push(s@[k as int]));
        k = k + 1;
    }
    r
}

/// Splits a script into its lines.
pub fn split_lines(s: &Vec<char>) -> (r: Vec<Vec<char>>)
    requires
        s@.len() < usize::MAX,
    ensures
        lines_view(r@) == lines_of(s@),
        forall|k: int| 0 <= k < r@.len() ==> #[trigger] r@[k]@.len() <= s@.len(),
{
    let mut r: Vec<Vec<char>> = Vec::new();
    let mut i: usize = 0;
    while i < s.len()
        invariant
            i <= s@.len() < usize::MAX,
            lines_of(s@) == lines_view(r@) + lines_from(s@, i as int),
            forall|k: int| 0 <= k < r@.len() ==> #[trigger] r@[k]@.len() <= s@.len(),
        decreases s@.len() - i,
    {
        let e = scan_exec(s, i, CharClass::LineChar);
        let ghost before = lines_view(r@);
        if e < s.len() {
            let b = if e > i && s[e - 1] == '\r' {
                e - 1
            } else {
                e
            };
            let line = sub_chars(s, i, b);
            r.push(line);
            proof {
                assert(lines_view(r@) =~= before.push(s@.subrange(i as int, b as int)));
                assert(before + (seq![s@.subrange(i as int, b as int)] + lines_from(s@, e + 1))
                    =~= lines_view(r@) + lines_from(s@, e + 1));
            }
            i = e + 1;
        } else {
            let line = sub_chars(s, i, e);
            r.push(line);
            proof {
                assert(lines_view(r@) =~= before.push(s@.subrange(i as int, e as int)));
                assert(lines_from(s@, s@.len() as int) =~= Seq::<Seq<char>>::empty());
                assert(before + seq![s@.subrange(i as int, e as int)] =~= lines_view(r@)
                    + lines_from(s@, s@.len() as int));
            }
            i = s.len();
        }
    }
    assert(lines_view(r@) + lines_from(s@, i as int) =~= lines_view(r@));
    r
}

fn comment_text_start_exec(s: &Vec<char>) -> (r: Option<usize>)
    ensures
        match r {
            Some(b) => comment_text_start(s@) == Some(b as int) && b <= s@.len(),
            None => comment_text_start(s@) is None,
        },
{
    let h = scan_exec(s, 0, CharClass::Hash);
    if h == 0 {
        None
    } else if scan_exec(s, h, CharClass::Space) == s.len() {
        Some(s.len())
    } else {
        let b = if h < s.len() && (s[h] == ' ' || s[h] == '\t') {
            h + 1
        } else {
            h
        };
        if char_at_exec(s, scan_exec(s, b, CharClass::Space), '@') {
            None
        } else {
            Some(b)
        }
    }
}

/// Appends to `output` the plain comment lines that follow, from `idx` on, each
/// after a line feed, stopping at the first line that is no such comment; then
/// trims `output`. Returns how many lines it took.
pub fn take_comment_lines(lines: &Vec<Vec<char>>, idx: usize, output: &mut String) -> (r: usize)
    ensures
        r == comment_run(lines_view(lines@), idx as int),
        idx <= lines@.len() ==> idx + r <= lines@.len(),
        final(output)@ == continued(old(output)@, lines_view(lines@), idx as int),
{
    let ghost ls = lines_view(lines@);
    if idx >= lines.len() {
        let ghost before = output@;
        assert(before + comment_block(ls, idx as int, 0) =~= before);
        let all = chars_of(output.as_str());
        *output = trimmed_exec(&all, 0, all.len());
        return 0;
    }
    let mut k: usize = idx;
    let mut done = false;
    while k < lines.len() && !done
        invariant
            idx <= k <= lines@.len(),
            ls == lines_view(lines@),
            output@ == old(output)@ + comment_block(ls, idx as int, (k - idx) as nat),
            comment_run(ls, idx as int) == (k - idx) + comment_run(ls, k as int),
            done ==> comment_run(ls, k as int) == 0,
        decreases lines@.len() - k, if done { 0int } else { 1int },
    {
        let line = &lines[k];
        assert(line@ == ls[k as int]);
        match comment_text_start_exec(line) {
            Some(b) => {
                output.push('\n');
                let text = crate::text::string_of(line, b, line.len());
                push_all(output, text.as_str());
                proof {
                    let n = (k + 1 - idx) as nat;
                    assert(idx + n - 1 == k);
                    assert(comment_block(ls, idx as int, n) == comment_block(
                        ls,
                        idx as int,
                        (n - 1) as nat,
                    ) + seq!['\n'] + comment_text(ls[k as int]));
                    assert(output@ =~= old(output)@ + comment_block(ls, idx as int, n));
                }
                k = k + 1;
            },
            None => {
                done = true;
            },
        }
    }
    let all = chars_of(output.as_str());
    *output = trimmed_exec(&all, 0, all.len());
    k - idx
}

/// The event with its free text extended by the continuation lines from `idx`
/// on, and how many lines that took.
fn extend_event(data: EventData, lines: &Vec<Vec<char>>, idx: usize) -> (r: (EventData, usize))
    requires
        idx <= lines@.len(),
    ensures
        r.1 == (if takes_continuation(data@) {
            comment_run(lines_view(lines@), idx as int)
        } else {
            0
        }),
        idx + r.1 <= lines@.len(),
        r.0@ == (if takes_continuation(data@) {
            with_continuation(data@, lines_view(lines@), idx as int)
        } else {
            data@
        }),
{
    match data {
        EventData::Describe(mut text) => {
            let n = take_comment_lines(lines, idx, &mut text);
            (EventData::Describe(text), n)
        },
        EventData::Cmd(mut text) => {
            let n = take_comment_lines(lines, idx, &mut text);
            (EventData::Cmd(text), n)
        },
        EventData::FlagOption(mut param) => {
            let n = take_comment_lines(lines, idx, &mut param.describe);
            (EventData::FlagOption(param), n)
        },
        EventData::Positional(mut param) => {
            let n = take_comment_lines(lines, idx, &mut param.describe);
            (EventData::Positional(param), n)
        },
        v => (v, 0),
    }
}

/// Reads a whole script: the events of its directives and function headers, in
/// order, each with its 1-based line; or the line of the first malformed
/// parameter directive.
#[verifier::rlimit(60)]
pub fn parse(source: &str) -> (r: Result<Vec<Event>, ParseError>)
    requires
        source@.len() < usize::MAX,
    ensures
        match r {
            Ok(evs) => events_of(source@) == Ok::<Seq<EventModel>, int>(events_view(evs@)),
            Err(ParseError::DirectiveBodyInvalid(p)) => events_of(source@) == Err::<
                Seq<EventModel>,
                int,
            >(p as int),
        },
{
    let chars = chars_of(source);
    let lines = split_lines(&chars);
    let ghost ls = lines_view(lines@);
    let mut result: Vec<Event> = Vec::new();
    let mut idx: usize = 0;
    while idx < lines.len()
        invariant
            idx <= lines@.len(),
            ls == lines_view(lines@),
            ls == lines_of(source@),
            chars@ == source@,
            forall|k: int| 0 <= k < lines@.len() ==> #[trigger] lines@[k]@.len() <= source@.len(),
            source@.len() < usize::MAX,
            events_of(source@) == match events_from(ls, idx as int) {
                Ok(evs) => Ok(events_view(result@) + evs),
                Err(p) => Err::<Seq<EventModel>, int>(p),
            },
        decreases lines@.len() - idx,
    {
        let position = idx + 1;
        assert(lines@[idx as int]@ == ls[idx as int]);
        match line_exec(&lines[idx]) {
            None => {
                idx = idx + 1;
            },
            Some(None) => {
                return Err(ParseError::DirectiveBodyInvalid(position));
            },
            Some(Some(data)) => {
                let ghost d = data@;
                let (data, taken) = extend_event(data, &lines, idx + 1);
                let ev = Event { data, position };
                let ghost before = events_view(result@);
                result.push(ev);
                proof {
                    assert(events_view(result@) =~= before.push(ev@));
                    match events_from(ls, idx + 1 + taken) {
                        Ok(evs) => {
                            assert(before + (seq![ev@] + evs) =~= events_view(result@) + evs);
                        },
                        Err(p) => {},
                    }
                }
                idx = idx + 1 + taken;
            },
        }
    }
    assert(events_view(result@) + Seq::<EventModel>::empty() =~= events_view(result@));
    Ok(result)
}

} // verus!
