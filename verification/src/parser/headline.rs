use vstd::prelude::*;
use crate::classes::{to_uppercase, unicode_upper};
use crate::text::{ascii_lower, ascii_upper_seq, is_ascii_seq};
use crate::parser::properties::{parse_properties_chars, parse_properties_spec, Properties, PropertiesView};
use crate::parser::timestamp::{
    opt_ts_view, parse_closed_chars, parse_closed_spec, parse_deadline_chars, parse_deadline_spec,
    parse_scheduled_chars, parse_scheduled_spec, OrgTimestamp, TimestampView,
};
use crate::text::{
    char_at, chars_eq_ignore_ascii_case, chars_of, eq_ignore_ascii_case, is_char_at,
    is_whitespace, join_nl, join_spans, lemma_find_char, line_spans, lines, matches_lit_at, occurs_at, push_range,
    skip_ws, span_seq, spans_ok, split, split_range, starts_with, str_eq, trim, trim_span,
    trim_string, ws_end, is_ws,
};

verus! {

broadcast use vstd::string::group_string_axioms;

#[derive(Clone, Copy, Debug, PartialEq, Eq, Structural)]
pub enum TodoState {
    Todo,
    Done,
    Next,
    Waiting,
    Cancelled,
}

/// The keyword of a state.
pub open spec fn todo_keyword(s: TodoState) -> Seq<char> {
    match s {
        TodoState::Todo => "TODO"@,
        TodoState::Done => "DONE"@,
        TodoState::Next => "NEXT"@,
        TodoState::Waiting => "WAITING"@,
        TodoState::Cancelled => "CANCELLED"@,
    }
}

/// The state whose keyword is exactly `u`.
pub open spec fn todo_from_keyword(u: Seq<char>) -> Option<TodoState> {
    if u == "TODO"@ {
        Some(TodoState::Todo)
    } else if u == "DONE"@ {
        Some(TodoState::Done)
    } else if u == "NEXT"@ {
        Some(TodoState::Next)
    } else if u == "WAITING"@ {
        Some(TodoState::Waiting)
    } else if u == "CANCELLED"@ {
        Some(TodoState::Cancelled)
    } else {
        None
    }
}

impl TodoState {
    pub open spec fn spec_is_done(self) -> bool {
        self == TodoState::Done || self == TodoState::Cancelled
    }

    /// The state whose keyword is `s` in upper case (`s.to_uppercase()`).
    pub fn from_str(s: &str) -> (r: Option<Self>)
        ensures
            r == todo_from_keyword(unicode_upper(s@)),
            is_ascii_seq(s@) ==> r == todo_from_keyword(ascii_upper_seq(s@)),
    {
        let u = to_uppercase(s);
        Self::from_upper(u.as_str())
    }

    /// The state whose keyword is exactly `u`.
    pub fn from_upper(u: &str) -> (r: Option<Self>)
        ensures
            r == todo_from_keyword(u@),
    {
        if str_eq(u, "TODO") {
            Some(TodoState::Todo)
        } else if str_eq(u, "DONE") {
            Some(TodoState::Done)
        } else if str_eq(u, "NEXT") {
            Some(TodoState::Next)
        } else if str_eq(u, "WAITING") {
            Some(TodoState::Waiting)
        } else if str_eq(u, "CANCELLED") {
            Some(TodoState::Cancelled)
        } else {
            None
        }
    }

    /// `DONE` and `CANCELLED` are done.
    pub fn is_done(&self) -> (r: bool)
        ensures
            r == self.spec_is_done(),
    {
        match self {
            TodoState::Done | TodoState::Cancelled => true,
            _ => false,
        }
    }

    pub fn as_str(&self) -> (r: &'static str)
        ensures
            r@ == todo_keyword(*self),
    {
        match self {
            TodoState::Todo => "TODO",
            TodoState::Done => "DONE",
            TodoState::Next => "NEXT",
            TodoState::Waiting => "WAITING",
            TodoState::Cancelled => "CANCELLED",
        }
    }
}

/// Text that equals a keyword up to ASCII case names its state once in upper case.
proof fn lemma_upper_of_keyword(t: Seq<char>, k: Seq<char>)
    requires
        eq_ignore_ascii_case(t, k),
        forall|i: int| 0 <= i < k.len() ==> 'A' <= #[trigger] k[i] <= 'Z',
    ensures
        ascii_upper_seq(t) == k,
{
    assert forall|i: int| 0 <= i < t.len() implies #[trigger] ascii_upper_seq(t)[i] == k[i] by {
        assert(ascii_lower(t[i]) == ascii_lower(k[i]));
        assert('A' <= k[i] <= 'Z');
    }
    assert(ascii_upper_seq(t) =~= k);
}

/// Any ASCII text that equals the keyword of a state up to ASCII case is read as that state:
/// `from_str("todo")`, `from_str("Done")` and the keywords themselves all name their state.
pub proof fn lemma_todo_any_case(st: TodoState, t: Seq<char>)
    requires
        eq_ignore_ascii_case(t, todo_keyword(st)),
    ensures
        todo_from_keyword(ascii_upper_seq(t)) == Some(st),
        is_ascii_seq(todo_keyword(st)),
{
    reveal_strlit("TODO");
    reveal_strlit("DONE");
    reveal_strlit("NEXT");
    reveal_strlit("WAITING");
    reveal_strlit("CANCELLED");
    let k = todo_keyword(st);
    assert(forall|i: int| 0 <= i < k.len() ==> 'A' <= #[trigger] k[i] <= 'Z');
    lemma_upper_of_keyword(t, k);
    lemma_todo_keyword_round_trip(st);
}

/// A state is done exactly when its keyword is `DONE` or `CANCELLED`.
pub proof fn lemma_done_states(st: TodoState)
    ensures
        st.spec_is_done() <==> (todo_keyword(st) == "DONE"@ || todo_keyword(st) == "CANCELLED"@),
{
    reveal_strlit("TODO");
    reveal_strlit("DONE");
    reveal_strlit("NEXT");
    reveal_strlit("WAITING");
    reveal_strlit("CANCELLED");
    assert("TODO"@[0] != "DONE"@[0]);
    assert("NEXT"@[0] != "DONE"@[0]);
    assert("WAITING"@.len() != "DONE"@.len());
    assert("TODO"@.len() != "CANCELLED"@.len());
    assert("NEXT"@.len() != "CANCELLED"@.len());
    assert("WAITING"@.len() != "CANCELLED"@.len());
}

/// The priority cookie is `[#A]`, `[#B]` or `[#C]` and nothing else.
pub proof fn lemma_priority_cookies(s: Seq<char>, i: int)
    ensures
        priority_at(s, i) <==> (0 <= i && i + 4 <= s.len() && s[i] == '[' && s[i + 1] == '#' && (s[i
            + 2] == 'A' || s[i + 2] == 'B' || s[i + 2] == 'C') && s[i + 3] == ']'),
{
}

/// The keyword of a state names that state.
pub proof fn lemma_todo_keyword_round_trip(s: TodoState)
    ensures
        todo_from_keyword(todo_keyword(s)) == Some(s),
{
    reveal_strlit("TODO");
    reveal_strlit("DONE");
    reveal_strlit("NEXT");
    reveal_strlit("WAITING");
    reveal_strlit("CANCELLED");
    match s {
        TodoState::Todo => {},
        TodoState::Done => {
            assert("DONE"@ != "TODO"@) by {
                assert("DONE"@[0] != "TODO"@[0]);
            }
        },
        TodoState::Next => {
            assert("NEXT"@ != "TODO"@) by {
                assert("NEXT"@[0] != "TODO"@[0]);
            }
            assert("NEXT"@ != "DONE"@) by {
                assert("NEXT"@[0] != "DONE"@[0]);
            }
        },
        TodoState::Waiting => {
            assert("WAITING"@.len() != "TODO"@.len());
            assert("WAITING"@.len() != "DONE"@.len());
            assert("WAITING"@.len() != "NEXT"@.len());
        },
        TodoState::Cancelled => {
            assert("CANCELLED"@.len() != "TODO"@.len());
            assert("CANCELLED"@.len() != "DONE"@.len());
            assert("CANCELLED"@.len() != "NEXT"@.len());
            assert("CANCELLED"@.len() != "WAITING"@.len());
        },
    }
}

/// A headline with what follows it up to the next headline.
#[derive(Debug, PartialEq)]
pub struct Headline {
    pub level: usize,
    pub todo_state: Option<TodoState>,
    pub priority: Option<char>,
    pub title: String,
    pub tags: Vec<String>,
    pub properties: Properties,
    pub scheduled: Option<OrgTimestamp>,
    pub deadline: Option<OrgTimestamp>,
    pub closed: Option<OrgTimestamp>,
    pub body: String,
    pub line_number: usize,
}

pub struct HeadlineView {
    pub level: usize,
    pub todo_state: Option<TodoState>,
    pub priority: Option<char>,
    pub title: Seq<char>,
    pub tags: Seq<Seq<char>>,
    pub properties: PropertiesView,
    pub scheduled: Option<TimestampView>,
    pub deadline: Option<TimestampView>,
    pub closed: Option<TimestampView>,
    pub body: Seq<char>,
    pub line_number: usize,
}

pub open spec fn strings_view(v: Seq<String>) -> Seq<Seq<char>> {
    v.map_values(|s: String| s@)
}

impl View for Headline {
    type V = HeadlineView;

    open spec fn view(&self) -> HeadlineView {
        HeadlineView {
            level: self.level,
            todo_state: self.todo_state,
            priority: self.priority,
            title: self.title@,
            tags: strings_view(self.tags@),
            properties: self.properties@,
            scheduled: opt_ts_view(self.scheduled),
            deadline: opt_ts_view(self.deadline),
            closed: opt_ts_view(self.closed),
            body: self.body@,
            line_number: self.line_number,
        }
    }
}

impl HeadlineView {
    pub open spec fn is_done(self) -> bool {
        match self.todo_state {
            Some(s) => s.spec_is_done(),
            None => false,
        }
    }

    pub open spec fn has_tag(self, tag: Seq<char>) -> bool {
        exists|i: int| 0 <= i < self.tags.len() && eq_ignore_ascii_case(#[trigger] self.tags[i], tag)
    }

    pub open spec fn is_habit(self) -> bool {
        self.properties.style == Some("habit"@)
    }
}

// ---------------------------------------------------------------------------
// The grammar of the headline line
// ---------------------------------------------------------------------------

/// The end of the run of `*` that starts at `i`.
pub open spec fn star_end(s: Seq<char>, i: int) -> int
    decreases s.len() - i,
{
    if 0 <= i < s.len() && s[i] == '*' {
        star_end(s, i + 1)
    } else {
        i
    }
}

/// Where the text after `token\s+` starts, when the token ends at `j`. The run of white space
/// is as long as it can be while something is left for the title (`.+?`), which must have a
/// character.
pub open spec fn after_space(s: Seq<char>, j: int) -> Option<int> {
    let w = ws_end(s, j);
    if w == j {
        None
    } else if w < s.len() {
        Some(w)
    } else if w - j >= 2 {
        Some(s.len() - 1)
    } else {
        None
    }
}

/// `(TODO|DONE|NEXT|WAITING|CANCELLED)` at `i`, with the index after it.
pub open spec fn keyword_at(s: Seq<char>, i: int) -> Option<(TodoState, int)> {
    if occurs_at(s, "TODO"@, i) {
        Some((TodoState::Todo, i + 4))
    } else if occurs_at(s, "DONE"@, i) {
        Some((TodoState::Done, i + 4))
    } else if occurs_at(s, "NEXT"@, i) {
        Some((TodoState::Next, i + 4))
    } else if occurs_at(s, "WAITING"@, i) {
        Some((TodoState::Waiting, i + 7))
    } else if occurs_at(s, "CANCELLED"@, i) {
        Some((TodoState::Cancelled, i + 9))
    } else {
        None
    }
}

/// The keyword group reads exactly the five keywords, each as its own state: where the keyword
/// of a state stands at `i` it is read as that state and ends after the keyword, and whatever
/// is read is a keyword standing there.
pub proof fn lemma_keyword_at(s: Seq<char>, i: int)
    ensures
        occurs_at(s, "TODO"@, i) ==> keyword_at(s, i) == Some((TodoState::Todo, i + 4)),
        occurs_at(s, "DONE"@, i) ==> keyword_at(s, i) == Some((TodoState::Done, i + 4)),
        occurs_at(s, "NEXT"@, i) ==> keyword_at(s, i) == Some((TodoState::Next, i + 4)),
        occurs_at(s, "WAITING"@, i) ==> keyword_at(s, i) == Some((TodoState::Waiting, i + 7)),
        occurs_at(s, "CANCELLED"@, i) ==> keyword_at(s, i) == Some((TodoState::Cancelled, i + 9)),
        forall|st: TodoState|
            occurs_at(s, #[trigger] todo_keyword(st), i) ==> keyword_at(s, i) == Some(
                (st, i + todo_keyword(st).len()),
            ),
        keyword_at(s, i) matches Some(kw) ==> occurs_at(s, todo_keyword(kw.0), i) && kw.1 == i
            + todo_keyword(kw.0).len(),
{
    reveal_strlit("TODO");
    reveal_strlit("DONE");
    reveal_strlit("NEXT");
    reveal_strlit("WAITING");
    reveal_strlit("CANCELLED");
    let t = "TODO"@;
    let d = "DONE"@;
    let n = "NEXT"@;
    let w = "WAITING"@;
    let c = "CANCELLED"@;
    if occurs_at(s, t, i) {
        assert(s[i] == t[0]);
    }
    if occurs_at(s, d, i) {
        assert(s[i] == d[0]);
    }
    if occurs_at(s, n, i) {
        assert(s[i] == n[0]);
    }
    if occurs_at(s, w, i) {
        assert(s[i] == w[0]);
    }
    if occurs_at(s, c, i) {
        assert(s[i] == c[0]);
    }
}

/// `\[#([ABC])\]` at `i`.
pub open spec fn priority_at(s: Seq<char>, i: int) -> bool {
    &&& char_at(s, i, '[')
    &&& char_at(s, i + 1, '#')
    &&& (char_at(s, i + 2, 'A') || char_at(s, i + 2, 'B') || char_at(s, i + 2, 'C'))
    &&& char_at(s, i + 3, ']')
}

/// A tag list body `[^:]+(?::[^:]+)*`: not empty, no `:` at either end, no `::`.
pub open spec fn tag_body_ok(x: Seq<char>) -> bool {
    &&& x.len() > 0
    &&& x[0] != ':'
    &&& x.last() != ':'
    &&& forall|i: int| 0 <= i < x.len() - 1 ==> !(#[trigger] x[i] == ':' && x[i + 1] == ':')
}

/// The bounds of the tag list body when `\s+:([^:]+(?::[^:]+)*):$` matches at `e`.
pub open spec fn tags_at(s: Seq<char>, e: int) -> Option<(int, int)> {
    let w = ws_end(s, e);
    if w > e && char_at(s, w, ':') && w + 1 < s.len() - 1 && s[s.len() - 1] == ':' && tag_body_ok(
        s.subrange(w + 1, s.len() - 1),
    ) {
        Some((w + 1, s.len() - 1))
    } else {
        None
    }
}

/// The end of the title when it may end at `e` or later: the lazy title stops at the first
/// place where a tag list ends the line.
pub open spec fn title_end_from(s: Seq<char>, e: int) -> (int, Option<(int, int)>)
    decreases s.len() - e,
{
    if e >= s.len() {
        (s.len() as int, None)
    } else {
        match tags_at(s, e) {
            Some(t) => (e, Some(t)),
            None => title_end_from(s, e + 1),
        }
    }
}

/// What the headline pattern captures in one line.
#[derive(Clone, Copy, Debug, PartialEq, Eq)]
pub struct HeadlineCaps {
    pub level: usize,
    pub todo_state: Option<TodoState>,
    pub priority: Option<char>,
    pub title: (usize, usize),
    pub tags: Option<(usize, usize)>,
}

/// What
/// `^(\*+)\s+(?:(TODO|DONE|NEXT|WAITING|CANCELLED)\s+)?(?:\[#([ABC])\]\s+)?(.+?)(?:\s+:([^:]+(?::[^:]+)*):)?$`
/// captures in a line (which holds no `\n`). Each optional group is taken where the rest of
/// the pattern can still match; the title is as short as it can be.
pub open spec fn headline_caps(s: Seq<char>) -> Option<HeadlineCaps> {
    let k = star_end(s, 0);
    if k == 0 {
        None
    } else {
        match after_space(s, k) {
            None => None,
            Some(p1) => {
                let (todo, p2) = match keyword_at(s, p1) {
                    Some(kw) => match after_space(s, kw.1) {
                        Some(q) => (Some(kw.0), q),
                        None => (None, p1),
                    },
                    None => (None, p1),
                };
                let (prio, p3) = if priority_at(s, p2) {
                    match after_space(s, p2 + 4) {
                        Some(q) => (Some(s[p2 + 2]), q),
                        None => (None, p2),
                    }
                } else {
                    (None, p2)
                };
                let t = title_end_from(s, p3 + 1);
                Some(
                    HeadlineCaps {
                        level: k as usize,
                        todo_state: todo,
                        priority: prio,
                        title: (p3 as usize, t.0 as usize),
                        tags: match t.1 {
                            Some(b) => Some((b.0 as usize, b.1 as usize)),
                            None => None,
                        },
                    },
                )
            },
        }
    }
}

/// One step of the body extraction: drawers and planning lines are left out.
pub open spec fn body_step(st: (bool, Seq<Seq<char>>), line: Seq<char>) -> (bool, Seq<Seq<char>>) {
    let t = trim(line);
    if starts_with(t, ":PROPERTIES:"@) || starts_with(t, ":LOGBOOK:"@) {
        (true, st.1)
    } else if t == ":END:"@ {
        (false, st.1)
    } else if st.0 {
        st
    } else if starts_with(t, "SCHEDULED:"@) || starts_with(t, "DEADLINE:"@) || starts_with(
        t,
        "CLOSED:"@,
    ) {
        st
    } else {
        (st.0, st.1.push(line))
    }
}

/// The body state after the first `n` lines.
pub open spec fn body_state(ls: Seq<Seq<char>>, n: int) -> (bool, Seq<Seq<char>>)
    decreases n,
{
    if n <= 0 {
        (false, seq![])
    } else {
        body_step(body_state(ls, n - 1), ls[n - 1])
    }
}

/// `Headline::extract_body`.
pub open spec fn extract_body_spec(s: Seq<char>) -> Seq<char> {
    let ls = lines(s);
    trim(join_nl(body_state(ls, ls.len() as int).1))
}

/// Whether a line opens a drawer (`Some(true)`: its trimmed text starts with `:PROPERTIES:` or
/// `:LOGBOOK:`), closes one (`Some(false)`: it is `:END:`), or neither.
pub open spec fn drawer_marker(line: Seq<char>) -> Option<bool> {
    let t = trim(line);
    if starts_with(t, ":PROPERTIES:"@) || starts_with(t, ":LOGBOOK:"@) {
        Some(true)
    } else if t == ":END:"@ {
        Some(false)
    } else {
        None
    }
}

/// A planning line: its trimmed text starts with `SCHEDULED:`, `DEADLINE:` or `CLOSED:`.
pub open spec fn planning_line(line: Seq<char>) -> bool {
    let t = trim(line);
    starts_with(t, "SCHEDULED:"@) || starts_with(t, "DEADLINE:"@) || starts_with(t, "CLOSED:"@)
}

/// Whether a drawer is open after the first `j` lines: the last marker among them opens one.
pub open spec fn in_drawer(ls: Seq<Seq<char>>, j: int) -> bool
    decreases j,
{
    if j <= 0 {
        false
    } else {
        match drawer_marker(ls[j - 1]) {
            Some(b) => b,
            None => in_drawer(ls, j - 1),
        }
    }
}

/// The body keeps line `j`: it is no drawer marker, lies in no open drawer and is no planning
/// line.
pub open spec fn body_keeps(ls: Seq<Seq<char>>, j: int) -> bool {
    drawer_marker(ls[j]) is None && !in_drawer(ls, j) && !planning_line(ls[j])
}

/// The lines among the first `n` that the body keeps, in order.
pub open spec fn kept_lines(ls: Seq<Seq<char>>, n: int) -> Seq<Seq<char>>
    decreases n,
{
    if n <= 0 {
        seq![]
    } else if body_keeps(ls, n - 1) {
        kept_lines(ls, n - 1).push(ls[n - 1])
    } else {
        kept_lines(ls, n - 1)
    }
}

/// A drawer is open after `j` lines exactly when some line before opens one and no marker
/// follows it.
pub proof fn lemma_in_drawer(ls: Seq<Seq<char>>, j: int)
    requires
        0 <= j <= ls.len(),
    ensures
        in_drawer(ls, j) <==> exists|i: int|
            0 <= i < j && drawer_marker(#[trigger] ls[i]) == Some(true) && forall|l: int|
                i < l < j ==> drawer_marker(#[trigger] ls[l]) is None,
    decreases j,
{
    if j > 0 {
        lemma_in_drawer(ls, j - 1);
        match drawer_marker(ls[j - 1]) {
            Some(b) => {
                if !b {
                    assert forall|i: int|
                        0 <= i < j && drawer_marker(#[trigger] ls[i]) == Some(true) implies !(
                    forall|l: int| i < l < j ==> drawer_marker(#[trigger] ls[l]) is None) by {
                        if i < j - 1 {
                            assert(drawer_marker(ls[j - 1]) is Some);
                        }
                    }
                }
            },
            None => {
                if in_drawer(ls, j - 1) {
                    let i = choose|i: int|
                        0 <= i < j - 1 && drawer_marker(#[trigger] ls[i]) == Some(true) && forall|
                            l: int,
                        | i < l < j - 1 ==> drawer_marker(#[trigger] ls[l]) is None;
                    assert(forall|l: int| i < l < j ==> drawer_marker(#[trigger] ls[l]) is None);
                } else {
                    assert forall|i: int|
                        0 <= i < j && drawer_marker(#[trigger] ls[i]) == Some(true) implies !(
                    forall|l: int| i < l < j ==> drawer_marker(#[trigger] ls[l]) is None) by {
                        if i < j - 1 {
                            if forall|l: int| i < l < j ==> drawer_marker(#[trigger] ls[l]) is None {
                                assert(forall|l: int|
                                    i < l < j - 1 ==> drawer_marker(#[trigger] ls[l]) is None);
                            }
                        }
                    }
                }
            },
        }
    }
}

proof fn lemma_body_state(ls: Seq<Seq<char>>, n: int)
    ensures
        body_state(ls, n).0 == in_drawer(ls, n),
        body_state(ls, n).1 == kept_lines(ls, n),
    decreases n,
{
    if n > 0 {
        lemma_body_state(ls, n - 1);
    }
}

/// The body is the kept lines joined with `\n` and trimmed: a line is dropped when it opens a
/// drawer, closes one, lies inside an open drawer, or is a planning line.
pub proof fn lemma_extract_body(s: Seq<char>)
    ensures
        extract_body_spec(s) == trim(join_nl(kept_lines(lines(s), lines(s).len() as int))),
{
    lemma_body_state(lines(s), lines(s).len() as int);
}

proof fn lemma_star_end_bound(s: Seq<char>, i: int)
    requires
        0 <= i <= s.len(),
    ensures
        i <= star_end(s, i) <= s.len(),
    decreases s.len() - i,
{
    if i < s.len() && s[i] == '*' {
        lemma_star_end_bound(s, i + 1);
    }
}

proof fn lemma_first_line_len(s: Seq<char>)
    requires
        lines(s).len() > 0,
    ensures
        lines(s)[0].len() <= s.len(),
{
    if 0 < s.len() {
        lemma_find_char(s, '\n', 0);
    }
}

/// A text is a headline exactly when its first line starts with stars and white space that
/// some text follows. Then the level is the number of stars, the line number is the one given,
/// a state is set only by its keyword in upper case right after the stars, and the properties,
/// the planning times and the body are read from the lines after the first.
pub proof fn lemma_headline_parse(text: Seq<char>, line_number: usize)
    requires
        text.len() <= usize::MAX,
    ensures
        parse_headline_spec(text, line_number) is Some <==> ({
            let ls = lines(text);
            &&& ls.len() > 0
            &&& star_end(ls[0], 0) > 0
            &&& after_space(ls[0], star_end(ls[0], 0)) is Some
        }),
        parse_headline_spec(text, line_number) matches Some(h) ==> ({
            let ls = lines(text);
            let l0 = ls[0];
            let rest = join_nl(ls.drop_first());
            &&& h.level as int == star_end(l0, 0)
            &&& h.line_number == line_number
            &&& (h.todo_state matches Some(st) ==> occurs_at(
                l0,
                todo_keyword(st),
                after_space(l0, star_end(l0, 0))->0,
            ))
            &&& h.properties == parse_properties_spec(rest)
            &&& h.scheduled == parse_scheduled_spec(rest)
            &&& h.deadline == parse_deadline_spec(rest)
            &&& h.closed == parse_closed_spec(rest)
            &&& h.body == extract_body_spec(rest)
        }),
{
    let ls = lines(text);
    if ls.len() > 0 {
        lemma_first_line_len(text);
        let l0 = ls[0];
        lemma_star_end_bound(l0, 0);
    }
}

/// A headline whose stars and white space are followed by the keyword of a state, then white
/// space and more text, has that state: `* WAITING Reply` is a waiting task.
pub proof fn lemma_headline_keyword(text: Seq<char>, line_number: usize, st: TodoState)
    requires
        lines(text).len() > 0,
        star_end(lines(text)[0], 0) > 0,
        after_space(lines(text)[0], star_end(lines(text)[0], 0)) is Some,
        occurs_at(
            lines(text)[0],
            todo_keyword(st),
            after_space(lines(text)[0], star_end(lines(text)[0], 0))->0,
        ),
        after_space(
            lines(text)[0],
            after_space(lines(text)[0], star_end(lines(text)[0], 0))->0 + todo_keyword(st).len(),
        ) is Some,
    ensures
        parse_headline_spec(text, line_number) matches Some(h) && h.todo_state == Some(st),
{
    let l0 = lines(text)[0];
    let p1 = after_space(l0, star_end(l0, 0))->0;
    lemma_keyword_at(l0, p1);
}

/// `k` stars.
pub open spec fn stars(k: nat) -> Seq<char> {
    Seq::new(k, |i: int| '*')
}

proof fn lemma_star_run(s: Seq<char>, i: int, k: int)
    requires
        0 <= i <= k <= s.len(),
        forall|j: int| i <= j < k ==> #[trigger] s[j] == '*',
        k < s.len() ==> s[k] != '*',
    ensures
        star_end(s, i) == k,
    decreases k - i,
{
    if i < k {
        lemma_star_run(s, i + 1, k);
    }
}

proof fn lemma_one_line(s: Seq<char>)
    requires
        s.len() > 0,
        forall|j: int| 0 <= j < s.len() ==> #[trigger] s[j] != '\n',
    ensures
        lines(s) == seq![s],
{
    lemma_find_char(s, '\n', 0);
    assert(s.subrange(0, s.len() as int) =~= s);
}

/// A line of `k` stars, one space and text that starts with no white space is a headline of
/// level `k`.
pub proof fn lemma_headline_line(k: nat, t: Seq<char>, line_number: usize)
    requires
        k >= 1,
        t.len() > 0,
        !is_ws(t[0]),
        forall|j: int| 0 <= j < t.len() ==> #[trigger] t[j] != '\n',
        k + 1 + t.len() <= usize::MAX,
    ensures
        parse_headline_spec(stars(k) + seq![' '] + t, line_number) matches Some(h) && h.level == k
            && h.line_number == line_number,
{
    let s = stars(k) + seq![' '] + t;
    let ki: int = k as int;
    assert forall|j: int| 0 <= j < s.len() implies #[trigger] s[j] != '\n' by {
        if j > k {
            assert(s[j] == t[j - k - 1]);
        }
    }
    lemma_one_line(s);
    assert(s[ki] == ' ');
    lemma_star_run(s, 0, ki);
    assert(s[ki + 1] == t[0]);
    assert(ws_end(s, ki + 1) == ki + 1);
    assert(ws_end(s, ki) == ki + 1);
    assert(after_space(s, ki) == Some(ki + 1));
    lemma_headline_parse(s, line_number);
}

/// A line of `k` stars, a space, the keyword of a state, a space and text that starts with no
/// white space is a headline of level `k` in that state: `* WAITING Reply` is waiting.
pub proof fn lemma_headline_line_state(k: nat, st: TodoState, u: Seq<char>, line_number: usize)
    requires
        k >= 1,
        u.len() > 0,
        !is_ws(u[0]),
        forall|j: int| 0 <= j < u.len() ==> #[trigger] u[j] != '\n',
        k + 2 + todo_keyword(st).len() + u.len() <= usize::MAX,
    ensures
        parse_headline_spec(stars(k) + seq![' '] + (todo_keyword(st) + seq![' '] + u), line_number)
            matches Some(h) && h.level == k && h.todo_state == Some(st),
{
    reveal_strlit("TODO");
    reveal_strlit("DONE");
    reveal_strlit("NEXT");
    reveal_strlit("WAITING");
    reveal_strlit("CANCELLED");
    let kw = todo_keyword(st);
    let t = kw + seq![' '] + u;
    let s = stars(k) + seq![' '] + t;
    let ki: int = k as int;
    assert(kw.len() > 0 && forall|j: int| 0 <= j < kw.len() ==> 'A' <= #[trigger] kw[j] <= 'Z');
    assert forall|j: int| 0 <= j < t.len() implies #[trigger] t[j] != '\n' by {
        if j < kw.len() {
            assert(t[j] == kw[j]);
        } else if j > kw.len() {
            assert(t[j] == u[j - kw.len() - 1]);
        }
    }
    assert(t[0] == kw[0]);
    lemma_headline_line(k, t, line_number);
    let l0 = lines(s)[0];
    assert(l0 == s) by {
        assert forall|j: int| 0 <= j < s.len() implies #[trigger] s[j] != '\n' by {
            if j > k {
                assert(s[j] == t[j - k - 1]);
            }
        }
        lemma_one_line(s);
    }
    lemma_star_run(s, 0, ki);
    assert(ws_end(s, ki + 1) == ki + 1);
    assert(ws_end(s, ki) == ki + 1);
    let p1: int = ki + 1;
    assert(s.subrange(p1, p1 + kw.len()) =~= kw);
    let q: int = p1 + kw.len() as int;
    assert(s[q] == ' ');
    assert(s[q + 1] == u[0]);
    assert(ws_end(s, q + 1) == q + 1);
    assert(ws_end(s, q) == q + 1);
    lemma_headline_keyword(s, line_number, st);
}

/// `Headline::parse`.
pub open spec fn parse_headline_spec(text: Seq<char>, line_number: usize) -> Option<HeadlineView> {
    let ls = lines(text);
    if ls.len() == 0 {
        None
    } else {
        let line = ls[0];
        match headline_caps(line) {
            None => None,
            Some(c) => {
                let rest = join_nl(ls.drop_first());
                Some(
                    HeadlineView {
                        level: c.level,
                        todo_state: c.todo_state,
                        priority: c.priority,
                        title: trim(line.subrange(c.title.0 as int, c.title.1 as int)),
                        tags: match c.tags {
                            Some(t) => split(line.subrange(t.0 as int, t.1 as int), ':'),
                            None => seq![],
                        },
                        properties: parse_properties_spec(rest),
                        scheduled: parse_scheduled_spec(rest),
                        deadline: parse_deadline_spec(rest),
                        closed: parse_closed_spec(rest),
                        body: extract_body_spec(rest),
                        line_number,
                    },
                )
            },
        }
    }
}

// ---------------------------------------------------------------------------
// Matching
// ---------------------------------------------------------------------------

fn skip_stars(v: &Vec<char>, i: usize) -> (j: usize)
    requires
        i <= v.len(),
    ensures
        j == star_end(v@, i as int),
        i <= j <= v.len(),
{
    let mut k = i;
    while k < v.len() && v[k] == '*'
        invariant
            i <= k <= v.len(),
            star_end(v@, i as int) == star_end(v@, k as int),
        decreases v.len() - k,
    {
        k += 1;
    }
    k
}

fn match_after_space(v: &Vec<char>, j: usize) -> (r: Option<usize>)
    requires
        j <= v.len(),
    ensures
        match r {
            Some(q) => after_space(v@, j as int) == Some(q as int) && q < v.len(),
            None => after_space(v@, j as int) is None,
        },
{
    let w = skip_ws(v, j);
    if w == j {
        None
    } else if w < v.len() {
        Some(w)
    } else if w - j >= 2 {
        Some(v.len() - 1)
    } else {
        None
    }
}

fn match_keyword(v: &Vec<char>, i: usize) -> (r: Option<(TodoState, usize)>)
    ensures
        match r {
            Some(kw) => keyword_at(v@, i as int) == Some((kw.0, kw.1 as int)) && kw.1 <= v.len(),
            None => keyword_at(v@, i as int) is None,
        },
{
    proof {
        reveal_strlit("TODO");
        reveal_strlit("DONE");
        reveal_strlit("NEXT");
        reveal_strlit("WAITING");
        reveal_strlit("CANCELLED");
        assert(v@.len() == v.len());
    }
    if matches_lit_at(v, i, "TODO") {
        Some((TodoState::Todo, i + 4))
    } else if matches_lit_at(v, i, "DONE") {
        Some((TodoState::Done, i + 4))
    } else if matches_lit_at(v, i, "NEXT") {
        Some((TodoState::Next, i + 4))
    } else if matches_lit_at(v, i, "WAITING") {
        Some((TodoState::Waiting, i + 7))
    } else if matches_lit_at(v, i, "CANCELLED") {
        Some((TodoState::Cancelled, i + 9))
    } else {
        None
    }
}

fn is_priority_at(v: &Vec<char>, i: usize) -> (r: bool)
    ensures
        r == priority_at(v@, i as int),
{
    if i > v.len() || v.len() - i < 4 {
        return false;
    }
    is_char_at(v, i, '[') && is_char_at(v, i + 1, '#') && (is_char_at(v, i + 2, 'A') || is_char_at(
        v,
        i + 2,
        'B',
    ) || is_char_at(v, i + 2, 'C')) && is_char_at(v, i + 3, ']')
}

fn is_tag_body_ok(v: &Vec<char>, a: usize, b: usize) -> (r: bool)
    requires
        a <= b <= v.len(),
    ensures
        r == tag_body_ok(v@.subrange(a as int, b as int)),
{
    let ghost x = v@.subrange(a as int, b as int);
    if a == b || v[a] == ':' || v[b - 1] == ':' {
        return false;
    }
    let mut i = a;
    while i + 1 < b
        invariant
            a <= i < b <= v.len(),
            x == v@.subrange(a as int, b as int),
            forall|j: int| 0 <= j < i - a ==> !(#[trigger] x[j] == ':' && x[j + 1] == ':'),
        decreases b - i,
    {
        if v[i] == ':' && v[i + 1] == ':' {
            assert(x[i - a] == ':' && x[i - a + 1] == ':');
            return false;
        }
        i += 1;
    }
    true
}

fn match_tags_at(v: &Vec<char>, e: usize) -> (r: Option<(usize, usize)>)
    requires
        e <= v.len(),
    ensures
        match r {
            Some(t) => tags_at(v@, e as int) == Some((t.0 as int, t.1 as int)) && t.0 <= t.1
                <= v.len(),
            None => tags_at(v@, e as int) is None,
        },
{
    let w = skip_ws(v, e);
    if w > e && is_char_at(v, w, ':') && w + 1 < v.len() - 1 && v[v.len() - 1] == ':'
        && is_tag_body_ok(v, w + 1, v.len() - 1) {
        Some((w + 1, v.len() - 1))
    } else {
        None
    }
}

fn match_title_end(v: &Vec<char>, e0: usize) -> (r: (usize, Option<(usize, usize)>))
    requires
        e0 <= v.len(),
    ensures
        title_end_from(v@, e0 as int).0 == r.0 as int,
        e0 <= r.0 <= v.len(),
        match r.1 {
            Some(t) => title_end_from(v@, e0 as int).1 == Some((t.0 as int, t.1 as int)) && t.0
                <= t.1 <= v.len(),
            None => title_end_from(v@, e0 as int).1 is None,
        },
{
    let mut e = e0;
    while e < v.len()
        invariant
            e0 <= e <= v.len(),
            title_end_from(v@, e0 as int) == title_end_from(v@, e as int),
        decreases v.len() - e,
    {
        match match_tags_at(v, e) {
            Some(t) => {
                return (e, Some(t));
            },
            None => {},
        }
        e += 1;
    }
    (v.len(), None)
}

fn match_headline(v: &Vec<char>) -> (r: Option<HeadlineCaps>)
    ensures
        r == headline_caps(v@),
        r matches Some(c) ==> c.title.0 <= c.title.1 <= v.len() && (c.tags matches Some(t) ==> t.0
            <= t.1 <= v.len()),
{
    let k = skip_stars(v, 0);
    if k == 0 {
        return None;
    }
    let p1 = match match_after_space(v, k) {
        None => {
            return None;
        },
        Some(p1) => p1,
    };
    let (todo, p2) = match match_keyword(v, p1) {
        Some((st, j)) => match match_after_space(v, j) {
            Some(q) => (Some(st), q),
            None => (None, p1),
        },
        None => (None, p1),
    };
    let (prio, p3) = if is_priority_at(v, p2) {
        match match_after_space(v, p2 + 4) {
            Some(q) => (Some(v[p2 + 2]), q),
            None => (None, p2),
        }
    } else {
        (None, p2)
    };
    let (e, tags) = match_title_end(v, p3 + 1);
    Some(HeadlineCaps { level: k, todo_state: todo, priority: prio, title: (p3, e), tags })
}

fn starts_with_lit(v: &Vec<char>, a: usize, b: usize, lit: &str) -> (r: bool)
    requires
        a <= b <= v.len(),
    ensures
        r == starts_with(v@.subrange(a as int, b as int), lit@),
{
    let mut t: Vec<char> = Vec::new();
    push_range(&mut t, v, a, b);
    matches_lit_at(&t, 0, lit)
}

fn range_eq_lit(v: &Vec<char>, a: usize, b: usize, lit: &str) -> (r: bool)
    requires
        a <= b <= v.len(),
    ensures
        r == (v@.subrange(a as int, b as int) == lit@),
{
    let mut t: Vec<char> = Vec::new();
    push_range(&mut t, v, a, b);
    let l = chars_of(lit);
    crate::text::chars_equal(&t, &l)
}

/// `Headline::extract_body` on the characters of a text.
fn extract_body_chars(v: &Vec<char>) -> (r: String)
    ensures
        r@ == extract_body_spec(v@),
{
    let spans = line_spans(v);
    let ghost ls = lines(v@);
    let mut in_drawer = false;
    let mut kept: Vec<(usize, usize)> = Vec::new();
    let mut j: usize = 0;
    while j < spans.len()
        invariant
            0 <= j <= spans@.len(),
            spans_ok(v@, spans@),
            span_seq(v@, spans@) == ls,
            ls == lines(v@),
            spans_ok(v@, kept@),
            body_state(ls, j as int) == (in_drawer, span_seq(v@, kept@)),
        decreases spans@.len() - j,
    {
        let (a, b) = spans[j];
        assert(spans@[j as int].0 <= spans@[j as int].1 <= v.len());
        assert(ls[j as int] == v@.subrange(a as int, b as int));
        let (ta, tb) = trim_span(v, a, b);
        assert(v@.subrange(ta as int, tb as int) == trim(ls[j as int]));
        let ghost before = kept@;
        if starts_with_lit(v, ta, tb, ":PROPERTIES:") || starts_with_lit(v, ta, tb, ":LOGBOOK:") {
            in_drawer = true;
        } else if range_eq_lit(v, ta, tb, ":END:") {
            in_drawer = false;
        } else if in_drawer {
        } else if starts_with_lit(v, ta, tb, "SCHEDULED:") || starts_with_lit(v, ta, tb, "DEADLINE:")
            || starts_with_lit(v, ta, tb, "CLOSED:") {
        } else {
            kept.push((a, b));
            assert(span_seq(v@, kept@) =~= span_seq(v@, before).push(v@.subrange(a as int, b as int)));
        }
        j += 1;
    }
    let joined = join_spans(v, &kept, 0, kept.len());
    assert(span_seq(v@, kept@).subrange(0, kept@.len() as int) =~= span_seq(v@, kept@));
    let r = trim_string(&joined, 0, joined.len());
    assert(joined@.subrange(0, joined@.len() as int) =~= joined@);
    r
}

/// `Headline::parse` on the characters of a text.
pub fn parse_headline_chars(text: &Vec<char>, line_number: usize) -> (r: Option<Headline>)
    ensures
        match r {
            Some(h) => parse_headline_spec(text@, line_number) == Some(h@),
            None => parse_headline_spec(text@, line_number) is None,
        },
{
    let spans = line_spans(text);
    let ghost ls = lines(text@);
    if spans.len() == 0 {
        return None;
    }
    let (a, b) = spans[0];
    assert(spans@[0].0 <= spans@[0].1 <= text.len());
    let mut line: Vec<char> = Vec::new();
    push_range(&mut line, text, a, b);
    assert(line@ == ls[0]);
    let caps = match match_headline(&line) {
        None => {
            return None;
        },
        Some(c) => c,
    };
    let rest = join_spans(text, &spans, 1, spans.len());
    assert(span_seq(text@, spans@).subrange(1, spans@.len() as int) =~= ls.drop_first());
    let title = trim_string(&line, caps.title.0, caps.title.1);
    let tags = match caps.tags {
        Some((x, y)) => split_range(&line, x, y, ':'),
        None => Vec::new(),
    };
    assert(strings_view(tags@) == (match caps.tags {
        Some(t) => split(line@.subrange(t.0 as int, t.1 as int), ':'),
        None => seq![],
    })) by {
        if caps.tags is None {
            assert(strings_view(tags@) =~= Seq::<Seq<char>>::empty());
        }
    }
    let h = Headline {
        level: caps.level,
        todo_state: caps.todo_state,
        priority: caps.priority,
        title,
        tags,
        properties: parse_properties_chars(&rest),
        scheduled: parse_scheduled_chars(&rest),
        deadline: parse_deadline_chars(&rest),
        closed: parse_closed_chars(&rest),
        body: extract_body_chars(&rest),
        line_number,
    };
    Some(h)
}

impl Headline {
    /// Parses a headline line and the lines under it; `None` where the first line is no
    /// headline.
    pub fn parse(text: &str, line_number: usize) -> (r: Option<Self>)
        ensures
            match r {
                Some(h) => parse_headline_spec(text@, line_number) == Some(h@),
                None => parse_headline_spec(text@, line_number) is None,
            },
    {
        let v = chars_of(text);
        parse_headline_chars(&v, line_number)
    }

    pub fn is_done(&self) -> (r: bool)
        ensures
            r == self@.is_done(),
    {
        match self.todo_state {
            Some(s) => s.is_done(),
            None => false,
        }
    }

    /// Whether a tag equals `tag` up to ASCII case.
    pub fn has_tag(&self, tag: &str) -> (r: bool)
        ensures
            r == self@.has_tag(tag@),
    {
        let t = chars_of(tag);
        let mut i: usize = 0;
        while i < self.tags.len()
            invariant
                0 <= i <= self.tags@.len(),
                t@ == tag@,
                forall|j: int|
                    0 <= j < i ==> !eq_ignore_ascii_case(#[trigger] self@.tags[j], tag@),
            decreases self.tags@.len() - i,
        {
            let c = chars_of(self.tags[i].as_str());
            if chars_eq_ignore_ascii_case(&c, &t) {
                assert(self@.tags[i as int] == c@);
                return true;
            }
            i += 1;
        }
        false
    }

    pub fn is_habit(&self) -> (r: bool)
        ensures
            r == self@.is_habit(),
    {
        self.properties.is_habit()
    }
}

} // verus!
