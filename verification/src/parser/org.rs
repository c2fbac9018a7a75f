use vstd::prelude::*;
use vstd::string::StringExecFns;
use crate::parser::headline::{parse_headline_chars, parse_headline_spec, star_end, Headline, HeadlineView};
use crate::text::{
    char_at, chars_of, eq_ignore_ascii_case, find_char, find_char_from, is_char_at, join_nl,
    join_spans, lemma_find_char, line_spans, lines, matches_lit_at, occurs_at, skip_ws, span_seq,
    spans_ok, str_eq, str_eq_ignore_ascii_case, trim, trim_string, ws_end,
};
use crate::parser::timestamp::opt_str_view;

verus! {

broadcast use vstd::string::group_string_axioms;

/// Why an org file could not be had.
#[derive(Debug)]
pub enum OrgError {
    /// The file at this path could not be read.
    Unreadable { path: String },
}

impl OrgError {
    /// The message that the error carries.
    pub fn message(&self) -> (r: String)
        ensures
            match self {
                OrgError::Unreadable { path } => r@ == "Failed to read file: "@ + path@,
            },
    {
        match self {
            OrgError::Unreadable { path } => {
                let mut m = "Failed to read file: ".to_owned();
                m.append(path.as_str());
                m
            },
        }
    }
}

/// A parsed org file.
#[derive(Debug)]
pub struct OrgFile {
    pub path: String,
    pub title: Option<String>,
    pub headlines: Vec<Headline>,
}

pub struct OrgFileView {
    pub path: Seq<char>,
    pub title: Option<Seq<char>>,
    pub headlines: Seq<HeadlineView>,
}

pub open spec fn headline_views(v: Seq<Headline>) -> Seq<HeadlineView> {
    v.map_values(|h: Headline| h@)
}

pub open spec fn headline_ref_views(v: Seq<&Headline>) -> Seq<HeadlineView> {
    v.map_values(|h: &Headline| h@)
}

impl View for OrgFile {
    type V = OrgFileView;

    open spec fn view(&self) -> OrgFileView {
        OrgFileView {
            path: self.path@,
            title: opt_str_view(self.title),
            headlines: headline_views(self.headlines@),
        }
    }
}

// ---------------------------------------------------------------------------
// The grammar of a file
// ---------------------------------------------------------------------------

/// The last index in `[a, w)` that holds no `\n`.
pub open spec fn last_non_newline(s: Seq<char>, a: int, w: int) -> Option<int>
    decreases w - a,
{
    if w <= a {
        None
    } else if s[w - 1] != '\n' {
        Some(w - 1)
    } else {
        last_non_newline(s, a, w - 1)
    }
}

/// The bounds of what `\s*(.+)` captures after `#+title:` at `p`. The white space is as long
/// as it can be while `.+` (no `\n`) still has a character.
pub open spec fn title_capture_at(s: Seq<char>, p: int) -> Option<(int, int)> {
    let a = p + 8;
    let w = ws_end(s, a);
    if w < s.len() {
        Some((w, find_char(s, '\n', w)))
    } else {
        match last_non_newline(s, a, w) {
            Some(q) => Some((q, q + 1)),
            None => None,
        }
    }
}

/// The capture of the leftmost match of `#\+title:\s*(.+)` at or after `i`.
pub open spec fn title_from(s: Seq<char>, i: int) -> Option<(int, int)>
    decreases s.len() - i,
{
    if i < 0 || i >= s.len() {
        None
    } else if occurs_at(s, "#+title:"@, i) && title_capture_at(s, i) is Some {
        title_capture_at(s, i)
    } else {
        title_from(s, i + 1)
    }
}

/// The title of a file: the trimmed capture of the first `#+title:` line.
pub open spec fn title_spec(s: Seq<char>) -> Option<Seq<char>> {
    match title_from(s, 0) {
        Some(c) => Some(trim(s.subrange(c.0, c.1))),
        None => None,
    }
}

/// A line that starts a headline: `^\*+ `.
pub open spec fn is_headline_start(l: Seq<char>) -> bool {
    star_end(l, 0) > 0 && char_at(l, star_end(l, 0), ' ')
}

/// The first line at or after `j` that starts a headline, or the number of lines.
pub open spec fn next_start(ls: Seq<Seq<char>>, j: int) -> int
    decreases ls.len() - j,
{
    if j < 0 || j >= ls.len() {
        ls.len() as int
    } else if is_headline_start(ls[j]) {
        j
    } else {
        next_start(ls, j + 1)
    }
}

pub proof fn lemma_next_start(ls: Seq<Seq<char>>, j: int)
    requires
        0 <= j <= ls.len(),
    ensures
        j <= next_start(ls, j) <= ls.len(),
        next_start(ls, j) < ls.len() ==> is_headline_start(ls[next_start(ls, j)]),
        forall|k: int| j <= k < next_start(ls, j) ==> !is_headline_start(#[trigger] ls[k]),
    decreases ls.len() - j,
{
    if j < ls.len() && !is_headline_start(ls[j]) {
        lemma_next_start(ls, j + 1);
    }
}

/// The headlines of the lines `ls[i..]`: each headline line with the lines up to the next
/// headline line, numbered from 1.
pub open spec fn headlines_from(ls: Seq<Seq<char>>, i: int) -> Seq<HeadlineView>
    decreases ls.len() - i,
{
    if i < 0 || i >= ls.len() {
        seq![]
    } else if is_headline_start(ls[i]) {
        let e = next_start(ls, i + 1);
        proof {
            lemma_next_start(ls, i + 1);
        }
        let rest = headlines_from(ls, e);
        match parse_headline_spec(join_nl(ls.subrange(i, e)), (i + 1) as usize) {
            Some(h) => seq![h] + rest,
            None => rest,
        }
    } else {
        headlines_from(ls, i + 1)
    }
}

/// The headlines of a text come in the order of their lines, each numbered by the line it
/// starts on.
pub proof fn lemma_headlines_in_line_order(ls: Seq<Seq<char>>, i: int)
    requires
        0 <= i,
        ls.len() < usize::MAX,
    ensures
        forall|k: int|
            0 <= k < headlines_from(ls, i).len() ==> i < (#[trigger] headlines_from(ls, i)[k]).line_number
                <= ls.len(),
        forall|j: int, k: int|
            0 <= j < k < headlines_from(ls, i).len() ==> (#[trigger] headlines_from(ls, i)[j]).line_number
                < (#[trigger] headlines_from(ls, i)[k]).line_number,
    decreases ls.len() - i,
{
    if i < ls.len() {
        if is_headline_start(ls[i]) {
            let e = next_start(ls, i + 1);
            lemma_next_start(ls, i + 1);
            lemma_headlines_in_line_order(ls, e);
            let rest = headlines_from(ls, e);
            let all = headlines_from(ls, i);
            match parse_headline_spec(join_nl(ls.subrange(i, e)), (i + 1) as usize) {
                Some(h) => {
                    assert(all == seq![h] + rest);
                    assert(h.line_number == i + 1);
                    assert forall|k: int| 0 <= k < all.len() implies i < (#[trigger] all[k]).line_number
                        <= ls.len() by {
                        if k > 0 {
                            assert(all[k] == rest[k - 1]);
                        }
                    }
                    assert forall|j: int, k: int|
                        0 <= j < k < all.len() implies (#[trigger] all[j]).line_number
                        < (#[trigger] all[k]).line_number by {
                        assert(all[k] == rest[k - 1]);
                        if j > 0 {
                            assert(all[j] == rest[j - 1]);
                        }
                    }
                },
                None => {},
            }
        } else {
            lemma_headlines_in_line_order(ls, i + 1);
        }
    }
}

/// `OrgFile::parse_content`.
pub open spec fn parse_content_spec(content: Seq<char>, path: Seq<char>) -> OrgFileView {
    OrgFileView {
        path,
        title: title_spec(content),
        headlines: headlines_from(lines(content), 0),
    }
}

// ---------------------------------------------------------------------------
// Queries on the headlines
// ---------------------------------------------------------------------------

/// The first index `>= i` whose headline satisfies `pred`.
pub open spec fn first_where(
    hs: Seq<HeadlineView>,
    pred: spec_fn(HeadlineView) -> bool,
    i: int,
) -> Option<int>
    decreases hs.len() - i,
{
    if i < 0 || i >= hs.len() {
        None
    } else if pred(hs[i]) {
        Some(i)
    } else {
        first_where(hs, pred, i + 1)
    }
}

pub proof fn lemma_first_where(hs: Seq<HeadlineView>, pred: spec_fn(HeadlineView) -> bool, i: int)
    requires
        0 <= i,
    ensures
        first_where(hs, pred, i) matches Some(k) ==> i <= k < hs.len() && pred(hs[k]) && forall|
            j: int,
        | i <= j < k ==> !pred(#[trigger] hs[j]),
        first_where(hs, pred, i) is None ==> forall|j: int|
            i <= j < hs.len() ==> !pred(#[trigger] hs[j]),
    decreases hs.len() - i,
{
    if i < hs.len() && !pred(hs[i]) {
        lemma_first_where(hs, pred, i + 1);
    }
}

pub open spec fn has_id(id: Seq<char>) -> spec_fn(HeadlineView) -> bool {
    |h: HeadlineView| h.properties.id == Some(id)
}

pub open spec fn has_tag_pred(tag: Seq<char>) -> spec_fn(HeadlineView) -> bool {
    |h: HeadlineView| h.has_tag(tag)
}

pub open spec fn at_level(level: usize) -> spec_fn(HeadlineView) -> bool {
    |h: HeadlineView| h.level == level
}

pub open spec fn titled(title: Seq<char>) -> spec_fn(HeadlineView) -> bool {
    |h: HeadlineView| eq_ignore_ascii_case(h.title, title)
}

/// The end of the run of headlines from `j` on that are deeper than `level`.
pub open spec fn deeper_run_end(hs: Seq<HeadlineView>, level: usize, j: int) -> int
    decreases hs.len() - j,
{
    if j < 0 || j >= hs.len() {
        j
    } else if hs[j].level > level {
        deeper_run_end(hs, level, j + 1)
    } else {
        j
    }
}

pub proof fn lemma_deeper_run_end(hs: Seq<HeadlineView>, level: usize, j: int)
    requires
        0 <= j <= hs.len(),
    ensures
        j <= deeper_run_end(hs, level, j) <= hs.len(),
        forall|k: int| j <= k < deeper_run_end(hs, level, j) ==> #[trigger] hs[k].level > level,
        deeper_run_end(hs, level, j) < hs.len() ==> hs[deeper_run_end(hs, level, j)].level
            <= level,
    decreases hs.len() - j,
{
    if j < hs.len() && hs[j].level > level {
        lemma_deeper_run_end(hs, level, j + 1);
    }
}

/// The headlines under the headline at `p`: those after it that are deeper, up to the first
/// that is not.
pub open spec fn descendants_spec(hs: Seq<HeadlineView>, p: int) -> Seq<HeadlineView> {
    hs.subrange(p + 1, deeper_run_end(hs, hs[p].level, p + 1))
}

/// The headlines directly under the headline at `p`: its descendants one level deeper.
pub open spec fn children_spec(hs: Seq<HeadlineView>, p: int) -> Seq<HeadlineView> {
    descendants_spec(hs, p).filter(|h: HeadlineView| h.level == hs[p].level + 1)
}

/// Each child of a headline is one of its descendants, one level deeper than it, and each
/// descendant is deeper than the headline.
pub proof fn lemma_children_are_descendants(hs: Seq<HeadlineView>, p: int)
    requires
        0 <= p < hs.len(),
    ensures
        forall|k: int|
            0 <= k < children_spec(hs, p).len() ==> descendants_spec(hs, p).contains(
                #[trigger] children_spec(hs, p)[k],
            ) && children_spec(hs, p)[k].level == hs[p].level + 1,
        forall|k: int|
            0 <= k < descendants_spec(hs, p).len() ==> #[trigger] descendants_spec(hs, p)[k].level
                > hs[p].level,
{
    let d = descendants_spec(hs, p);
    let pred = |h: HeadlineView| h.level == hs[p].level + 1;
    lemma_deeper_run_end(hs, hs[p].level, p + 1);
    assert forall|k: int| 0 <= k < children_spec(hs, p).len() implies d.contains(
        #[trigger] children_spec(hs, p)[k],
    ) && children_spec(hs, p)[k].level == hs[p].level + 1 by {
        d.lemma_filter_contains_rev(pred, d.filter(pred)[k]);
        d.lemma_filter_pred(pred, k);
    }
    assert forall|k: int| 0 <= k < d.len() implies #[trigger] d[k].level > hs[p].level by {
        assert(d[k] == hs[p + 1 + k]);
    }
}

/// The descendants of the headline at `p` are the headlines right after it, in file order, up
/// to the first one that is not deeper than it: every one of them is deeper, and the headline
/// that follows them, if any, is not.
pub proof fn lemma_descendants_run(hs: Seq<HeadlineView>, p: int)
    requires
        0 <= p < hs.len(),
    ensures
        p + 1 + descendants_spec(hs, p).len() <= hs.len(),
        forall|k: int|
            0 <= k < descendants_spec(hs, p).len() ==> #[trigger] descendants_spec(hs, p)[k] == hs[p
                + 1 + k] && hs[p + 1 + k].level > hs[p].level,
        p + 1 + descendants_spec(hs, p).len() < hs.len() ==> hs[p + 1 + descendants_spec(
            hs,
            p,
        ).len()].level <= hs[p].level,
{
    lemma_deeper_run_end(hs, hs[p].level, p + 1);
}

/// The children of a headline are exactly its descendants one level deeper than it, in order.
pub proof fn lemma_children_one_level(hs: Seq<HeadlineView>, p: int, h: HeadlineView)
    requires
        0 <= p < hs.len(),
    ensures
        children_spec(hs, p).contains(h) <==> (descendants_spec(hs, p).contains(h) && h.level
            == hs[p].level + 1),
{
    let d = descendants_spec(hs, p);
    let pred = |x: HeadlineView| x.level == hs[p].level + 1;
    if d.contains(h) && h.level == hs[p].level + 1 {
        let k = choose|k: int| 0 <= k < d.len() && d[k] == h;
        d.lemma_filter_contains(pred, k);
    }
    if children_spec(hs, p).contains(h) {
        d.lemma_filter_contains_rev(pred, h);
    }
}

// ---------------------------------------------------------------------------
// Parsing
// ---------------------------------------------------------------------------

fn last_non_newline_exec(v: &Vec<char>, a: usize, w: usize) -> (r: Option<usize>)
    requires
        a <= w <= v.len(),
    ensures
        match r {
            Some(q) => last_non_newline(v@, a as int, w as int) == Some(q as int) && a <= q < w,
            None => last_non_newline(v@, a as int, w as int) is None,
        },
{
    let mut k = w;
    while k > a
        invariant
            a <= k <= w <= v.len(),
            last_non_newline(v@, a as int, w as int) == last_non_newline(v@, a as int, k as int),
        decreases k - a,
    {
        if v[k - 1] != '\n' {
            return Some(k - 1);
        }
        k -= 1;
    }
    None
}

fn title_capture_exec(v: &Vec<char>, p: usize) -> (r: Option<(usize, usize)>)
    requires
        p + 8 <= v.len(),
    ensures
        match r {
            Some(c) => title_capture_at(v@, p as int) == Some((c.0 as int, c.1 as int)) && c.0
                <= c.1 <= v.len(),
            None => title_capture_at(v@, p as int) is None,
        },
{
    let w = skip_ws(v, p + 8);
    if w < v.len() {
        let e = find_char_from(v, '\n', w);
        Some((w, e))
    } else {
        match last_non_newline_exec(v, p + 8, w) {
            Some(q) => Some((q, q + 1)),
            None => None,
        }
    }
}

fn find_title(v: &Vec<char>) -> (r: Option<String>)
    ensures
        opt_str_view(r) == title_spec(v@),
{
    let mut i: usize = 0;
    while i < v.len()
        invariant
            0 <= i <= v.len(),
            title_from(v@, 0) == title_from(v@, i as int),
        decreases v.len() - i,
    {
        proof {
            reveal_strlit("#+title:");
        }
        if matches_lit_at(v, i, "#+title:") {
            assert(i + 8 <= v.len());
            match title_capture_exec(v, i) {
                Some((a, b)) => {
                    return Some(trim_string(v, a, b));
                },
                None => {},
            }
        }
        i += 1;
    }
    None
}

fn is_headline_start_exec(v: &Vec<char>, a: usize, b: usize) -> (r: bool)
    requires
        a <= b <= v.len(),
    ensures
        r == is_headline_start(v@.subrange(a as int, b as int)),
{
    let ghost l = v@.subrange(a as int, b as int);
    let mut k = a;
    while k < b && v[k] == '*'
        invariant
            a <= k <= b <= v.len(),
            l == v@.subrange(a as int, b as int),
            star_end(l, 0) == star_end(l, k - a),
        decreases b - k,
    {
        k += 1;
    }
    k > a && k < b && v[k] == ' '
}

/// The first line at or after `j` that starts a headline, or the number of lines.
fn next_start_exec(v: &Vec<char>, spans: &Vec<(usize, usize)>, j: usize) -> (r: usize)
    requires
        spans_ok(v@, spans@),
        j <= spans@.len(),
    ensures
        r == next_start(span_seq(v@, spans@), j as int),
        j <= r <= spans@.len(),
{
    let ghost ls = span_seq(v@, spans@);
    let mut i = j;
    while i < spans.len()
        invariant
            j <= i <= spans@.len(),
            spans_ok(v@, spans@),
            ls == span_seq(v@, spans@),
            next_start(ls, j as int) == next_start(ls, i as int),
        decreases spans@.len() - i,
    {
        let (c, d) = spans[i];
        assert(spans@[i as int].0 <= spans@[i as int].1 <= v.len());
        assert(ls[i as int] == v@.subrange(c as int, d as int));
        if is_headline_start_exec(v, c, d) {
            return i;
        }
        i += 1;
    }
    i
}

/// `OrgFile::parse_headlines` on the characters of a text.
fn parse_headlines(v: &Vec<char>) -> (r: Vec<Headline>)
    ensures
        headline_views(r@) == headlines_from(lines(v@), 0),
{
    let spans = line_spans(v);
    let ghost ls = lines(v@);
    let n = spans.len();
    let mut out: Vec<Headline> = Vec::new();
    let mut i: usize = 0;
    while i < n
        invariant
            0 <= i <= n,
            n == spans@.len(),
            spans_ok(v@, spans@),
            span_seq(v@, spans@) == ls,
            headline_views(out@) + headlines_from(ls, i as int) == headlines_from(ls, 0),
        decreases n - i,
    {
        let (a, b) = spans[i];
        assert(spans@[i as int].0 <= spans@[i as int].1 <= v.len());
        assert(ls[i as int] == v@.subrange(a as int, b as int));
        if is_headline_start_exec(v, a, b) {
            let start = i;
            i = next_start_exec(v, &spans, start + 1);
            let text = join_spans(v, &spans, start, i);
            let ghost before = headline_views(out@);
            match parse_headline_chars(&text, start + 1) {
                Some(h) => {
                    out.push(h);
                    assert(headline_views(out@) =~= before + seq![h@]);
                },
                None => {},
            }
        } else {
            i += 1;
        }
    }
    assert(headlines_from(ls, n as int) =~= Seq::<HeadlineView>::empty());
    assert(headline_views(out@) + Seq::<HeadlineView>::empty() =~= headline_views(out@));
    out
}

impl OrgFile {
    /// Parses the text of an org file; it never fails.
    pub fn parse_content(content: &str, path: String) -> (r: Result<Self, OrgError>)
        ensures
            r matches Ok(f) && f@ == parse_content_spec(content@, path@),
    {
        let v = chars_of(content);
        let title = find_title(&v);
        let headlines = parse_headlines(&v);
        Ok(OrgFile { path, title, headlines })
    }

    /// The index of the first headline whose `:ID:` is `id`.
    pub fn index_of_id(&self, id: &str) -> (r: Option<usize>)
        ensures
            match r {
                Some(k) => first_where(self@.headlines, has_id(id@), 0) == Some(k as int) && k
                    < self.headlines.len(),
                None => first_where(self@.headlines, has_id(id@), 0) is None,
            },
    {
        let mut i: usize = 0;
        while i < self.headlines.len()
            invariant
                0 <= i <= self.headlines@.len(),
                first_where(self@.headlines, has_id(id@), 0) == first_where(
                    self@.headlines,
                    has_id(id@),
                    i as int,
                ),
            decreases self.headlines@.len() - i,
        {
            let found = match &self.headlines[i].properties.id {
                Some(x) => str_eq(x.as_str(), id),
                None => false,
            };
            if found {
                proof {
                    lemma_first_where(self@.headlines, has_id(id@), i as int);
                }
                return Some(i);
            }
            i += 1;
        }
        None
    }

    /// The first headline whose `:ID:` is `id`.
    pub fn find_headline_by_id(&self, id: &str) -> (r: Option<&Headline>)
        ensures
            match first_where(self@.headlines, has_id(id@), 0) {
                Some(k) => r matches Some(h) && h@ == self@.headlines[k],
                None => r is None,
            },
    {
        match self.index_of_id(id) {
            Some(k) => Some(&self.headlines[k]),
            None => None,
        }
    }

    /// The headlines with tag `tag` (up to ASCII case), in order.
    pub fn find_headlines_by_tag(&self, tag: &str) -> (r: Vec<&Headline>)
        ensures
            headline_ref_views(r@) == self@.headlines.filter(has_tag_pred(tag@)),
    {
        let ghost hs = self@.headlines;
        let mut out: Vec<&Headline> = Vec::new();
        let mut i: usize = 0;
        while i < self.headlines.len()
            invariant
                0 <= i <= hs.len(),
                hs == self@.headlines,
                headline_ref_views(out@) == hs.subrange(0, i as int).filter(has_tag_pred(tag@)),
            decreases hs.len() - i,
        {
            let ghost before = headline_ref_views(out@);
            let h = &self.headlines[i];
            assert(hs.subrange(0, i + 1).drop_last() =~= hs.subrange(0, i as int));
            proof {
                reveal(Seq::filter);
            }
            if h.has_tag(tag) {
                out.push(h);
                assert(headline_ref_views(out@) =~= before.push(h@));
            } else {
                assert(headline_ref_views(out@) =~= before);
            }
            i += 1;
        }
        assert(hs.subrange(0, hs.len() as int) =~= hs);
        out
    }

    /// The headlines at `level`, in order.
    pub fn find_headlines_by_level(&self, level: usize) -> (r: Vec<&Headline>)
        ensures
            headline_ref_views(r@) == self@.headlines.filter(at_level(level)),
    {
        let ghost hs = self@.headlines;
        let mut out: Vec<&Headline> = Vec::new();
        let mut i: usize = 0;
        while i < self.headlines.len()
            invariant
                0 <= i <= hs.len(),
                hs == self@.headlines,
                headline_ref_views(out@) == hs.subrange(0, i as int).filter(at_level(level)),
            decreases hs.len() - i,
        {
            let ghost before = headline_ref_views(out@);
            let h = &self.headlines[i];
            assert(hs.subrange(0, i + 1).drop_last() =~= hs.subrange(0, i as int));
            proof {
                reveal(Seq::filter);
            }
            if h.level == level {
                out.push(h);
                assert(headline_ref_views(out@) =~= before.push(h@));
            } else {
                assert(headline_ref_views(out@) =~= before);
            }
            i += 1;
        }
        assert(hs.subrange(0, hs.len() as int) =~= hs);
        out
    }

    /// The index of the first headline titled `title` (up to ASCII case).
    pub fn index_of_section(&self, title: &str) -> (r: Option<usize>)
        ensures
            match r {
                Some(k) => first_where(self@.headlines, titled(title@), 0) == Some(k as int) && k
                    < self.headlines.len(),
                None => first_where(self@.headlines, titled(title@), 0) is None,
            },
    {
        let mut i: usize = 0;
        while i < self.headlines.len()
            invariant
                0 <= i <= self.headlines@.len(),
                first_where(self@.headlines, titled(title@), 0) == first_where(
                    self@.headlines,
                    titled(title@),
                    i as int,
                ),
            decreases self.headlines@.len() - i,
        {
            if str_eq_ignore_ascii_case(self.headlines[i].title.as_str(), title) {
                proof {
                    lemma_first_where(self@.headlines, titled(title@), i as int);
                }
                return Some(i);
            }
            i += 1;
        }
        None
    }

    /// The first headline titled `title` (up to ASCII case).
    pub fn find_section(&self, title: &str) -> (r: Option<&Headline>)
        ensures
            match first_where(self@.headlines, titled(title@), 0) {
                Some(k) => r matches Some(h) && h@ == self@.headlines[k],
                None => r is None,
            },
    {
        match self.index_of_section(title) {
            Some(k) => Some(&self.headlines[k]),
            None => None,
        }
    }

    fn deeper_run_end_exec(&self, level: usize, j: usize) -> (r: usize)
        requires
            j <= self.headlines@.len(),
        ensures
            r == deeper_run_end(self@.headlines, level, j as int),
            j <= r <= self.headlines@.len(),
    {
        let mut k = j;
        while k < self.headlines.len() && self.headlines[k].level > level
            invariant
                j <= k <= self.headlines@.len(),
                deeper_run_end(self@.headlines, level, j as int) == deeper_run_end(
                    self@.headlines,
                    level,
                    k as int,
                ),
            decreases self.headlines@.len() - k,
        {
            k += 1;
        }
        k
    }

    /// The headlines under the headline at index `parent`, in order.
    pub fn get_all_descendants(&self, parent: usize) -> (r: Vec<&Headline>)
        requires
            parent < self.headlines.len(),
        ensures
            headline_ref_views(r@) == descendants_spec(self@.headlines, parent as int),
    {
        let ghost hs = self@.headlines;
        let level = self.headlines[parent].level;
        let end = self.deeper_run_end_exec(level, parent + 1);
        let mut out: Vec<&Headline> = Vec::new();
        let mut i = parent + 1;
        while i < end
            invariant
                parent + 1 <= i <= end <= hs.len(),
                hs == self@.headlines,
                headline_ref_views(out@) == hs.subrange(parent + 1, i as int),
            decreases end - i,
        {
            let ghost before = headline_ref_views(out@);
            assert(hs[i as int] == self.headlines@[i as int]@);
            out.push(&self.headlines[i]);
            assert(headline_ref_views(out@) =~= before.push(hs[i as int]));
            assert(hs.subrange(parent + 1, i + 1) =~= hs.subrange(parent + 1, i as int).push(
                hs[i as int],
            ));
            i += 1;
        }
        out
    }

    /// The headlines directly under the headline at index `parent`, in order.
    pub fn get_children(&self, parent: usize) -> (r: Vec<&Headline>)
        requires
            parent < self.headlines.len(),
        ensures
            headline_ref_views(r@) == children_spec(self@.headlines, parent as int),
    {
        let ghost hs = self@.headlines;
        let level = self.headlines[parent].level;
        let ghost pred = |h: HeadlineView| h.level == hs[parent as int].level + 1;
        let end = self.deeper_run_end_exec(level, parent + 1);
        let ghost d = hs.subrange(parent + 1, end as int);
        let mut out: Vec<&Headline> = Vec::new();
        let mut i = parent + 1;
        while i < end
            invariant
                parent + 1 <= i <= end <= hs.len(),
                hs == self@.headlines,
                level == hs[parent as int].level,
                d == hs.subrange(parent + 1, end as int),
                pred == (|h: HeadlineView| h.level == hs[parent as int].level + 1),
                headline_ref_views(out@) == d.subrange(0, i - parent - 1).filter(pred),
            decreases end - i,
        {
            let ghost before = headline_ref_views(out@);
            let h = &self.headlines[i];
            assert(d.subrange(0, i - parent).drop_last() =~= d.subrange(0, i - parent - 1));
            assert(d[i - parent - 1] == hs[i as int]);
            proof {
                reveal(Seq::filter);
            }
            if h.level > 0 && h.level - 1 == level {
                out.push(h);
                assert(headline_ref_views(out@) =~= before.push(h@));
            } else {
                assert(headline_ref_views(out@) =~= before);
            }
            i += 1;
        }
        assert(d.subrange(0, d.len() as int) =~= d);
        out
    }
}

} // verus!
