use vstd::prelude::*;
use vstd::string::StringExecFns;
use crate::calendar::{chrono_parse_ymd, day_number, parse_ymd, today, weekday_name, weekday_of, Date};
use crate::models::habit::{habit_from_headline, Habit, HabitView};
use crate::parser::headline::HeadlineView;
use crate::parser::org::{OrgFile, OrgFileView};
use crate::text::{chars_of, replace_chars, string_of_all};
use crate::tools::agenda::file_views;
use crate::tools::elisp::{
    append_text, append_text_spec, escape_spec, search_and_do, search_and_do_spec, tags_suffix,
    tags_suffix_of,
};

verus! {

broadcast use vstd::string::group_string_axioms;

/// Escapes a value for use inside an elisp double-quoted string.
pub fn elisp_str(s: &str) -> (r: String)
    ensures
        r@ == escape_spec(s@),
{
    let v = chars_of(s);
    let a = replace_chars(&v, '\\', "\\\\");
    let b = replace_chars(&a, '"', "\\\"");
    string_of_all(&b)
}

/// The habits among the headlines `hs` of `file`, in order.
pub open spec fn habits_in(hs: Seq<HeadlineView>, file: Seq<char>) -> Seq<HabitView>
    decreases hs.len(),
{
    if hs.len() == 0 {
        seq![]
    } else {
        let prev = habits_in(hs.drop_last(), file);
        match habit_from_headline(hs.last(), file) {
            Some(x) => prev.push(x),
            None => prev,
        }
    }
}

/// The habits of the files, in order.
pub open spec fn habits_spec(files: Seq<OrgFileView>) -> Seq<HabitView>
    decreases files.len(),
{
    if files.len() == 0 {
        seq![]
    } else {
        habits_spec(files.drop_last()) + habits_in(files.last().headlines, files.last().path)
    }
}

pub open spec fn due_on(date: Date) -> spec_fn(HabitView) -> bool {
    |h: HabitView| h.is_due(date)
}

pub open spec fn habit_views(v: Seq<Habit>) -> Seq<HabitView> {
    v.map_values(|h: Habit| h@)
}

/// All the habits of the parsed agenda files.
pub fn get_habits(files: &Vec<OrgFile>) -> (r: Vec<Habit>)
    ensures
        habit_views(r@) == habits_spec(file_views(files@)),
{
    let ghost fs = file_views(files@);
    let mut out: Vec<Habit> = Vec::new();
    let mut i: usize = 0;
    while i < files.len()
        invariant
            0 <= i <= files@.len(),
            fs == file_views(files@),
            habit_views(out@) == habits_spec(fs.subrange(0, i as int)),
        decreases files@.len() - i,
    {
        assert(fs.subrange(0, i + 1).drop_last() =~= fs.subrange(0, i as int));
        let org = &files[i];
        let ghost hs = org@.headlines;
        let ghost base = habit_views(out@);
        let mut j: usize = 0;
        while j < org.headlines.len()
            invariant
                0 <= j <= hs.len(),
                hs == org@.headlines,
                habit_views(out@) == base + habits_in(hs.subrange(0, j as int), org@.path),
            decreases hs.len() - j,
        {
            assert(hs.subrange(0, j + 1).drop_last() =~= hs.subrange(0, j as int));
            let ghost before = habit_views(out@);
            match Habit::from_headline(&org.headlines[j], org.path.as_str()) {
                Some(h) => {
                    out.push(h);
                    assert(habit_views(out@) =~= before.push(h@));
                },
                None => {},
            }
            j += 1;
        }
        assert(hs.subrange(0, hs.len() as int) =~= hs);
        i += 1;
    }
    assert(fs.subrange(0, fs.len() as int) =~= fs);
    out
}

/// The habits of the parsed agenda files that are due on `date`, in order.
pub fn get_habits_due(files: &Vec<OrgFile>, date: Date) -> (r: Vec<Habit>)
    ensures
        habit_views(r@) == habits_spec(file_views(files@)).filter(due_on(date)),
{
    let all = get_habits(files);
    let ghost hs = habit_views(all@);
    let mut out: Vec<Habit> = Vec::new();
    let mut i: usize = 0;
    while i < all.len()
        invariant
            0 <= i <= all@.len(),
            hs == habit_views(all@),
            habit_views(out@) == hs.subrange(0, i as int).filter(due_on(date)),
        decreases all@.len() - i,
    {
        assert(hs.subrange(0, i + 1).drop_last() =~= hs.subrange(0, i as int));
        proof {
            reveal(Seq::filter);
        }
        let ghost before = habit_views(out@);
        if all[i].is_due(date) {
            out.push(all[i].duplicate());
            assert(habit_views(out@) =~= before.push(hs[i as int]));
        } else {
            assert(habit_views(out@) =~= before);
        }
        i += 1;
    }
    assert(hs.subrange(0, hs.len() as int) =~= hs);
    out
}

/// The habits of the parsed agenda files that are due today (the local date).
pub fn get_habits_due_today(files: &Vec<OrgFile>) -> (r: Vec<Habit>)
    ensures
        exists|d: Date|
            d.valid() && habit_views(r@) == habits_spec(file_views(files@)).filter(due_on(d)),
{
    let d = today();
    get_habits_due(files, d)
}

pub open spec fn is_habit_headline() -> spec_fn(HeadlineView) -> bool {
    |h: HeadlineView| h.properties.style == Some("habit"@)
}

/// The habits of a file are its headlines whose `:STYLE:` is `habit`, each made a habit, in
/// order: none is left out and nothing else is taken.
pub proof fn lemma_habits_of_file(hs: Seq<HeadlineView>, file: Seq<char>)
    ensures
        habits_in(hs, file) == hs.filter(is_habit_headline()).map_values(
            |h: HeadlineView| habit_from_headline(h, file)->0,
        ),
    decreases hs.len(),
{
    reveal(Seq::filter);
    if hs.len() == 0 {
        assert(hs.filter(is_habit_headline()) =~= Seq::<HeadlineView>::empty());
        assert(hs.filter(is_habit_headline()).map_values(
            |h: HeadlineView| habit_from_headline(h, file)->0,
        ) =~= Seq::<HabitView>::empty());
    } else {
        lemma_habits_of_file(hs.drop_last(), file);
        let f = hs.drop_last().filter(is_habit_headline());
        if is_habit_headline()(hs.last()) {
            assert(hs.filter(is_habit_headline()) == f.push(hs.last()));
            assert(f.push(hs.last()).map_values(|h: HeadlineView| habit_from_headline(h, file)->0)
                =~= f.map_values(|h: HeadlineView| habit_from_headline(h, file)->0).push(
                habit_from_headline(hs.last(), file)->0,
            ));
        }
    }
}

/// Every habit that `get_habits_due` returns is due on the date, and is one of the habits.
pub proof fn lemma_due_habits_are_due(files: Seq<OrgFileView>, date: Date)
    ensures
        forall|i: int|
            0 <= i < habits_spec(files).filter(due_on(date)).len() ==> {
                let h = #[trigger] habits_spec(files).filter(due_on(date))[i];
                h.is_due(date) && habits_spec(files).contains(h)
            },
{
    let all = habits_spec(files);
    assert forall|i: int| 0 <= i < all.filter(due_on(date)).len() implies {
        let h = #[trigger] all.filter(due_on(date))[i];
        h.is_due(date) && all.contains(h)
    } by {
        all.lemma_filter_pred(due_on(date), i);
        all.lemma_filter_contains_rev(due_on(date), all.filter(due_on(date))[i]);
    }
}

/// A habit due on a day stays due on every later day, so every habit due on a day is also
/// among those due on any later day.
pub proof fn lemma_due_habits_grow(files: Seq<OrgFileView>, d1: Date, d2: Date)
    requires
        d1.spec_le(d2),
    ensures
        forall|h: HabitView| h.is_due(d1) ==> #[trigger] h.is_due(d2),
        forall|h: HabitView|
            habits_spec(files).filter(due_on(d1)).contains(h) ==> #[trigger] habits_spec(
                files,
            ).filter(due_on(d2)).contains(h),
{
    let all = habits_spec(files);
    assert forall|h: HabitView| h.is_due(d1) implies #[trigger] h.is_due(d2) by {
        crate::calendar::lemma_date_le_transitive(h.scheduled->0, d1, d2);
    }
    assert forall|h: HabitView| all.filter(due_on(d1)).contains(h) implies #[trigger] all.filter(
        due_on(d2),
    ).contains(h) by {
        all.lemma_filter_contains_rev(due_on(d1), h);
        let i = choose|i: int| 0 <= i < all.len() && all[i] == h;
        all.lemma_filter_contains(due_on(d2), i);
    }
}

// ---------------------------------------------------------------------------
// Forms that change habits
// ---------------------------------------------------------------------------

/// The timestamp body of a new habit: the date, its weekday where the date parses, and the
/// repeater.
pub open spec fn habit_timestamp(scheduled: Seq<char>, repeater: Seq<char>) -> Seq<char> {
    match chrono_parse_ymd(scheduled) {
        Some(t) => scheduled + " "@ + weekday_name(weekday_of(day_number(t.0, t.1, t.2))) + " "@ + repeater,
        None => scheduled + " "@ + repeater,
    }
}

/// The text of a new habit: a TODO with a repeating `SCHEDULED` timestamp, an `:ID:` and
/// `:STYLE: habit`.
pub open spec fn habit_entry(
    title: Seq<char>,
    scheduled: Seq<char>,
    repeater: Seq<char>,
    tags: Seq<Seq<char>>,
    id: Seq<char>,
) -> Seq<char> {
    "* TODO "@ + title + tags_suffix(tags) + "\nSCHEDULED: <"@ + habit_timestamp(scheduled, repeater)
        + ">\n:PROPERTIES:\n:ID:       "@ + id + "\n:STYLE:    habit\n:END:"@
}

/// The form that appends a new habit with the id `id` to `file_path`.
pub open spec fn create_habit_spec(
    file_path: Seq<char>,
    title: Seq<char>,
    scheduled: Seq<char>,
    repeater: Seq<char>,
    tags: Seq<Seq<char>>,
    id: Seq<char>,
) -> Seq<char> {
    append_text_spec(
        escape_spec(file_path),
        escape_spec(habit_entry(title, scheduled, repeater, tags, id)),
    )
}

/// A lower-case hexadecimal digit.
pub open spec fn is_lower_hex(c: char) -> bool {
    ('0' <= c && c <= '9') || ('a' <= c && c <= 'f')
}

/// A version-4 UUID written in lower-case hyphenated form: 36 characters, `-` at 8, 13, 18 and
/// 23, the version digit `4` at 14, a variant digit `8`, `9`, `a` or `b` at 19, and
/// lower-case hexadecimal digits everywhere else.
pub open spec fn uuid_v4_text(s: Seq<char>) -> bool {
    &&& s.len() == 36
    &&& s[8] == '-' && s[13] == '-' && s[18] == '-' && s[23] == '-'
    &&& s[14] == '4'
    &&& (s[19] == '8' || s[19] == '9' || s[19] == 'a' || s[19] == 'b')
    &&& forall|i: int|
        0 <= i < 36 && i != 8 && i != 13 && i != 18 && i != 23 ==> is_lower_hex(#[trigger] s[i])
}

/// `uuid::Uuid::new_v4().to_string()`: a random UUID whose version and variant bits `new_v4`
/// sets (version 4, variant `10`), written by `Display` in the lower-case hyphenated form.
/// The contract claims that shape of every outcome; which UUID comes is left open.
#[verifier::external_body]
pub(crate) fn new_uuid() -> (r: String)
    ensures
        uuid_v4_text(r@),
{
    uuid::Uuid::new_v4().to_string()
}

fn habit_timestamp_of(scheduled: &str, repeater: &str) -> (r: String)
    ensures
        r@ == habit_timestamp(scheduled@, repeater@),
{
    let mut m = scheduled.to_owned();
    m.append(" ");
    match parse_ymd(scheduled) {
        Some(d) => {
            m.append(d.weekday_abbrev());
            m.append(" ");
        },
        None => {},
    }
    m.append(repeater);
    m
}

/// The form that appends a new habit with the id `id` to `file_path`.
pub fn create_habit_elisp_with_id(
    file_path: &str,
    title: &str,
    scheduled: &str,
    repeater: &str,
    tags: &Vec<String>,
    id: &str,
) -> (r: String)
    ensures
        r@ == create_habit_spec(
            file_path@,
            title@,
            scheduled@,
            repeater@,
            tags@.map_values(|s: String| s@),
            id@,
        ),
{
    let mut c = "* TODO ".to_owned();
    c.append(title);
    let t = tags_suffix_of(tags);
    c.append(t.as_str());
    c.append("\nSCHEDULED: <");
    let ts = habit_timestamp_of(scheduled, repeater);
    c.append(ts.as_str());
    c.append(">\n:PROPERTIES:\n:ID:       ");
    c.append(id);
    c.append("\n:STYLE:    habit\n:END:");
    let f = elisp_str(file_path);
    let e = elisp_str(c.as_str());
    append_text(f.as_str(), e.as_str())
}

/// The form that appends a new habit with a fresh random version-4 UUID as its id to `file_path`.
pub fn create_habit_elisp(
    file_path: &str,
    title: &str,
    scheduled: &str,
    repeater: &str,
    tags: &Vec<String>,
) -> (r: String)
    ensures
        exists|id: Seq<char>|
            uuid_v4_text(id) && r@ == create_habit_spec(
                file_path@,
                title@,
                scheduled@,
                repeater@,
                tags@.map_values(|s: String| s@),
                id,
            ),
{
    let id = new_uuid();
    create_habit_elisp_with_id(file_path, title, scheduled, repeater, tags, id.as_str())
}

/// The search for the TODO headline titled `title` (matched literally).
pub open spec fn habit_pattern(title: Seq<char>) -> Seq<char> {
    "(concat \"^\\\\*+ TODO \" (regexp-quote \""@ + escape_spec(title) + "\"))"@
}

fn habit_pattern_of(title: &str) -> (r: String)
    ensures
        r@ == habit_pattern(title@),
{
    let mut m = "(concat \"^\\\\*+ TODO \" (regexp-quote \"".to_owned();
    let t = elisp_str(title);
    m.append(t.as_str());
    m.append("\"))");
    m
}

/// The form that cuts the subtree of the habit.
pub fn delete_habit_elisp(habit: &Habit) -> (r: String)
    ensures
        r@ == search_and_do_spec(
            escape_spec(habit.file_path@),
            habit_pattern(habit.title@),
            "(org-back-to-heading t)\n    (org-cut-subtree)"@,
            ""@,
        ),
{
    let f = elisp_str(habit.file_path.as_str());
    let p = habit_pattern_of(habit.title.as_str());
    search_and_do(f.as_str(), p.as_str(), "(org-back-to-heading t)\n    (org-cut-subtree)", "")
}

/// The form that marks the habit done (org-habit then reschedules it).
pub fn mark_habit_done_elisp(habit: &Habit) -> (r: String)
    ensures
        r@ == search_and_do_spec(
            escape_spec(habit.file_path@),
            habit_pattern(habit.title@),
            "(org-todo 'done)"@,
            ""@,
        ),
{
    let f = elisp_str(habit.file_path.as_str());
    let p = habit_pattern_of(habit.title.as_str());
    search_and_do(f.as_str(), p.as_str(), "(org-todo 'done)", "")
}

/// The first habit whose `:ID:` is `ident` or whose title is `ident` up to ASCII case.
pub open spec fn habit_matches(h: HabitView, ident: Seq<char>) -> bool {
    h.id == Some(ident) || crate::text::eq_ignore_ascii_case(h.title, ident)
}

pub fn find_habit(habits: &Vec<Habit>, ident: &str) -> (r: Option<usize>)
    ensures
        match r {
            Some(k) => k < habits@.len() && habit_matches(habits@[k as int]@, ident@) && forall|
                j: int,
            | 0 <= j < k ==> !habit_matches(#[trigger] habits@[j]@, ident@),
            None => forall|j: int|
                0 <= j < habits@.len() ==> !habit_matches(#[trigger] habits@[j]@, ident@),
        },
{
    let mut i: usize = 0;
    while i < habits.len()
        invariant
            0 <= i <= habits@.len(),
            forall|j: int| 0 <= j < i ==> !habit_matches(#[trigger] habits@[j]@, ident@),
        decreases habits@.len() - i,
    {
        let h = &habits[i];
        let by_id = match &h.id {
            Some(x) => crate::text::str_eq(x.as_str(), ident),
            None => false,
        };
        if by_id || crate::text::str_eq_ignore_ascii_case(h.title.as_str(), ident) {
            return Some(i);
        }
        i += 1;
    }
    None
}

} // verus!
