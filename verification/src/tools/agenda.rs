use vstd::prelude::*;
use crate::calendar::{checked_add_days, last_day_number, lemma_valid_date_not_after_last, today, Date};
use crate::models::event::{event_from_headline, Event, EventView};
use crate::models::habit::{habit_from_headline, Habit, HabitView};
use crate::models::task::{on_or_before, task_from_headline, Task, TaskView};
use crate::parser::headline::{Headline, HeadlineView};
use crate::parser::org::{OrgFile, OrgFileView};

verus! {

broadcast use vstd::string::group_string_axioms;

/// What is on the agenda of one day.
#[derive(Clone, Debug)]
pub struct AgendaDay {
    pub date: Date,
    pub tasks: Vec<Task>,
    pub habits: Vec<Habit>,
    pub events: Vec<Event>,
}

pub struct AgendaView {
    pub date: Date,
    pub tasks: Seq<TaskView>,
    pub habits: Seq<HabitView>,
    pub events: Seq<EventView>,
}

impl View for AgendaDay {
    type V = AgendaView;

    open spec fn view(&self) -> AgendaView {
        AgendaView {
            date: self.date,
            tasks: self.tasks@.map_values(|t: Task| t@),
            habits: self.habits@.map_values(|h: Habit| h@),
            events: self.events@.map_values(|e: Event| e@),
        }
    }
}

pub open spec fn empty_agenda(date: Date) -> AgendaView {
    AgendaView { date, tasks: seq![], habits: seq![], events: seq![] }
}

pub open spec fn file_views(files: Seq<OrgFile>) -> Seq<OrgFileView> {
    files.map_values(|f: OrgFile| f@)
}

/// Where a headline of `file` goes on the agenda: a habit when it is due, an event on the
/// day, an open task scheduled or due on or before the day.
pub open spec fn add_headline(a: AgendaView, h: HeadlineView, file: Seq<char>) -> AgendaView {
    if h.is_habit() {
        match habit_from_headline(h, file) {
            Some(x) => if x.is_due(a.date) {
                AgendaView { habits: a.habits.push(x), ..a }
            } else {
                a
            },
            None => a,
        }
    } else {
        match event_from_headline(h, file) {
            Some(e) => if e.date == a.date {
                AgendaView { events: a.events.push(e), ..a }
            } else {
                a
            },
            None => if h.todo_state is Some && !h.is_done() {
                let t = task_from_headline(h, file);
                if on_or_before(t.scheduled, a.date) || on_or_before(t.deadline, a.date) {
                    AgendaView { tasks: a.tasks.push(t), ..a }
                } else {
                    a
                }
            } else {
                a
            },
        }
    }
}

/// The agenda after the headlines `hs` of `file`.
pub open spec fn add_headlines(a: AgendaView, hs: Seq<HeadlineView>, file: Seq<char>) -> AgendaView
    decreases hs.len(),
{
    if hs.len() == 0 {
        a
    } else {
        add_headline(add_headlines(a, hs.drop_last(), file), hs.last(), file)
    }
}

/// The agenda of `date` over the files, in order.
pub open spec fn agenda_spec(date: Date, files: Seq<OrgFileView>) -> AgendaView
    decreases files.len(),
{
    if files.len() == 0 {
        empty_agenda(date)
    } else {
        add_headlines(agenda_spec(date, files.drop_last()), files.last().headlines, files.last().path)
    }
}

/// Everything on an agenda belongs there.
pub open spec fn agenda_ok(a: AgendaView) -> bool {
    &&& forall|i: int| 0 <= i < a.habits.len() ==> #[trigger] a.habits[i].is_due(a.date)
    &&& forall|i: int| 0 <= i < a.events.len() ==> #[trigger] a.events[i].date == a.date
    &&& forall|i: int|
        0 <= i < a.tasks.len() ==> {
            let t = #[trigger] a.tasks[i];
            &&& t.state is Some
            &&& !t.is_done()
            &&& on_or_before(t.scheduled, a.date) || on_or_before(t.deadline, a.date)
        }
}

proof fn lemma_add_headlines_ok(a: AgendaView, hs: Seq<HeadlineView>, file: Seq<char>)
    requires
        agenda_ok(a),
    ensures
        agenda_ok(add_headlines(a, hs, file)),
        add_headlines(a, hs, file).date == a.date,
    decreases hs.len(),
{
    if hs.len() > 0 {
        lemma_add_headlines_ok(a, hs.drop_last(), file);
        let b = add_headlines(a, hs.drop_last(), file);
        let c = add_headline(b, hs.last(), file);
        assert(agenda_ok(c)) by {
            if c.habits.len() > b.habits.len() {
                assert forall|i: int| 0 <= i < c.habits.len() implies #[trigger] c.habits[i].is_due(
                    c.date,
                ) by {
                    if i < b.habits.len() {
                        assert(c.habits[i] == b.habits[i]);
                    }
                }
            }
            if c.events.len() > b.events.len() {
                assert forall|i: int| 0 <= i < c.events.len() implies #[trigger] c.events[i].date
                    == c.date by {
                    if i < b.events.len() {
                        assert(c.events[i] == b.events[i]);
                    }
                }
            }
            if c.tasks.len() > b.tasks.len() {
                assert forall|i: int| 0 <= i < c.tasks.len() implies {
                    let t = #[trigger] c.tasks[i];
                    &&& t.state is Some
                    &&& !t.is_done()
                    &&& on_or_before(t.scheduled, c.date) || on_or_before(t.deadline, c.date)
                } by {
                    if i < b.tasks.len() {
                        assert(c.tasks[i] == b.tasks[i]);
                    }
                }
            }
        }
    }
}

/// Every habit on the agenda of a day is due that day, every event is on that day, and every
/// task has an open state and is scheduled or due on or before that day.
pub proof fn lemma_agenda_entries_belong(date: Date, files: Seq<OrgFileView>)
    ensures
        agenda_ok(agenda_spec(date, files)),
        agenda_spec(date, files).date == date,
    decreases files.len(),
{
    if files.len() > 0 {
        lemma_agenda_entries_belong(date, files.drop_last());
        lemma_add_headlines_ok(
            agenda_spec(date, files.drop_last()),
            files.last().headlines,
            files.last().path,
        );
    }
}

/// What the agenda `a` of `date` must hold for the headline `h` of `file`: its habit if that
/// is due, else its event if that is on the day, else its task if that is open and scheduled
/// or due by the day.
pub open spec fn holds_entry_of(a: AgendaView, date: Date, h: HeadlineView, file: Seq<char>) -> bool {
    if h.is_habit() {
        match habit_from_headline(h, file) {
            Some(x) => x.is_due(date) ==> a.habits.contains(x),
            None => true,
        }
    } else {
        match event_from_headline(h, file) {
            Some(e) => e.date == date ==> a.events.contains(e),
            None => {
                let t = task_from_headline(h, file);
                (h.todo_state is Some && !h.is_done() && (on_or_before(t.scheduled, date)
                    || on_or_before(t.deadline, date))) ==> a.tasks.contains(t)
            },
        }
    }
}

/// `b` holds everything that `a` holds, for the same day.
pub open spec fn grows(a: AgendaView, b: AgendaView) -> bool {
    &&& b.date == a.date
    &&& forall|x: HabitView| a.habits.contains(x) ==> #[trigger] b.habits.contains(x)
    &&& forall|x: EventView| a.events.contains(x) ==> #[trigger] b.events.contains(x)
    &&& forall|x: TaskView| a.tasks.contains(x) ==> #[trigger] b.tasks.contains(x)
}

proof fn lemma_push_keeps<T>(s: Seq<T>, v: T)
    ensures
        forall|x: T| s.contains(x) ==> #[trigger] s.push(v).contains(x),
        s.push(v).contains(v),
{
    assert(s.push(v)[s.len() as int] == v);
    assert forall|x: T| s.contains(x) implies #[trigger] s.push(v).contains(x) by {
        let i = choose|i: int| 0 <= i < s.len() && s[i] == x;
        assert(s.push(v)[i] == x);
    }
}

proof fn lemma_add_headline_holds(a: AgendaView, h: HeadlineView, file: Seq<char>)
    ensures
        grows(a, add_headline(a, h, file)),
        holds_entry_of(add_headline(a, h, file), a.date, h, file),
{
    match habit_from_headline(h, file) {
        Some(x) => lemma_push_keeps(a.habits, x),
        None => {},
    }
    match event_from_headline(h, file) {
        Some(e) => lemma_push_keeps(a.events, e),
        None => {},
    }
    lemma_push_keeps(a.tasks, task_from_headline(h, file));
}

proof fn lemma_holds_entry_grows(a: AgendaView, b: AgendaView, date: Date, h: HeadlineView, file: Seq<char>)
    requires
        holds_entry_of(a, date, h, file),
        grows(a, b),
    ensures
        holds_entry_of(b, date, h, file),
{
}

proof fn lemma_add_headlines_holds(a: AgendaView, hs: Seq<HeadlineView>, file: Seq<char>)
    ensures
        grows(a, add_headlines(a, hs, file)),
        forall|k: int|
            0 <= k < hs.len() ==> holds_entry_of(add_headlines(a, hs, file), a.date, #[trigger] hs[k], file),
    decreases hs.len(),
{
    if hs.len() > 0 {
        let b = add_headlines(a, hs.drop_last(), file);
        lemma_add_headlines_holds(a, hs.drop_last(), file);
        lemma_add_headline_holds(b, hs.last(), file);
        let c = add_headline(b, hs.last(), file);
        assert forall|k: int| 0 <= k < hs.len() implies holds_entry_of(c, a.date, #[trigger] hs[k], file) by {
            if k < hs.len() - 1 {
                assert(hs[k] == hs.drop_last()[k]);
                lemma_holds_entry_grows(b, c, a.date, hs[k], file);
            }
        }
    }
}

/// The agenda of a day holds everything that belongs on it: every due habit, every event on
/// the day and every open task scheduled or due by the day, of every headline of every file.
pub proof fn lemma_agenda_holds_all(date: Date, files: Seq<OrgFileView>)
    ensures
        forall|i: int, k: int|
            0 <= i < files.len() && 0 <= k < files[i].headlines.len() ==> holds_entry_of(
                agenda_spec(date, files),
                date,
                #[trigger] files[i].headlines[k],
                files[i].path,
            ),
    decreases files.len(),
{
    if files.len() > 0 {
        let prev = agenda_spec(date, files.drop_last());
        lemma_agenda_holds_all(date, files.drop_last());
        lemma_agenda_entries_belong(date, files.drop_last());
        let last = files.last();
        lemma_add_headlines_holds(prev, last.headlines, last.path);
        let all = agenda_spec(date, files);
        assert forall|i: int, k: int|
            0 <= i < files.len() && 0 <= k < files[i].headlines.len() implies holds_entry_of(
            all,
            date,
            #[trigger] files[i].headlines[k],
            files[i].path,
        ) by {
            if i < files.len() - 1 {
                assert(files[i] == files.drop_last()[i]);
                lemma_holds_entry_grows(prev, all, date, files[i].headlines[k], files[i].path);
            }
        }
    }
}

impl AgendaDay {
    /// An empty agenda for `date`.
    pub fn new(date: Date) -> (r: Self)
        ensures
            r@ == empty_agenda(date),
    {
        let r = AgendaDay { date, tasks: Vec::new(), habits: Vec::new(), events: Vec::new() };
        assert(r@.tasks =~= Seq::<TaskView>::empty());
        assert(r@.habits =~= Seq::<HabitView>::empty());
        assert(r@.events =~= Seq::<EventView>::empty());
        r
    }

    fn add(&mut self, h: &Headline, file: &str)
        ensures
            final(self)@ == add_headline(old(self)@, h@, file@),
    {
        if h.is_habit() {
            match Habit::from_headline(h, file) {
                Some(x) => {
                    if x.is_due(self.date) {
                        let ghost before = self@;
                        self.habits.push(x);
                        assert(self@.habits =~= before.habits.push(x@));
                    }
                },
                None => {},
            }
            return ;
        }
        match Event::from_headline(h, file) {
            Some(e) => {
                if e.is_on_date(self.date) {
                    let ghost before = self@;
                    self.events.push(e);
                    assert(self@.events =~= before.events.push(e@));
                }
            },
            None => {
                if h.todo_state.is_some() && !h.is_done() {
                    let t = Task::from_headline(h, file);
                    if t.is_scheduled_on_or_before(self.date) || t.has_deadline_on_or_before(
                        self.date,
                    ) {
                        let ghost before = self@;
                        self.tasks.push(t);
                        assert(self@.tasks =~= before.tasks.push(t@));
                    }
                }
            },
        }
    }

    fn add_file(&mut self, org: &OrgFile)
        ensures
            final(self)@ == add_headlines(old(self)@, org@.headlines, org@.path),
    {
        let ghost hs = org@.headlines;
        let ghost start = self@;
        let mut i: usize = 0;
        while i < org.headlines.len()
            invariant
                0 <= i <= hs.len(),
                hs == org@.headlines,
                self@ == add_headlines(start, hs.subrange(0, i as int), org@.path),
            decreases hs.len() - i,
        {
            assert(hs.subrange(0, i + 1).drop_last() =~= hs.subrange(0, i as int));
            self.add(&org.headlines[i], org.path.as_str());
            i += 1;
        }
        assert(hs.subrange(0, hs.len() as int) =~= hs);
    }
}

/// The agenda of `date` over the parsed agenda files, in order.
pub fn get_agenda_for_date(files: &Vec<OrgFile>, date: Date) -> (r: AgendaDay)
    ensures
        r@ == agenda_spec(date, file_views(files@)),
{
    let ghost fs = file_views(files@);
    let mut agenda = AgendaDay::new(date);
    let mut i: usize = 0;
    while i < files.len()
        invariant
            0 <= i <= files@.len(),
            fs == file_views(files@),
            agenda@ == agenda_spec(date, fs.subrange(0, i as int)),
        decreases files@.len() - i,
    {
        assert(fs.subrange(0, i + 1).drop_last() =~= fs.subrange(0, i as int));
        agenda.add_file(&files[i]);
        i += 1;
    }
    assert(fs.subrange(0, fs.len() as int) =~= fs);
    agenda
}

/// The agenda of today (the local date, whatever it is).
pub fn get_agenda_today(files: &Vec<OrgFile>) -> (r: AgendaDay)
    ensures
        r.date.valid(),
        r@ == agenda_spec(r.date, file_views(files@)),
{
    let d = today();
    proof {
        lemma_agenda_entries_belong(d, file_views(files@));
    }
    get_agenda_for_date(files, d)
}

/// `a` is the agenda of the day `i` days after `start`.
pub open spec fn agenda_of_day(start: Date, i: int, a: AgendaView, files: Seq<OrgFileView>) -> bool {
    &&& a.date.valid()
    &&& a.date.number() == start.number() + i
    &&& a == agenda_spec(a.date, files)
}

/// The agendas of `days` days from `start` on; `None` where the last of those days lies beyond
/// the calendar.
pub fn get_agenda_upcoming_from(files: &Vec<OrgFile>, start: Date, days: usize) -> (r: Option<
    Vec<AgendaDay>,
>)
    requires
        start.valid(),
    ensures
        match r {
            Some(v) => {
                &&& v@.len() == days
                &&& forall|i: int|
                    0 <= i < days ==> agenda_of_day(start, i, (#[trigger] v@[i])@, file_views(files@))
            },
            None => days > 0 && start.number() + days - 1 > last_day_number(),
        },
        r is None <==> (days > 0 && start.number() + days - 1 > last_day_number()),
{
    let mut out: Vec<AgendaDay> = Vec::new();
    let mut i: usize = 0;
    while i < days
        invariant
            0 <= i <= days,
            start.valid(),
            out@.len() == i,
            forall|j: int|
                0 <= j < i ==> agenda_of_day(start, j, (#[trigger] out@[j])@, file_views(files@)),
        decreases days - i,
    {
        let d = match checked_add_days(start, i as u64) {
            Some(d) => d,
            None => {
                return None;
            },
        };
        proof {
            lemma_agenda_entries_belong(d, file_views(files@));
        }
        let ghost before = out@;
        out.push(get_agenda_for_date(files, d));
        assert(forall|j: int| 0 <= j < i ==> out@[j] == before[j]);
        assert(agenda_of_day(start, i as int, out@[i as int]@, file_views(files@)));
        i += 1;
    }
    if days > 0 {
        proof {
            lemma_valid_date_not_after_last(out@[days - 1].date);
        }
    }
    Some(out)
}

/// The agendas of `days` days from today on: for some valid date `start` (the local date),
/// what `get_agenda_upcoming_from` gives from it.
pub fn get_agenda_upcoming(files: &Vec<OrgFile>, days: usize) -> (r: Option<Vec<AgendaDay>>)
    ensures
        exists|start: Date|
            #![trigger start.number()]
            {
                &&& start.valid()
                &&& (r is None <==> (days > 0 && start.number() + days - 1 > last_day_number()))
                &&& (r matches Some(v) ==> {
                    &&& v@.len() == days
                    &&& forall|i: int|
                        0 <= i < days ==> agenda_of_day(
                            start,
                            i,
                            (#[trigger] v@[i])@,
                            file_views(files@),
                        )
                })
            },
{
    let start = today();
    let out = get_agenda_upcoming_from(files, start, days);
    assert(out is None <==> (days > 0 && start.number() + days - 1 > last_day_number()));
    assert(out matches Some(v) ==> {
        &&& v@.len() == days
        &&& forall|i: int|
            0 <= i < days ==> agenda_of_day(start, i, (#[trigger] v@[i])@, file_views(files@))
    });
    out
}

} // verus!
