use vstd::prelude::*;
use crate::calendar::Date;
use crate::parser::headline::{Headline, HeadlineView, TodoState};
use crate::parser::timestamp::{opt_str_view, OrgTimestamp, TimestampView};
use crate::text::{clone_opt_string, clone_strings};

verus! {

broadcast use vstd::string::group_string_axioms;

/// A TODO item taken from a headline.
#[derive(Clone, Debug)]
pub struct Task {
    pub id: Option<String>,
    pub title: String,
    pub state: Option<TodoState>,
    pub priority: Option<char>,
    pub tags: Vec<String>,
    pub scheduled: Option<Date>,
    pub deadline: Option<Date>,
    pub body: String,
    pub file_path: String,
    pub line_number: usize,
}

pub struct TaskView {
    pub id: Option<Seq<char>>,
    pub title: Seq<char>,
    pub state: Option<TodoState>,
    pub priority: Option<char>,
    pub tags: Seq<Seq<char>>,
    pub scheduled: Option<Date>,
    pub deadline: Option<Date>,
    pub body: Seq<char>,
    pub file_path: Seq<char>,
    pub line_number: usize,
}

impl View for Task {
    type V = TaskView;

    open spec fn view(&self) -> TaskView {
        TaskView {
            id: opt_str_view(self.id),
            title: self.title@,
            state: self.state,
            priority: self.priority,
            tags: self.tags@.map_values(|s: String| s@),
            scheduled: self.scheduled,
            deadline: self.deadline,
            body: self.body@,
            file_path: self.file_path@,
            line_number: self.line_number,
        }
    }
}

/// The date of an optional timestamp.
pub open spec fn ts_date(t: Option<TimestampView>) -> Option<Date> {
    match t {
        Some(t) => Some(t.date),
        None => None,
    }
}

/// `d` is set and on or before `date`.
pub open spec fn on_or_before(d: Option<Date>, date: Date) -> bool {
    d matches Some(x) && x.spec_le(date)
}

/// `Task::from_headline`.
pub open spec fn task_from_headline(h: HeadlineView, file_path: Seq<char>) -> TaskView {
    TaskView {
        id: h.properties.id,
        title: h.title,
        state: h.todo_state,
        priority: h.priority,
        tags: h.tags,
        scheduled: ts_date(h.scheduled),
        deadline: ts_date(h.deadline),
        body: h.body,
        file_path,
        line_number: h.line_number,
    }
}

impl TaskView {
    pub open spec fn is_done(self) -> bool {
        self.state matches Some(s) && s.spec_is_done()
    }
}

/// The date of an optional timestamp.
pub fn timestamp_date(t: &Option<OrgTimestamp>) -> (r: Option<Date>)
    ensures
        r == ts_date(crate::parser::timestamp::opt_ts_view(*t)),
{
    match t {
        Some(ts) => Some(ts.date),
        None => None,
    }
}

impl Task {
    /// The task that a headline in the file `file_path` describes.
    pub fn from_headline(headline: &Headline, file_path: &str) -> (r: Self)
        ensures
            r@ == task_from_headline(headline@, file_path@),
    {
        let r = Task {
            id: clone_opt_string(&headline.properties.id),
            title: headline.title.clone(),
            state: headline.todo_state,
            priority: headline.priority,
            tags: clone_strings(&headline.tags),
            scheduled: timestamp_date(&headline.scheduled),
            deadline: timestamp_date(&headline.deadline),
            body: headline.body.clone(),
            file_path: file_path.to_owned(),
            line_number: headline.line_number,
        };
        r
    }

    /// `DONE` and `CANCELLED` tasks are done.
    pub fn is_done(&self) -> (r: bool)
        ensures
            r == self@.is_done(),
    {
        match self.state {
            Some(s) => s.is_done(),
            None => false,
        }
    }

    pub fn is_scheduled_for(&self, date: Date) -> (r: bool)
        ensures
            r == (self.scheduled == Some(date)),
    {
        match self.scheduled {
            Some(d) => d == date,
            None => false,
        }
    }

    pub fn is_scheduled_on_or_before(&self, date: Date) -> (r: bool)
        ensures
            r == on_or_before(self.scheduled, date),
    {
        match self.scheduled {
            Some(d) => d.is_on_or_before(&date),
            None => false,
        }
    }

    pub fn has_deadline_on_or_before(&self, date: Date) -> (r: bool)
        ensures
            r == on_or_before(self.deadline, date),
    {
        match self.deadline {
            Some(d) => d.is_on_or_before(&date),
            None => false,
        }
    }
}

} // verus!
