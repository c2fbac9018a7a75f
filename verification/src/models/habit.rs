use vstd::prelude::*;
use crate::calendar::Date;
use crate::models::task::{on_or_before, timestamp_date, ts_date};
use crate::parser::headline::{Headline, HeadlineView};
use crate::parser::timestamp::opt_str_view;
use crate::text::clone_opt_string;

verus! {

broadcast use vstd::string::group_string_axioms;

/// A repeating TODO with `:STYLE: habit`.
#[derive(Clone, Debug)]
pub struct Habit {
    pub id: Option<String>,
    pub title: String,
    pub scheduled: Option<Date>,
    pub repeater: Option<String>,
    pub file_path: String,
    pub line_number: usize,
}

pub struct HabitView {
    pub id: Option<Seq<char>>,
    pub title: Seq<char>,
    pub scheduled: Option<Date>,
    pub repeater: Option<Seq<char>>,
    pub file_path: Seq<char>,
    pub line_number: usize,
}

impl View for Habit {
    type V = HabitView;

    open spec fn view(&self) -> HabitView {
        HabitView {
            id: opt_str_view(self.id),
            title: self.title@,
            scheduled: self.scheduled,
            repeater: opt_str_view(self.repeater),
            file_path: self.file_path@,
            line_number: self.line_number,
        }
    }
}

impl HabitView {
    pub open spec fn is_due(self, date: Date) -> bool {
        on_or_before(self.scheduled, date)
    }
}

/// `Habit::from_headline`: `None` unless the headline is a habit.
pub open spec fn habit_from_headline(h: HeadlineView, file_path: Seq<char>) -> Option<HabitView> {
    if !h.is_habit() {
        None
    } else {
        Some(
            HabitView {
                id: h.properties.id,
                title: h.title,
                scheduled: ts_date(h.scheduled),
                repeater: match h.scheduled {
                    Some(t) => t.repeater,
                    None => None,
                },
                file_path,
                line_number: h.line_number,
            },
        )
    }
}

/// A headline is a habit exactly when its `:STYLE:` property is `habit`; the habit keeps the
/// headline's id, title and line number, the date of its scheduled timestamp and that
/// timestamp's repeater.
pub proof fn lemma_habit_from_headline(h: HeadlineView, file_path: Seq<char>)
    ensures
        habit_from_headline(h, file_path) is Some <==> h.properties.style == Some("habit"@),
        habit_from_headline(h, file_path) matches Some(x) ==> {
            &&& x.id == h.properties.id
            &&& x.title == h.title
            &&& x.line_number == h.line_number
            &&& x.file_path == file_path
            &&& (h.scheduled matches Some(t) ==> x.scheduled == Some(t.date) && x.repeater
                == t.repeater)
            &&& (h.scheduled is None ==> x.scheduled is None && x.repeater is None)
        },
{
}

/// A habit is due on a day exactly when it is scheduled on that day or earlier: a habit
/// without a scheduled date is never due, and a due habit stays due on every later day.
pub proof fn lemma_habit_due(x: HabitView, date: Date)
    requires
        date.valid(),
        x.scheduled matches Some(s) ==> s.valid(),
    ensures
        x.is_due(date) <==> (x.scheduled matches Some(s) && s.number() <= date.number()),
{
    if let Some(s) = x.scheduled {
        crate::calendar::lemma_date_order_is_time_order(s, date);
    }
}

impl Habit {
    /// The habit that a headline in the file `file_path` describes, if it is one.
    pub fn from_headline(headline: &Headline, file_path: &str) -> (r: Option<Self>)
        ensures
            match habit_from_headline(headline@, file_path@) {
                Some(v) => r matches Some(x) && x@ == v,
                None => r is None,
            },
    {
        if !headline.is_habit() {
            return None;
        }
        let repeater = match &headline.scheduled {
            Some(ts) => clone_opt_string(&ts.repeater),
            None => None,
        };
        Some(
            Habit {
                id: clone_opt_string(&headline.properties.id),
                title: headline.title.clone(),
                scheduled: timestamp_date(&headline.scheduled),
                repeater,
                file_path: file_path.to_owned(),
                line_number: headline.line_number,
            },
        )
    }

    /// A copy of the habit.
    pub(crate) fn duplicate(&self) -> (r: Self)
        ensures
            r@ == self@,
    {
        Habit {
            id: clone_opt_string(&self.id),
            title: self.title.clone(),
            scheduled: self.scheduled,
            repeater: clone_opt_string(&self.repeater),
            file_path: self.file_path.clone(),
            line_number: self.line_number,
        }
    }

    /// A habit is due from its scheduled date on.
    pub fn is_due(&self, date: Date) -> (r: bool)
        ensures
            r == self@.is_due(date),
    {
        match self.scheduled {
            Some(d) => d.is_on_or_before(&date),
            None => false,
        }
    }
}

} // verus!
