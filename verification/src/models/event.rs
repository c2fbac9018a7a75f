use vstd::prelude::*;
use crate::calendar::{Date, Time};
use crate::parser::headline::{Headline, HeadlineView};
use crate::parser::timestamp::{opt_str_view, parse_active_spec, OrgTimestamp};
use crate::text::clone_opt_string;

verus! {

broadcast use vstd::string::group_string_axioms;

/// An appointment: a headline with an active timestamp in its body.
#[derive(Clone, Debug)]
pub struct Event {
    pub id: Option<String>,
    pub title: String,
    pub date: Date,
    pub start_time: Option<Time>,
    pub end_time: Option<Time>,
    pub location: Option<String>,
    pub body: String,
    pub repeater: Option<String>,
    pub file_path: String,
    pub line_number: usize,
}

pub struct EventView {
    pub id: Option<Seq<char>>,
    pub title: Seq<char>,
    pub date: Date,
    pub start_time: Option<Time>,
    pub end_time: Option<Time>,
    pub location: Option<Seq<char>>,
    pub body: Seq<char>,
    pub repeater: Option<Seq<char>>,
    pub file_path: Seq<char>,
    pub line_number: usize,
}

impl View for Event {
    type V = EventView;

    open spec fn view(&self) -> EventView {
        EventView {
            id: opt_str_view(self.id),
            title: self.title@,
            date: self.date,
            start_time: self.start_time,
            end_time: self.end_time,
            location: opt_str_view(self.location),
            body: self.body@,
            repeater: opt_str_view(self.repeater),
            file_path: self.file_path@,
            line_number: self.line_number,
        }
    }
}

impl EventView {
    pub open spec fn is_in_range(self, start: Date, end: Date) -> bool {
        start.spec_le(self.date) && self.date.spec_le(end)
    }
}

/// `Event::from_headline`: the first active timestamp of the body makes the event.
pub open spec fn event_from_headline(h: HeadlineView, file_path: Seq<char>) -> Option<EventView> {
    match parse_active_spec(h.body) {
        None => None,
        Some(ts) => Some(
            EventView {
                id: h.properties.id,
                title: h.title,
                date: ts.date,
                start_time: ts.time,
                end_time: ts.end_time,
                location: h.properties.location,
                body: h.body,
                repeater: ts.repeater,
                file_path,
                line_number: h.line_number,
            },
        ),
    }
}

impl Event {
    /// The event that a headline in the file `file_path` describes, if its body holds an
    /// active timestamp.
    pub fn from_headline(headline: &Headline, file_path: &str) -> (r: Option<Self>)
        ensures
            match event_from_headline(headline@, file_path@) {
                Some(v) => r matches Some(x) && x@ == v,
                None => r is None,
            },
    {
        let ts = match OrgTimestamp::parse_active(headline.body.as_str()) {
            Some(ts) => ts,
            None => {
                return None;
            },
        };
        Some(
            Event {
                id: clone_opt_string(&headline.properties.id),
                title: headline.title.clone(),
                date: ts.date,
                start_time: ts.time,
                end_time: ts.end_time,
                location: clone_opt_string(&headline.properties.location),
                body: headline.body.clone(),
                repeater: ts.repeater,
                file_path: file_path.to_owned(),
                line_number: headline.line_number,
            },
        )
    }

    pub fn is_on_date(&self, date: Date) -> (r: bool)
        ensures
            r == (self.date == date),
    {
        self.date == date
    }

    /// `start <= date <= end`.
    pub fn is_in_range(&self, start: Date, end: Date) -> (r: bool)
        ensures
            r == self@.is_in_range(start, end),
    {
        start.is_on_or_before(&self.date) && self.date.is_on_or_before(&end)
    }
}

/// An event on a date is in the range from that date to that date.
pub proof fn lemma_on_date_in_range(e: EventView, date: Date)
    requires
        e.date == date,
    ensures
        e.is_in_range(date, date),
{
}

} // verus!
