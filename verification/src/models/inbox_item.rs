use vstd::prelude::*;
use crate::calendar::Date;
use crate::classes::{to_lowercase, unicode_lower};
use crate::models::task::{timestamp_date, ts_date};
use crate::parser::headline::{Headline, HeadlineView, TodoState};
use crate::parser::timestamp::opt_str_view;
use crate::text::{
    ascii_lower_seq, clone_opt_string, clone_strings, eq_ignore_ascii_case, is_ascii_seq, str_eq,
};

verus! {

broadcast use vstd::string::group_string_axioms;

/// The sections of the inbox file.
#[derive(Clone, Copy, Debug, PartialEq, Eq, Structural)]
pub enum InboxSection {
    Personal,
    Work,
    Email,
}

/// The name of a section.
pub open spec fn section_name(s: InboxSection) -> Seq<char> {
    match s {
        InboxSection::Personal => "Personal"@,
        InboxSection::Work => "Work"@,
        InboxSection::Email => "Email"@,
    }
}

/// The section whose lower-case name is `l`.
pub open spec fn section_from_lower(l: Seq<char>) -> Option<InboxSection> {
    if l == "personal"@ {
        Some(InboxSection::Personal)
    } else if l == "work"@ {
        Some(InboxSection::Work)
    } else if l == "email"@ {
        Some(InboxSection::Email)
    } else {
        None
    }
}

/// Any ASCII text that equals the name of a section up to ASCII case is read as that section:
/// its name, `"personal"`, `"PERSONAL"` and the like.
pub proof fn lemma_section_any_case(x: InboxSection, t: Seq<char>)
    requires
        eq_ignore_ascii_case(t, section_name(x)),
    ensures
        section_from_lower(ascii_lower_seq(t)) == Some(x),
        is_ascii_seq(section_name(x)),
{
    reveal_strlit("Personal");
    reveal_strlit("Work");
    reveal_strlit("Email");
    reveal_strlit("personal");
    reveal_strlit("work");
    reveal_strlit("email");
    let n = section_name(x);
    assert(ascii_lower_seq(t) =~= ascii_lower_seq(n));
    match x {
        InboxSection::Personal => {
            assert(ascii_lower_seq(n) =~= "personal"@);
        },
        InboxSection::Work => {
            assert(ascii_lower_seq(n) =~= "work"@);
            assert("work"@.len() != "personal"@.len());
        },
        InboxSection::Email => {
            assert(ascii_lower_seq(n) =~= "email"@);
            assert("email"@.len() != "personal"@.len());
            assert("email"@.len() != "work"@.len());
        },
    }
}

impl InboxSection {
    /// The section named `s` in any case (`s.to_lowercase()`).
    pub fn from_str(s: &str) -> (r: Option<Self>)
        ensures
            r == section_from_lower(unicode_lower(s@)),
            is_ascii_seq(s@) ==> r == section_from_lower(ascii_lower_seq(s@)),
    {
        let l = to_lowercase(s);
        let l = l.as_str();
        if str_eq(l, "personal") {
            Some(InboxSection::Personal)
        } else if str_eq(l, "work") {
            Some(InboxSection::Work)
        } else if str_eq(l, "email") {
            Some(InboxSection::Email)
        } else {
            None
        }
    }

    pub fn as_str(&self) -> (r: &'static str)
        ensures
            r@ == section_name(*self),
    {
        match self {
            InboxSection::Personal => "Personal",
            InboxSection::Work => "Work",
            InboxSection::Email => "Email",
        }
    }
}

/// A task filed under a section of the inbox.
#[derive(Clone, Debug)]
pub struct InboxItem {
    pub id: Option<String>,
    pub title: String,
    pub section: InboxSection,
    pub state: Option<TodoState>,
    pub priority: Option<char>,
    pub tags: Vec<String>,
    pub scheduled: Option<Date>,
    pub deadline: Option<Date>,
    pub body: String,
    pub line_number: usize,
}

pub struct InboxItemView {
    pub id: Option<Seq<char>>,
    pub title: Seq<char>,
    pub section: InboxSection,
    pub state: Option<TodoState>,
    pub priority: Option<char>,
    pub tags: Seq<Seq<char>>,
    pub scheduled: Option<Date>,
    pub deadline: Option<Date>,
    pub body: Seq<char>,
    pub line_number: usize,
}

impl View for InboxItem {
    type V = InboxItemView;

    open spec fn view(&self) -> InboxItemView {
        InboxItemView {
            id: opt_str_view(self.id),
            title: self.title@,
            section: self.section,
            state: self.state,
            priority: self.priority,
            tags: self.tags@.map_values(|s: String| s@),
            scheduled: self.scheduled,
            deadline: self.deadline,
            body: self.body@,
            line_number: self.line_number,
        }
    }
}

impl InboxItemView {
    pub open spec fn is_done(self) -> bool {
        self.state matches Some(s) && s.spec_is_done()
    }
}

/// `InboxItem::from_headline`.
pub open spec fn item_from_headline(h: HeadlineView, section: InboxSection) -> InboxItemView {
    InboxItemView {
        id: h.properties.id,
        title: h.title,
        section,
        state: h.todo_state,
        priority: h.priority,
        tags: h.tags,
        scheduled: ts_date(h.scheduled),
        deadline: ts_date(h.deadline),
        body: h.body,
        line_number: h.line_number,
    }
}

impl InboxItem {
    /// The item that a headline under `section` describes.
    pub fn from_headline(headline: &Headline, section: InboxSection) -> (r: Self)
        ensures
            r@ == item_from_headline(headline@, section),
    {
        InboxItem {
            id: clone_opt_string(&headline.properties.id),
            title: headline.title.clone(),
            section,
            state: headline.todo_state,
            priority: headline.priority,
            tags: clone_strings(&headline.tags),
            scheduled: timestamp_date(&headline.scheduled),
            deadline: timestamp_date(&headline.deadline),
            body: headline.body.clone(),
            line_number: headline.line_number,
        }
    }

    pub fn is_done(&self) -> (r: bool)
        ensures
            r == self@.is_done(),
    {
        match self.state {
            Some(s) => s.is_done(),
            None => false,
        }
    }
}

} // verus!
