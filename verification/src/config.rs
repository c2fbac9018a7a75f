use vstd::prelude::*;
use vstd::string::StringExecFns;
use crate::models::inbox_item::{lemma_section_any_case, section_from_lower, section_name, InboxSection};
use crate::text::{ascii_lower_seq, eq_ignore_ascii_case, is_ascii_seq};

verus! {

broadcast use vstd::string::group_string_axioms;

/// Where the org files are, and how to reach Emacs.
#[derive(Clone, Debug)]
pub struct Config {
    pub agenda: AgendaConfig,
    pub inbox: InboxConfig,
    pub refile: RefileConfig,
    pub emacs: EmacsConfig,
}

#[derive(Clone, Debug)]
pub struct AgendaConfig {
    pub files: Vec<String>,
}

#[derive(Clone, Debug)]
pub struct InboxConfig {
    pub file: String,
    pub sections: Vec<String>,
}

#[derive(Clone, Debug)]
pub struct RefileConfig {
    pub projects: String,
    pub areas: String,
    pub resources: String,
    pub archives: String,
}

#[derive(Clone, Debug)]
pub struct EmacsConfig {
    pub use_emacsclient: bool,
    pub socket_name: Option<String>,
}

pub open spec fn str_views(v: Seq<String>) -> Seq<Seq<char>> {
    v.map_values(|s: String| s@)
}

/// The agenda files of the default configuration.
pub open spec fn default_agenda_files() -> Seq<Seq<char>> {
    seq![
        "~/Documents/org/roam/Inbox.org"@,
        "~/Documents/org/habits.org"@,
        "~/Documents/org/github.org"@,
        "~/Documents/org/calendars/personal.org"@,
        "~/Documents/org/calendars/work.org"@,
    ]
}

/// The inbox sections of the default configuration.
pub open spec fn default_sections() -> Seq<Seq<char>> {
    seq!["Personal"@, "Work"@, "Email"@]
}

/// What expanding `input` may give when the home directory is not known in advance: a leading
/// `~` alone or before a path separator becomes some home directory, or stays; anything else
/// is kept.
pub open spec fn tilde_outcome(input: Seq<char>, out: Seq<char>) -> bool {
    if input.len() > 0 && input[0] == '~' && (input.len() == 1 || input[1] == '/' || input[1]
        == '\\') {
        out == input || exists|home: Seq<char>| out == home + input.drop_first()
    } else {
        out == input
    }
}

/// What `shellexpand::tilde_with_context` gives for `input` when the home directory is `home`:
/// a leading `~` that stands alone or before `/` becomes the home directory, where one is
/// known (before `\` it does so on Windows only); anything else is kept.
pub open spec fn tilde_expansion(input: Seq<char>, home: Option<Seq<char>>, out: Seq<char>) -> bool {
    let tilde = input.len() > 0 && input[0] == '~';
    let slash = tilde && (input.len() == 1 || input[1] == '/');
    let backslash = tilde && input.len() > 1 && input[1] == '\\';
    match home {
        Some(h) => if slash {
            out == h + input.drop_first()
        } else if backslash {
            out == input || out == h + input.drop_first()
        } else {
            out == input
        },
        None => out == input,
    }
}

/// `shellexpand::tilde_with_context(path, || home)`. The contract claims what its source
/// shows: the leading `~` alone or before `/` is replaced by `home` when it is given (before
/// `\` only on Windows); every other input comes back unchanged.
#[verifier::external_body]
fn tilde_with_home(path: &str, home: Option<&str>) -> (r: String)
    ensures
        tilde_expansion(
            path@,
            match home {
                Some(h) => Some(h@),
                None => None,
            },
            r@,
        ),
{
    shellexpand::tilde_with_context(path, || home).into_owned()
}

/// `dirs::home_dir()` as a string, `None` where it is unknown or not valid Unicode (the
/// lookup that `shellexpand::tilde` makes). It comes from the environment: nothing is claimed
/// of it.
#[verifier::external_body]
fn home_directory() -> (r: Option<String>) {
    dirs::home_dir().and_then(|p| p.into_os_string().into_string().ok())
}

fn owned_strings(lits: &[&str]) -> (r: Vec<String>)
    ensures
        r@.len() == lits@.len(),
        forall|i: int| 0 <= i < lits@.len() ==> #[trigger] r@[i]@ == lits@[i]@,
{
    let mut r: Vec<String> = Vec::new();
    let mut i: usize = 0;
    while i < lits.len()
        invariant
            0 <= i <= lits@.len(),
            r@.len() == i,
            forall|j: int| 0 <= j < i ==> #[trigger] r@[j]@ == lits@[j]@,
        decreases lits@.len() - i,
    {
        r.push(lits[i].to_owned());
        i += 1;
    }
    r
}

impl Default for Config {
    fn default() -> (r: Config)
        ensures
            str_views(r.agenda.files@) == default_agenda_files(),
            r.inbox.file@ == "~/Documents/org/roam/Inbox.org"@,
            str_views(r.inbox.sections@) == default_sections(),
            r.refile.projects@ == "~/Documents/org/roam/Projects.org"@,
            r.refile.areas@ == "~/Documents/org/roam/Areas.org"@,
            r.refile.resources@ == "~/Documents/org/roam/Resources.org"@,
            r.refile.archives@ == "~/Documents/org/roam/Archives.org"@,
            r.emacs.use_emacsclient,
            r.emacs.socket_name is None,
    {
        let files = owned_strings(
            &[
                "~/Documents/org/roam/Inbox.org",
                "~/Documents/org/habits.org",
                "~/Documents/org/github.org",
                "~/Documents/org/calendars/personal.org",
                "~/Documents/org/calendars/work.org",
            ],
        );
        let sections = owned_strings(&["Personal", "Work", "Email"]);
        assert(str_views(files@) =~= default_agenda_files());
        assert(str_views(sections@) =~= default_sections());
        Config {
            agenda: AgendaConfig { files },
            inbox: InboxConfig { file: "~/Documents/org/roam/Inbox.org".to_owned(), sections },
            refile: RefileConfig {
                projects: "~/Documents/org/roam/Projects.org".to_owned(),
                areas: "~/Documents/org/roam/Areas.org".to_owned(),
                resources: "~/Documents/org/roam/Resources.org".to_owned(),
                archives: "~/Documents/org/roam/Archives.org".to_owned(),
            },
            emacs: EmacsConfig { use_emacsclient: true, socket_name: None },
        }
    }
}

impl Config {
    /// The path with a leading `~` expanded to the home directory `home`, where one is given.
    pub fn expand_path_with_home(path: &str, home: Option<&str>) -> (r: String)
        ensures
            tilde_expansion(
                path@,
                match home {
                    Some(h) => Some(h@),
                    None => None,
                },
                r@,
            ),
    {
        tilde_with_home(path, home)
    }

    /// The path with a leading `~` expanded to the home directory (looked up in the
    /// environment).
    pub fn expand_path(path: &str) -> (r: String)
        ensures
            exists|home: Option<Seq<char>>| #[trigger] tilde_expansion(path@, home, r@),
            tilde_outcome(path@, r@),
    {
        let home = home_directory();
        let r = match &home {
            Some(h) => Self::expand_path_with_home(path, Some(h.as_str())),
            None => Self::expand_path_with_home(path, None),
        };
        let ghost hv = match home {
            Some(h) => Some(h@),
            None => None,
        };
        assert(tilde_expansion(path@, hv, r@));
        proof {
            lemma_expansion_is_outcome(path@, hv, r@);
        }
        r
    }

    /// The agenda files, expanded, in order.
    pub fn agenda_files(&self) -> (r: Vec<String>)
        ensures
            r@.len() == self.agenda.files@.len(),
            forall|i: int|
                0 <= i < r@.len() ==> tilde_outcome(self.agenda.files@[i]@, #[trigger] r@[i]@),
    {
        let mut r: Vec<String> = Vec::new();
        let mut i: usize = 0;
        while i < self.agenda.files.len()
            invariant
                0 <= i <= self.agenda.files@.len(),
                r@.len() == i,
                forall|j: int|
                    0 <= j < i ==> tilde_outcome(self.agenda.files@[j]@, #[trigger] r@[j]@),
            decreases self.agenda.files@.len() - i,
        {
            r.push(Self::expand_path(self.agenda.files[i].as_str()));
            i += 1;
        }
        r
    }

    /// The inbox file, expanded.
    pub fn inbox_file(&self) -> (r: String)
        ensures
            tilde_outcome(self.inbox.file@, r@),
    {
        Self::expand_path(self.inbox.file.as_str())
    }

    /// The refile targets by name: projects, areas, resources, archives, each expanded.
    pub fn refile_targets(&self) -> (r: Vec<(String, String)>)
        ensures
            r@.len() == 4,
            r@[0].0@ == "Projects"@ && tilde_outcome(self.refile.projects@, r@[0].1@),
            r@[1].0@ == "Areas"@ && tilde_outcome(self.refile.areas@, r@[1].1@),
            r@[2].0@ == "Resources"@ && tilde_outcome(self.refile.resources@, r@[2].1@),
            r@[3].0@ == "Archives"@ && tilde_outcome(self.refile.archives@, r@[3].1@),
    {
        let mut r: Vec<(String, String)> = Vec::new();
        r.push(("Projects".to_owned(), Self::expand_path(self.refile.projects.as_str())));
        r.push(("Areas".to_owned(), Self::expand_path(self.refile.areas.as_str())));
        r.push(("Resources".to_owned(), Self::expand_path(self.refile.resources.as_str())));
        r.push(("Archives".to_owned(), Self::expand_path(self.refile.archives.as_str())));
        r
    }
}

/// An expansion with some home directory is one of the outcomes that `tilde_outcome` allows.
pub proof fn lemma_expansion_is_outcome(input: Seq<char>, home: Option<Seq<char>>, out: Seq<char>)
    requires
        tilde_expansion(input, home, out),
    ensures
        tilde_outcome(input, out),
{
    match home {
        Some(h) => {
            if out == h + input.drop_first() {
                assert(exists|home: Seq<char>| out == home + input.drop_first());
            }
        },
        None => {},
    }
}

/// The default inbox sections are the three section names, in order, and each is read back as
/// its section, in its own case or any other ASCII case.
pub proof fn lemma_default_sections_are_sections()
    ensures
        default_sections() == seq![
            section_name(InboxSection::Personal),
            section_name(InboxSection::Work),
            section_name(InboxSection::Email),
        ],
        forall|x: InboxSection, t: Seq<char>|
            #[trigger] eq_ignore_ascii_case(t, section_name(x)) ==> section_from_lower(
                ascii_lower_seq(t),
            ) == Some(x),
        forall|x: InboxSection| is_ascii_seq(#[trigger] section_name(x)),
{
    assert(default_sections() =~= seq![
        section_name(InboxSection::Personal),
        section_name(InboxSection::Work),
        section_name(InboxSection::Email),
    ]);
    assert forall|x: InboxSection, t: Seq<char>|
        #[trigger] eq_ignore_ascii_case(t, section_name(x)) implies section_from_lower(
        ascii_lower_seq(t),
    ) == Some(x) by {
        lemma_section_any_case(x, t);
    }
    assert forall|x: InboxSection| is_ascii_seq(#[trigger] section_name(x)) by {
        lemma_section_any_case(x, section_name(x));
    }
}

/// A path that does not start with `~` is kept as it is.
pub proof fn lemma_expand_keeps_plain_paths(input: Seq<char>, out: Seq<char>)
    requires
        tilde_outcome(input, out),
        input.len() == 0 || input[0] != '~',
    ensures
        out == input,
{
}

} // verus!
