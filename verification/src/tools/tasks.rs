use vstd::prelude::*;
use vstd::string::StringExecFns;
use crate::models::task::{task_from_headline, Task, TaskView};
use crate::parser::org::{first_where, has_id, lemma_first_where, titled, OrgFile, OrgFileView};
use crate::tools::agenda::file_views;
use crate::tools::elisp::{
    append_text, append_text_spec, entry_spec, entry_text, escape_spec, opt_view, search_and_do,
    search_and_do_spec,
};
use crate::tools::habits::elisp_str;

verus! {

broadcast use vstd::string::group_string_axioms;

/// The form that appends a new TODO entry to `file_path`.
pub open spec fn create_task_spec(
    file_path: Seq<char>,
    title: Seq<char>,
    scheduled: Option<Seq<char>>,
    deadline: Option<Seq<char>>,
    tags: Seq<Seq<char>>,
    body: Option<Seq<char>>,
) -> Seq<char> {
    append_text_spec(file_path, escape_spec(entry_spec("*"@, title, tags, scheduled, deadline, body)))
}

/// The form that appends a new TODO entry to `file_path`.
pub fn create_task_elisp(
    file_path: &str,
    title: &str,
    scheduled: Option<&str>,
    deadline: Option<&str>,
    tags: &Vec<String>,
    body: Option<&str>,
) -> (r: String)
    ensures
        r@ == create_task_spec(
            file_path@,
            title@,
            opt_view(scheduled),
            opt_view(deadline),
            tags@.map_values(|s: String| s@),
            opt_view(body),
        ),
{
    let content = entry_text("*", title, tags, scheduled, deadline, body);
    let e = elisp_str(content.as_str());
    append_text(file_path, e.as_str())
}

/// The search for a headline with one of the keywords `states` and the title `title`.
pub open spec fn task_pattern(states: Seq<char>, title: Seq<char>) -> Seq<char> {
    "\"^\\\\*+ "@ + states + " "@ + escape_spec(title) + "\""@
}

fn task_pattern_of(states: &str, title: &str) -> (r: String)
    ensures
        r@ == task_pattern(states@, title@),
{
    let mut m = "\"^\\\\*+ ".to_owned();
    m.append(states);
    m.append(" ");
    let t = elisp_str(title);
    m.append(t.as_str());
    m.append("\"");
    m
}

/// The keywords of tasks that can be rescheduled.
pub open spec fn open_states() -> Seq<char> {
    "\\\\(TODO\\\\|NEXT\\\\|WAITING\\\\)"@
}

/// All the keywords.
pub open spec fn all_states() -> Seq<char> {
    "\\\\(TODO\\\\|DONE\\\\|NEXT\\\\|WAITING\\\\|CANCELLED\\\\)"@
}

/// The form that marks the task done.
pub fn complete_task_elisp(task: &Task) -> (r: String)
    ensures
        r@ == search_and_do_spec(
            task.file_path@,
            task_pattern("TODO"@, task.title@),
            "(org-todo 'done)"@,
            ""@,
        ),
{
    let p = task_pattern_of("TODO", task.title.as_str());
    search_and_do(task.file_path.as_str(), p.as_str(), "(org-todo 'done)", "")
}

/// The form that schedules the task on `scheduled`.
pub fn update_task_scheduled_elisp(task: &Task, scheduled: &str) -> (r: String)
    ensures
        r@ == search_and_do_spec(
            task.file_path@,
            task_pattern(open_states(), task.title@),
            "(org-schedule nil \"<"@ + scheduled@ + ">\")"@,
            ""@,
        ),
{
    let p = task_pattern_of("\\\\(TODO\\\\|NEXT\\\\|WAITING\\\\)", task.title.as_str());
    let mut a = "(org-schedule nil \"<".to_owned();
    a.append(scheduled);
    a.append(">\")");
    search_and_do(task.file_path.as_str(), p.as_str(), a.as_str(), "")
}

/// The form that sets the deadline of the task to `deadline`.
pub fn update_task_deadline_elisp(task: &Task, deadline: &str) -> (r: String)
    ensures
        r@ == search_and_do_spec(
            task.file_path@,
            task_pattern(open_states(), task.title@),
            "(org-deadline nil \"<"@ + deadline@ + ">\")"@,
            ""@,
        ),
{
    let p = task_pattern_of("\\\\(TODO\\\\|NEXT\\\\|WAITING\\\\)", task.title.as_str());
    let mut a = "(org-deadline nil \"<".to_owned();
    a.append(deadline);
    a.append(">\")");
    search_and_do(task.file_path.as_str(), p.as_str(), a.as_str(), "")
}

/// The refile target: the file, and the heading or `nil`.
pub open spec fn refile_target(target_file: Seq<char>, target_heading: Option<Seq<char>>) -> Seq<
    char,
> {
    match target_heading {
        Some(h) => "'(\""@ + target_file + "\" \""@ + h + "\")"@,
        None => "'(\""@ + target_file + "\" nil)"@,
    }
}

/// The form that moves the task to `target_file`, under `target_heading` where one is given,
/// and saves both files.
pub fn refile_task_elisp(task: &Task, target_file: &str, target_heading: Option<&str>) -> (r:
    String)
    ensures
        r@ == search_and_do_spec(
            task.file_path@,
            task_pattern(all_states(), task.title@),
            "(org-refile nil nil "@ + refile_target(target_file@, opt_view(target_heading)) + ")"@,
            "\n  (with-current-buffer (find-file-noselect \""@ + target_file@
                + "\")\n    (save-buffer))"@,
        ),
{
    let mut target = "'(\"".to_owned();
    target.append(target_file);
    match target_heading {
        Some(h) => {
            target.append("\" \"");
            target.append(h);
            target.append("\")");
        },
        None => {
            target.append("\" nil)");
        },
    }
    let p = task_pattern_of(
        "\\\\(TODO\\\\|DONE\\\\|NEXT\\\\|WAITING\\\\|CANCELLED\\\\)",
        task.title.as_str(),
    );
    let mut a = "(org-refile nil nil ".to_owned();
    a.append(target.as_str());
    a.append(")");
    let mut t = "\n  (with-current-buffer (find-file-noselect \"".to_owned();
    t.append(target_file);
    t.append("\")\n    (save-buffer))");
    search_and_do(task.file_path.as_str(), p.as_str(), a.as_str(), t.as_str())
}

// ---------------------------------------------------------------------------
// Finding tasks
// ---------------------------------------------------------------------------

/// The task of the first headline that satisfies `pred`, searching the files in order.
pub open spec fn find_task_spec(files: Seq<OrgFileView>, pred: spec_fn(
    crate::parser::headline::HeadlineView,
) -> bool) -> Option<TaskView>
    decreases files.len(),
{
    if files.len() == 0 {
        None
    } else {
        match first_where(files[0].headlines, pred, 0) {
            Some(k) => Some(task_from_headline(files[0].headlines[k], files[0].path)),
            None => find_task_spec(files.drop_first(), pred),
        }
    }
}

/// A task found by id has that id, and one found by title has that title up to ASCII case.
pub proof fn lemma_found_task_matches(files: Seq<OrgFileView>, ident: Seq<char>)
    ensures
        find_task_spec(files, has_id(ident)) matches Some(t) ==> t.id == Some(ident),
        find_task_spec(files, titled(ident)) matches Some(t) ==> crate::text::eq_ignore_ascii_case(
            t.title,
            ident,
        ),
    decreases files.len(),
{
    if files.len() > 0 {
        lemma_first_where(files[0].headlines, has_id(ident), 0);
        lemma_first_where(files[0].headlines, titled(ident), 0);
        lemma_found_task_matches(files.drop_first(), ident);
    }
}

/// The task with `:ID:` `task_id`, searching the parsed files in order.
pub fn find_task_by_id(files: &Vec<OrgFile>, task_id: &str) -> (r: Option<Task>)
    ensures
        match find_task_spec(file_views(files@), has_id(task_id@)) {
            Some(t) => r matches Some(x) && x@ == t,
            None => r is None,
        },
{
    let ghost fs = file_views(files@);
    assert(fs.subrange(0, fs.len() as int) =~= fs);
    let mut i: usize = 0;
    while i < files.len()
        invariant
            0 <= i <= files@.len(),
            fs == file_views(files@),
            find_task_spec(fs, has_id(task_id@)) == find_task_spec(
                fs.subrange(i as int, fs.len() as int),
                has_id(task_id@),
            ),
        decreases files@.len() - i,
    {
        let ghost rest = fs.subrange(i as int, fs.len() as int);
        assert(rest.drop_first() =~= fs.subrange(i + 1, fs.len() as int));
        assert(rest[0] == files@[i as int]@);
        let org = &files[i];
        match org.index_of_id(task_id) {
            Some(k) => {
                return Some(Task::from_headline(&org.headlines[k], org.path.as_str()));
            },
            None => {},
        }
        i += 1;
    }
    None
}

/// The task titled `title` (up to ASCII case), searching the parsed files in order.
pub fn find_task_by_title(files: &Vec<OrgFile>, title: &str) -> (r: Option<Task>)
    ensures
        match find_task_spec(file_views(files@), titled(title@)) {
            Some(t) => r matches Some(x) && x@ == t,
            None => r is None,
        },
{
    let ghost fs = file_views(files@);
    assert(fs.subrange(0, fs.len() as int) =~= fs);
    let mut i: usize = 0;
    while i < files.len()
        invariant
            0 <= i <= files@.len(),
            fs == file_views(files@),
            find_task_spec(fs, titled(title@)) == find_task_spec(
                fs.subrange(i as int, fs.len() as int),
                titled(title@),
            ),
        decreases files@.len() - i,
    {
        let ghost rest = fs.subrange(i as int, fs.len() as int);
        assert(rest.drop_first() =~= fs.subrange(i + 1, fs.len() as int));
        assert(rest[0] == files@[i as int]@);
        let org = &files[i];
        match org.index_of_section(title) {
            Some(k) => {
                return Some(Task::from_headline(&org.headlines[k], org.path.as_str()));
            },
            None => {},
        }
        i += 1;
    }
    None
}

/// The task named by `ident`: by `:ID:` first, else by title.
pub fn find_task(files: &Vec<OrgFile>, ident: &str) -> (r: Option<Task>)
    ensures
        match find_task_spec(file_views(files@), has_id(ident@)) {
            Some(t) => r matches Some(x) && x@ == t,
            None => match find_task_spec(file_views(files@), titled(ident@)) {
                Some(t) => r matches Some(x) && x@ == t,
                None => r is None,
            },
        },
{
    match find_task_by_id(files, ident) {
        Some(t) => Some(t),
        None => find_task_by_title(files, ident),
    }
}

} // verus!
