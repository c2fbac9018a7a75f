use vstd::prelude::*;
use vstd::string::StringExecFns;
use crate::classes::{
    is_alphanumeric, is_ascii_alnum, to_lowercase, unicode_alphanumeric, unicode_lower,
};
use crate::text::{ascii_lower_seq, is_ascii_seq};
use crate::text::{chars_of, join_sep, join_strings, replace_char, replace_chars};
use crate::tools::elisp::{escape_newlines_spec, search_and_do, search_and_do_spec};
use crate::tools::habits::{new_uuid, uuid_v4_text};
use crate::roam::models::OrgRoamNode;
use crate::parser::timestamp::opt_str_view;

verus! {

broadcast use vstd::string::group_string_axioms;

/// A character that a node's file name keeps.
pub open spec fn keep_slug_char(c: char) -> bool {
    unicode_alphanumeric(c) || c == '-'
}

/// The file name of a new node: its title in lower case, spaces as `-`, and only letters,
/// digits and `-` kept, then `.org`.
pub open spec fn node_filename_spec(title: Seq<char>) -> Seq<char> {
    replace_char(unicode_lower(title), ' ', "-"@).filter(|c: char| keep_slug_char(c)) + ".org"@
}

/// The file name of a new node with an ASCII title: lower case, spaces as `-`, only ASCII
/// letters, digits and `-` kept, then `.org`.
pub open spec fn ascii_filename_spec(title: Seq<char>) -> Seq<char> {
    replace_char(ascii_lower_seq(title), ' ', "-"@).filter(|c: char| is_ascii_alnum(c) || c == '-')
        + ".org"@
}

proof fn lemma_replace_keeps_ascii(s: Seq<char>, c: char, by: Seq<char>)
    requires
        is_ascii_seq(s),
        is_ascii_seq(by),
    ensures
        is_ascii_seq(replace_char(s, c, by)),
    decreases s.len(),
{
    if s.len() > 0 {
        lemma_replace_keeps_ascii(s.drop_last(), c, by);
        let a = replace_char(s.drop_last(), c, by);
        let b = if s.last() == c {
            by
        } else {
            seq![s.last()]
        };
        assert forall|i: int| 0 <= i < (a + b).len() implies ((#[trigger] (a + b)[i]) as u32) < 128 by {
            if i < a.len() {
                assert((a + b)[i] == a[i]);
            } else {
                assert((a + b)[i] == b[i - a.len()]);
            }
        }
    }
}

/// The file name of a new node titled `title`.
pub fn node_filename(title: &str) -> (r: String)
    ensures
        r@ == node_filename_spec(title@),
        is_ascii_seq(title@) ==> r@ == ascii_filename_spec(title@),
{
    let lower = to_lowercase(title);
    let v = chars_of(lower.as_str());
    let w = replace_chars(&v, ' ', "-");
    proof {
        reveal_strlit("-");
        if is_ascii_seq(title@) {
            assert(is_ascii_seq(ascii_lower_seq(title@)));
            assert(is_ascii_seq("-"@));
            lemma_replace_keeps_ascii(ascii_lower_seq(title@), ' ', "-"@);
        }
    }
    let ghost ascii = is_ascii_seq(title@);
    let ghost pred = |c: char| keep_slug_char(c);
    let ghost apred = |c: char| is_ascii_alnum(c) || c == '-';
    let mut out = String::new();
    let mut i: usize = 0;
    while i < w.len()
        invariant
            0 <= i <= w@.len(),
            pred == (|c: char| keep_slug_char(c)),
            apred == (|c: char| is_ascii_alnum(c) || c == '-'),
            out@ == w@.subrange(0, i as int).filter(pred),
            ascii ==> is_ascii_seq(w@),
            ascii ==> out@ == w@.subrange(0, i as int).filter(apred),
        decreases w@.len() - i,
    {
        assert(w@.subrange(0, i + 1).drop_last() =~= w@.subrange(0, i as int));
        proof {
            reveal(Seq::filter);
        }
        let c = w[i];
        if is_alphanumeric(c) || c == '-' {
            crate::text::push_char(&mut out, c);
        }
        i += 1;
    }
    assert(w@.subrange(0, w@.len() as int) =~= w@);
    out.append(".org");
    out
}

/// Every character of a node's file name before `.org` is a letter, a digit or `-`.
pub proof fn lemma_node_filename_chars(title: Seq<char>)
    ensures
        node_filename_spec(title).len() >= 4,
        forall|i: int|
            0 <= i < node_filename_spec(title).len() - 4 ==> keep_slug_char(
                #[trigger] node_filename_spec(title)[i],
            ),
{
    reveal_strlit(".org");
    let pred = |c: char| keep_slug_char(c);
    let s = replace_char(unicode_lower(title), ' ', "-"@);
    let f = s.filter(pred);
    assert forall|i: int| 0 <= i < node_filename_spec(title).len() - 4 implies keep_slug_char(
        #[trigger] node_filename_spec(title)[i],
    ) by {
        assert(node_filename_spec(title)[i] == f[i]);
        s.lemma_filter_pred(pred, i);
    }
}

/// The `#+filetags:` line of a new node, where it has tags.
pub open spec fn filetags_line(tags: Seq<Seq<char>>) -> Seq<char> {
    if tags.len() == 0 {
        seq![]
    } else {
        "#+filetags: :"@ + join_sep(tags, ":"@) + ": \n"@
    }
}

/// The text of a new node file: the `:ID:` drawer, the title, the tags, the content.
pub open spec fn node_content_spec(
    id: Seq<char>,
    title: Seq<char>,
    tags: Seq<Seq<char>>,
    content: Seq<char>,
) -> Seq<char> {
    ":PROPERTIES:\n:ID:       "@ + id + "\n:END:\n#+title: "@ + title + "\n"@ + filetags_line(tags)
        + "\n"@ + content
}

/// The text of a new node file with the id `id`.
pub fn node_file_content(id: &str, title: &str, tags: &Vec<String>, content: &str) -> (r: String)
    ensures
        r@ == node_content_spec(id@, title@, tags@.map_values(|s: String| s@), content@),
{
    let mut m = ":PROPERTIES:\n:ID:       ".to_owned();
    m.append(id);
    m.append("\n:END:\n#+title: ");
    m.append(title);
    m.append("\n");
    if tags.len() > 0 {
        m.append("#+filetags: :");
        let j = join_strings(tags, ":");
        m.append(j.as_str());
        m.append(": \n");
    }
    m.append("\n");
    m.append(content);
    m
}

/// A new node: a fresh random version-4 UUID as its id, its file name and its file text.
pub fn new_node(title: &str, tags: &Vec<String>, content: &str) -> (r: (String, String, String))
    ensures
        uuid_v4_text(r.0@),
        r.1@ == node_filename_spec(title@),
        r.2@ == node_content_spec(r.0@, title@, tags@.map_values(|s: String| s@), content@),
{
    let id = new_uuid();
    let name = node_filename(title);
    let text = node_file_content(id.as_str(), title, tags, content);
    (id, name, text)
}

/// The form that writes a new node file and syncs the database.
pub open spec fn create_node_spec(file_path: Seq<char>, file_content: Seq<char>) -> Seq<char> {
    "(progn\n  (with-temp-file \""@ + file_path + "\"\n    (insert \""@ + escape_newlines_spec(
        file_content,
    ) + "\"))\n  (org-roam-db-sync))"@
}

pub fn create_node_elisp(file_path: &str, file_content: &str) -> (r: String)
    ensures
        r@ == create_node_spec(file_path@, file_content@),
{
    let mut m = "(progn\n  (with-temp-file \"".to_owned();
    m.append(file_path);
    m.append("\"\n    (insert \"");
    let e = crate::tools::elisp::escape_elisp_newlines(file_content);
    m.append(e.as_str());
    m.append("\"))\n  (org-roam-db-sync))");
    m
}

/// The form that replaces everything after the `#+title:` line of a node file by `content`,
/// saves it and syncs the database.
pub fn update_node_elisp(file: &str, content: &str) -> (r: String)
    ensures
        r@ == search_and_do_spec(
            file@,
            "\"^#\\\\+title:.*$\""@,
            "(forward-line 1)\n    (delete-region (point) (point-max))\n    (insert \"\\n"@
                + escape_newlines_spec(content@) + "\")"@,
            "\n  (org-roam-db-sync)"@,
        ),
{
    let mut a = "(forward-line 1)\n    (delete-region (point) (point-max))\n    (insert \"\\n".to_owned();
    let e = crate::tools::elisp::escape_elisp_newlines(content);
    a.append(e.as_str());
    a.append("\")");
    search_and_do(file, "\"^#\\\\+title:.*$\"", a.as_str(), "\n  (org-roam-db-sync)")
}

/// The form that appends a link to the node `target_id` to the file `file`.
pub open spec fn add_link_spec(file: Seq<char>, target_id: Seq<char>, target_title: Seq<char>) -> Seq<
    char,
> {
    "(with-current-buffer (find-file-noselect \""@ + file
        + "\")\n  (goto-char (point-max))\n  (insert \"\\n[[id:"@ + target_id + "]["@
        + target_title + "]]\")\n  (save-buffer)\n  (org-roam-db-sync))"@
}

pub fn add_link_elisp(file: &str, target_id: &str, target_title: &str) -> (r: String)
    ensures
        r@ == add_link_spec(file@, target_id@, target_title@),
{
    let mut m = "(with-current-buffer (find-file-noselect \"".to_owned();
    m.append(file);
    m.append("\")\n  (goto-char (point-max))\n  (insert \"\\n[[id:");
    m.append(target_id);
    m.append("][");
    m.append(target_title);
    m.append("]]\")\n  (save-buffer)\n  (org-roam-db-sync))");
    m
}

/// The title by which a link names its target: the target's title, or `Untitled`.
pub open spec fn link_title(title: Option<Seq<char>>) -> Seq<char> {
    match title {
        Some(t) => t,
        None => "Untitled"@,
    }
}

/// The form that links `source` to `target` (whose id is `target_id`), and the title that the
/// link shows.
pub fn add_link_form(source: &OrgRoamNode, target: &OrgRoamNode, target_id: &str) -> (r: (
    String,
    String,
))
    ensures
        r.1@ == link_title(opt_str_view(target.title)),
        r.0@ == add_link_spec(source.file@, target_id@, r.1@),
{
    let title = match &target.title {
        Some(t) => t.clone(),
        None => "Untitled".to_owned(),
    };
    let form = add_link_elisp(source.file.as_str(), target_id, title.as_str());
    (form, title)
}

} // verus!

