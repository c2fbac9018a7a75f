use vstd::prelude::*;
use vstd::string::StringExecFns;
use crate::text::{chars_of, join_sep, join_strings, replace_char, replace_chars, string_of_all};

verus! {

broadcast use vstd::string::group_string_axioms;

/// What `s.replace('\\', "\\\\").replace('"', "\\\"")` gives: the text as the inside of an
/// elisp string literal.
pub open spec fn escape_spec(s: Seq<char>) -> Seq<char> {
    replace_char(replace_char(s, '\\', "\\\\"@), '"', "\\\""@)
}

/// `escape_spec` followed by `.replace('\n', "\\n")`: the text on one line.
pub open spec fn escape_newlines_spec(s: Seq<char>) -> Seq<char> {
    replace_char(escape_spec(s), '\n', "\\n"@)
}

/// How the elisp reader takes the inside of a string literal: a `\` takes the character after
/// it as it is, except that `\n` is a newline.
pub open spec fn unescape(s: Seq<char>) -> Seq<char>
    decreases s.len(),
{
    if s.len() == 0 {
        seq![]
    } else if s[0] == '\\' && s.len() >= 2 {
        (if s[1] == 'n' {
            seq!['\n']
        } else {
            seq![s[1]]
        }) + unescape(s.subrange(2, s.len() as int))
    } else {
        seq![s[0]] + unescape(s.drop_first())
    }
}

pub proof fn lemma_replace_concat(a: Seq<char>, b: Seq<char>, c: char, by: Seq<char>)
    ensures
        replace_char(a + b, c, by) == replace_char(a, c, by) + replace_char(b, c, by),
    decreases b.len(),
{
    if b.len() == 0 {
        assert(a + b =~= a);
        assert(replace_char(a, c, by) + replace_char(b, c, by) =~= replace_char(a, c, by));
    } else {
        assert((a + b).drop_last() =~= a + b.drop_last());
        assert((a + b).last() == b.last());
        lemma_replace_concat(a, b.drop_last(), c, by);
        assert(replace_char(a + b, c, by) =~= replace_char(a, c, by) + replace_char(b, c, by));
    }
}

proof fn lemma_replace_single(x: char, c: char, by: Seq<char>)
    ensures
        replace_char(seq![x], c, by) == (if x == c {
            by
        } else {
            seq![x]
        }),
{
    assert(seq![x].drop_last() =~= Seq::<char>::empty());
    assert(replace_char(Seq::<char>::empty(), c, by) =~= Seq::<char>::empty());
    assert(replace_char(seq![x], c, by) =~= (if x == c {
        by
    } else {
        seq![x]
    }));
}

/// The escaped form of one character.
pub open spec fn escape_char(x: char) -> Seq<char> {
    if x == '\\' {
        seq!['\\', '\\']
    } else if x == '"' {
        seq!['\\', '"']
    } else {
        seq![x]
    }
}

proof fn lemma_escape_prepend(x: char, t: Seq<char>)
    ensures
        escape_spec(seq![x] + t) == escape_char(x) + escape_spec(t),
{
    reveal_strlit("\\\\");
    reveal_strlit("\\\"");
    lemma_replace_concat(seq![x], t, '\\', "\\\\"@);
    lemma_replace_single(x, '\\', "\\\\"@);
    let r1 = replace_char(seq![x], '\\', "\\\\"@);
    lemma_replace_concat(r1, replace_char(t, '\\', "\\\\"@), '"', "\\\""@);
    if x == '\\' {
        assert(r1 =~= seq!['\\'] + seq!['\\']);
        lemma_replace_concat(seq!['\\'], seq!['\\'], '"', "\\\""@);
        lemma_replace_single('\\', '"', "\\\""@);
        assert(replace_char(r1, '"', "\\\""@) =~= seq!['\\', '\\']);
    } else {
        lemma_replace_single(x, '"', "\\\""@);
        assert(replace_char(r1, '"', "\\\""@) =~= escape_char(x));
    }
}

proof fn lemma_escape_newlines_prepend(x: char, t: Seq<char>)
    ensures
        escape_newlines_spec(seq![x] + t) == replace_char(escape_char(x), '\n', "\\n"@)
            + escape_newlines_spec(t),
{
    lemma_escape_prepend(x, t);
    lemma_replace_concat(escape_char(x), escape_spec(t), '\n', "\\n"@);
}

/// Reading back an escaped text gives the text.
pub proof fn lemma_unescape_escape(s: Seq<char>)
    ensures
        unescape(escape_spec(s)) == s,
    decreases s.len(),
{
    if s.len() == 0 {
        assert(replace_char(s, '\\', "\\\\"@) =~= Seq::<char>::empty());
        assert(escape_spec(s) =~= Seq::<char>::empty());
    } else {
        let x = s[0];
        let t = s.drop_first();
        assert(s =~= seq![x] + t);
        lemma_escape_prepend(x, t);
        lemma_unescape_escape(t);
        let e = escape_char(x) + escape_spec(t);
        if x == '\\' || x == '"' {
            assert(e.subrange(2, e.len() as int) =~= escape_spec(t));
        } else {
            assert(e.drop_first() =~= escape_spec(t));
        }
        assert(unescape(e) =~= seq![x] + t);
    }
}

/// Reading from left to right, each `\` and the character after it give that character.
pub open spec fn unescape_pairs(s: Seq<char>) -> Seq<char>
    decreases s.len(),
{
    if s.len() == 0 {
        seq![]
    } else if s[0] == '\\' && s.len() >= 2 {
        seq![s[1]] + unescape_pairs(s.subrange(2, s.len() as int))
    } else {
        seq![s[0]] + unescape_pairs(s.drop_first())
    }
}

/// Reading the escaped text pair by pair, each `\` with the character after it, gives the
/// text back.
pub proof fn lemma_unescape_pairs_escape(s: Seq<char>)
    ensures
        unescape_pairs(escape_spec(s)) == s,
    decreases s.len(),
{
    if s.len() == 0 {
        assert(replace_char(s, '\\', "\\\\"@) =~= Seq::<char>::empty());
        assert(escape_spec(s) =~= Seq::<char>::empty());
    } else {
        let x = s[0];
        let t = s.drop_first();
        assert(s =~= seq![x] + t);
        lemma_escape_prepend(x, t);
        lemma_unescape_pairs_escape(t);
        let e = escape_char(x) + escape_spec(t);
        if x == '\\' || x == '"' {
            assert(e.subrange(2, e.len() as int) =~= escape_spec(t));
        } else {
            assert(e.drop_first() =~= escape_spec(t));
        }
        assert(unescape_pairs(e) =~= seq![x] + t);
    }
}

/// The number of `\` and `"` characters in `s`.
pub open spec fn special_count(s: Seq<char>) -> nat
    decreases s.len(),
{
    if s.len() == 0 {
        0
    } else {
        (if s[0] == '\\' || s[0] == '"' {
            1nat
        } else {
            0nat
        }) + special_count(s.drop_first())
    }
}

/// The text reads, from the left, as single characters other than `\` and `"`, and as pairs
/// that begin with `\`.
pub open spec fn escaped_form(e: Seq<char>) -> bool
    decreases e.len(),
{
    if e.len() == 0 {
        true
    } else if e[0] == '\\' {
        e.len() >= 2 && escaped_form(e.subrange(2, e.len() as int))
    } else {
        e[0] != '"' && escaped_form(e.drop_first())
    }
}

/// The number of `\` characters right before index `i`.
pub open spec fn backslashes_before(e: Seq<char>, i: int) -> nat
    decreases i,
{
    if i > 0 && e[i - 1] == '\\' {
        1 + backslashes_before(e, i - 1)
    } else {
        0
    }
}

/// The escaped text is one character longer for each `\` and `"`, reads as plain characters
/// and `\`-pairs, and so each `"` in it comes after an odd run of `\`: none of them ends an
/// elisp string.
pub proof fn lemma_escape_shape(s: Seq<char>)
    ensures
        escape_spec(s).len() == s.len() + special_count(s),
        escaped_form(escape_spec(s)),
        forall|i: int|
            0 <= i < escape_spec(s).len() && escape_spec(s)[i] == '"' ==> #[trigger] backslashes_before(
                escape_spec(s),
                i,
            ) % 2 == 1,
{
    lemma_escape_form(s);
    lemma_escaped_form_quotes(escape_spec(s));
}

proof fn lemma_escape_form(s: Seq<char>)
    ensures
        escape_spec(s).len() == s.len() + special_count(s),
        escaped_form(escape_spec(s)),
    decreases s.len(),
{
    if s.len() == 0 {
        assert(replace_char(s, '\\', "\\\\"@) =~= Seq::<char>::empty());
        assert(escape_spec(s) =~= Seq::<char>::empty());
    } else {
        let x = s[0];
        let t = s.drop_first();
        assert(s =~= seq![x] + t);
        lemma_escape_prepend(x, t);
        lemma_escape_form(t);
        let e = escape_char(x) + escape_spec(t);
        if x == '\\' || x == '"' {
            assert(e.subrange(2, e.len() as int) =~= escape_spec(t));
        } else {
            assert(e.drop_first() =~= escape_spec(t));
        }
    }
}

proof fn lemma_backslashes_prefix(p: Seq<char>, r: Seq<char>, k: int)
    requires
        0 <= k <= p.len(),
    ensures
        backslashes_before(p + r, k) == backslashes_before(p, k),
    decreases k,
{
    if k > 0 {
        lemma_backslashes_prefix(p, r, k - 1);
    }
}

proof fn lemma_backslashes_concat(p: Seq<char>, r: Seq<char>, j: int)
    requires
        0 <= j <= r.len(),
    ensures
        backslashes_before(p + r, p.len() + j) == (if backslashes_before(r, j) == j {
            j + backslashes_before(p, p.len() as int)
        } else {
            backslashes_before(r, j) as int
        }),
    decreases j,
{
    if j == 0 {
        lemma_backslashes_prefix(p, r, p.len() as int);
    } else {
        lemma_backslashes_concat(p, r, j - 1);
        assert((p + r)[p.len() + j - 1] == r[j - 1]);
    }
}

proof fn lemma_escaped_form_quotes(e: Seq<char>)
    requires
        escaped_form(e),
    ensures
        forall|i: int|
            0 <= i < e.len() && e[i] == '"' ==> #[trigger] backslashes_before(e, i) % 2 == 1,
    decreases e.len(),
{
    if e.len() > 0 {
        let k: int = if e[0] == '\\' {
            2
        } else {
            1
        };
        let p = e.subrange(0, k);
        let r = e.subrange(k, e.len() as int);
        assert(e =~= p + r);
        if k == 1 {
            assert(r =~= e.drop_first());
        }
        lemma_escaped_form_quotes(r);
        assert(backslashes_before(p, k) % 2 == 0) by {
            if k == 2 {
                assert(backslashes_before(p, 0) == 0);
                if p[1] == '\\' {
                    assert(backslashes_before(p, 1) == 1);
                }
            } else {
                assert(backslashes_before(p, 0) == 0);
            }
        }
        assert forall|i: int|
            0 <= i < e.len() && e[i] == '"' implies #[trigger] backslashes_before(e, i) % 2 == 1 by {
            if i < k {
                assert(k == 2 && i == 1);
                assert(backslashes_before(e, 0) == 0);
            } else {
                lemma_backslashes_concat(p, r, i - k);
                assert(r[i - k] == e[i]);
            }
        }
    }
}

/// Reading back a text escaped onto one line gives the text.
pub proof fn lemma_unescape_escape_newlines(s: Seq<char>)
    ensures
        unescape(escape_newlines_spec(s)) == s,
    decreases s.len(),
{
    reveal_strlit("\\n");
    if s.len() == 0 {
        assert(replace_char(s, '\\', "\\\\"@) =~= Seq::<char>::empty());
        assert(escape_spec(s) =~= Seq::<char>::empty());
        assert(escape_newlines_spec(s) =~= Seq::<char>::empty());
    } else {
        let x = s[0];
        let t = s.drop_first();
        assert(s =~= seq![x] + t);
        lemma_escape_newlines_prepend(x, t);
        lemma_unescape_escape_newlines(t);
        let p = replace_char(escape_char(x), '\n', "\\n"@);
        if x == '\\' {
            assert(escape_char(x) =~= seq!['\\'] + seq!['\\']);
            lemma_replace_concat(seq!['\\'], seq!['\\'], '\n', "\\n"@);
            lemma_replace_single('\\', '\n', "\\n"@);
            assert(p =~= seq!['\\', '\\']);
        } else if x == '"' {
            assert(escape_char(x) =~= seq!['\\'] + seq!['"']);
            lemma_replace_concat(seq!['\\'], seq!['"'], '\n', "\\n"@);
            lemma_replace_single('\\', '\n', "\\n"@);
            lemma_replace_single('"', '\n', "\\n"@);
            assert(p =~= seq!['\\', '"']);
        } else if x == '\n' {
            lemma_replace_single(x, '\n', "\\n"@);
            assert(p =~= seq!['\\', 'n']);
        } else {
            lemma_replace_single(x, '\n', "\\n"@);
            assert(p =~= seq![x]);
        }
        let e = p + escape_newlines_spec(t);
        if x == '\\' || x == '"' || x == '\n' {
            assert(e.subrange(2, e.len() as int) =~= escape_newlines_spec(t));
        } else {
            assert(e.drop_first() =~= escape_newlines_spec(t));
        }
        assert(unescape(e) =~= seq![x] + t);
    }
}

/// The text as the inside of an elisp string literal, on one line.
pub fn escape_elisp_newlines(s: &str) -> (r: String)
    ensures
        r@ == escape_newlines_spec(s@),
{
    let v = chars_of(s);
    let a = replace_chars(&v, '\\', "\\\\");
    let b = replace_chars(&a, '"', "\\\"");
    let c = replace_chars(&b, '\n', "\\n");
    string_of_all(&c)
}

// ---------------------------------------------------------------------------
// Forms sent to Emacs
// ---------------------------------------------------------------------------

/// Visit `file`, find the first match of `pattern` from the top, do `action` there, save, then
/// run `tail`.
pub open spec fn search_and_do_spec(
    file: Seq<char>,
    pattern: Seq<char>,
    action: Seq<char>,
    tail: Seq<char>,
) -> Seq<char> {
    "(with-current-buffer (find-file-noselect \""@ + file + "\")\n  (goto-char (point-min))\n  (when (re-search-forward "@
        + pattern + " nil t)\n    "@ + action + ")\n  (save-buffer)"@ + tail + ")"@
}

pub fn search_and_do(file: &str, pattern: &str, action: &str, tail: &str) -> (r: String)
    ensures
        r@ == search_and_do_spec(file@, pattern@, action@, tail@),
{
    let mut m = "(with-current-buffer (find-file-noselect \"".to_owned();
    m.append(file);
    m.append("\")\n  (goto-char (point-min))\n  (when (re-search-forward ");
    m.append(pattern);
    m.append(" nil t)\n    ");
    m.append(action);
    m.append(")\n  (save-buffer)");
    m.append(tail);
    m.append(")");
    m
}

/// Visit `file`, insert `text` (already escaped) on a line of its own at the end, and save.
pub open spec fn append_text_spec(file: Seq<char>, text: Seq<char>) -> Seq<char> {
    "(with-current-buffer (find-file-noselect \""@ + file + "\")\n  (goto-char (point-max))\n  (insert \"\\n"@
        + text + "\\n\")\n  (save-buffer))"@
}

pub fn append_text(file: &str, text: &str) -> (r: String)
    ensures
        r@ == append_text_spec(file@, text@),
{
    let mut m = "(with-current-buffer (find-file-noselect \"".to_owned();
    m.append(file);
    m.append("\")\n  (goto-char (point-max))\n  (insert \"\\n");
    m.append(text);
    m.append("\\n\")\n  (save-buffer))");
    m
}

// ---------------------------------------------------------------------------
// New entries
// ---------------------------------------------------------------------------

/// ` :a:b:` for the tags `a`, `b`; nothing without tags.
pub open spec fn tags_suffix(tags: Seq<Seq<char>>) -> Seq<char> {
    if tags.len() == 0 {
        seq![]
    } else {
        " :"@ + join_sep(tags, ":"@) + ":"@
    }
}

pub fn tags_suffix_of(tags: &Vec<String>) -> (r: String)
    ensures
        r@ == tags_suffix(tags@.map_values(|s: String| s@)),
{
    if tags.len() == 0 {
        return String::new();
    }
    let mut m = " :".to_owned();
    let j = join_strings(tags, ":");
    m.append(j.as_str());
    m.append(":");
    m
}

pub open spec fn opt_view(v: Option<&str>) -> Option<Seq<char>> {
    match v {
        Some(s) => Some(s@),
        None => None,
    }
}

/// A line `prefix VALUE suffix` after what comes before, where there is a value.
pub open spec fn opt_line(prefix: Seq<char>, v: Option<Seq<char>>, suffix: Seq<char>) -> Seq<char> {
    match v {
        Some(x) => "\n"@ + prefix + x + suffix,
        None => seq![],
    }
}

/// The text of a new TODO entry: the headline at the depth of `stars`, then the `SCHEDULED`
/// line, the `DEADLINE` line and the body, each where given.
pub open spec fn entry_spec(
    stars: Seq<char>,
    title: Seq<char>,
    tags: Seq<Seq<char>>,
    scheduled: Option<Seq<char>>,
    deadline: Option<Seq<char>>,
    body: Option<Seq<char>>,
) -> Seq<char> {
    stars + " TODO "@ + title + tags_suffix(tags) + opt_line("SCHEDULED: <"@, scheduled, ">"@)
        + opt_line("DEADLINE: <"@, deadline, ">"@) + opt_line(""@, body, ""@)
}

fn push_opt_line(m: &mut String, prefix: &str, v: Option<&str>, suffix: &str)
    ensures
        final(m)@ == old(m)@ + opt_line(prefix@, opt_view(v), suffix@),
{
    match v {
        Some(x) => {
            m.append("\n");
            m.append(prefix);
            m.append(x);
            m.append(suffix);
        },
        None => {
            assert(old(m)@ + opt_line(prefix@, opt_view(v), suffix@) =~= old(m)@);
        },
    }
}

pub fn entry_text(
    stars: &str,
    title: &str,
    tags: &Vec<String>,
    scheduled: Option<&str>,
    deadline: Option<&str>,
    body: Option<&str>,
) -> (r: String)
    ensures
        r@ == entry_spec(
            stars@,
            title@,
            tags@.map_values(|s: String| s@),
            opt_view(scheduled),
            opt_view(deadline),
            opt_view(body),
        ),
{
    let mut m = stars.to_owned();
    m.append(" TODO ");
    m.append(title);
    let t = tags_suffix_of(tags);
    m.append(t.as_str());
    push_opt_line(&mut m, "SCHEDULED: <", scheduled, ">");
    push_opt_line(&mut m, "DEADLINE: <", deadline, ">");
    push_opt_line(&mut m, "", body, "");
    m
}

} // verus!
