use vstd::prelude::*;
use vstd::string::StringExecFns;
use crate::parser::timestamp::opt_str_view;
use crate::roam::models::OrgRoamNode;
use crate::text::{chars_of, ends_with, starts_with, string_of};

verus! {

broadcast use vstd::string::group_string_axioms;

/// `s` with every `"` at its start removed.
pub open spec fn trim_start_quotes(s: Seq<char>) -> Seq<char>
    decreases s.len(),
{
    if s.len() > 0 && s[0] == '"' {
        trim_start_quotes(s.drop_first())
    } else {
        s
    }
}

/// `s` with every `"` at its end removed.
pub open spec fn trim_end_quotes(s: Seq<char>) -> Seq<char>
    decreases s.len(),
{
    if s.len() > 0 && s.last() == '"' {
        trim_end_quotes(s.drop_last())
    } else {
        s
    }
}

/// `str::trim_matches('"')`: the quotes at both ends removed.
pub open spec fn trim_quotes(s: Seq<char>) -> Seq<char> {
    trim_end_quotes(trim_start_quotes(s))
}

/// A value as the database stores it, without its quotes.
pub fn clean_string(value: Option<&str>) -> (r: Option<String>)
    ensures
        match value {
            Some(s) => r matches Some(x) && x@ == trim_quotes(s@),
            None => r is None,
        },
{
    match value {
        None => None,
        Some(s) => {
            let v = chars_of(s);
            assert(v@.subrange(0, v@.len() as int) =~= v@);
            let mut a: usize = 0;
            while a < v.len() && v[a] == '"'
                invariant
                    0 <= a <= v@.len(),
                    trim_start_quotes(v@) == trim_start_quotes(v@.subrange(a as int, v@.len() as int)),
                decreases v@.len() - a,
            {
                assert(v@.subrange(a as int, v@.len() as int).drop_first() =~= v@.subrange(
                    a + 1,
                    v@.len() as int,
                ));
                a += 1;
            }
            assert(trim_start_quotes(v@) == v@.subrange(a as int, v@.len() as int));
            let mut b = v.len();
            while b > a && v[b - 1] == '"'
                invariant
                    0 <= a <= b <= v@.len(),
                    trim_quotes(v@) == trim_end_quotes(v@.subrange(a as int, b as int)),
                decreases b - a,
            {
                assert(v@.subrange(a as int, b as int).drop_last() =~= v@.subrange(
                    a as int,
                    b - 1,
                ));
                b -= 1;
            }
            Some(string_of(&v, a, b))
        },
    }
}

/// The id as the database stores it: in double quotes.
pub open spec fn normalize_id_spec(id: Seq<char>) -> Seq<char> {
    if starts_with(id, "\""@) && ends_with(id, "\""@) {
        id
    } else {
        "\""@ + id + "\""@
    }
}

/// The id as the database stores it: in double quotes.
pub fn normalize_id(id: &str) -> (r: String)
    ensures
        r@ == normalize_id_spec(id@),
{
    proof {
        reveal_strlit("\"");
    }
    let v = chars_of(id);
    assert("\""@ =~= seq!['"']);
    let quoted = if v.len() > 0 {
        v[0] == '"' && v[v.len() - 1] == '"'
    } else {
        false
    };
    proof {
        let q = "\""@;
        if id@.len() > 0 {
            reveal_strlit("\"");
            assert(q =~= seq!['"']);
            if id@[0] == '"' {
                assert(id@.subrange(0, 1) =~= q);
            } else {
                assert(id@.subrange(0, 1)[0] != q[0]);
            }
            if id@.last() == '"' {
                assert(id@.subrange(id@.len() - 1, id@.len() as int) =~= q);
            } else {
                assert(id@.subrange(id@.len() - 1, id@.len() as int)[0] != q[0]);
            }
        }
    }
    if quoted {
        id.to_owned()
    } else {
        let mut m = "\"".to_owned();
        m.append(id);
        m.append("\"");
        m
    }
}

/// Quoting an id twice is quoting it once.
pub proof fn lemma_normalize_id_idempotent(id: Seq<char>)
    ensures
        normalize_id_spec(normalize_id_spec(id)) == normalize_id_spec(id),
{
    reveal_strlit("\"");
    let n = normalize_id_spec(id);
    if !(starts_with(id, "\""@) && ends_with(id, "\""@)) {
        assert(n.subrange(0, 1) =~= "\""@);
        assert(n.subrange(n.len() - 1, n.len() as int) =~= "\""@);
    }
}

/// An id that is not already in quotes and the same id put in quotes are looked up by the
/// same stored form.
pub proof fn lemma_normalize_quoted_same(id: Seq<char>)
    requires
        !(starts_with(id, "\""@) && ends_with(id, "\""@)),
    ensures
        normalize_id_spec("\""@ + id + "\""@) == normalize_id_spec(id),
{
    lemma_normalize_id_idempotent(id);
}

/// An id without quotes at its ends comes back from the stored form unchanged.
pub proof fn lemma_clean_normalized_id(id: Seq<char>)
    requires
        id.len() > 0 ==> id[0] != '"' && id.last() != '"',
    ensures
        trim_quotes(normalize_id_spec(id)) == id,
{
    reveal_strlit("\"");
    let q = "\""@;
    assert(q =~= seq!['"']);
    if starts_with(id, q) && ends_with(id, q) {
        assert(id.subrange(0, 1)[0] == id[0]);
    } else {
        let n = q + id + q;
        assert(n.drop_first() =~= id + q);
        if id.len() == 0 {
            assert((id + q).drop_first() =~= Seq::<char>::empty());
            assert(trim_start_quotes(Seq::<char>::empty()) == Seq::<char>::empty());
            assert(trim_start_quotes(id + q) == Seq::<char>::empty());
            assert(trim_end_quotes(Seq::<char>::empty()) == Seq::<char>::empty());
            assert(Seq::<char>::empty() =~= id);
        } else {
            assert((id + q)[0] == id[0]);
            assert(trim_start_quotes(id + q) == id + q);
            assert((id + q).drop_last() =~= id);
            assert(trim_end_quotes(id) == id);
        }
    }
}

/// The columns that a node query reads.
pub open spec fn node_columns() -> Seq<char> {
    "SELECT id, file, level, pos, todo, priority, scheduled, deadline, title, properties, olp FROM nodes"@
}

/// The decimal digits of `n`.
pub open spec fn decimal(n: nat) -> Seq<char>
    decreases n,
{
    if n < 10 {
        seq![digit_char(n)]
    } else {
        decimal(n / 10) + seq![digit_char(n % 10)]
    }
}

pub open spec fn digit_char(d: nat) -> char {
    if d == 0 {
        '0'
    } else if d == 1 {
        '1'
    } else if d == 2 {
        '2'
    } else if d == 3 {
        '3'
    } else if d == 4 {
        '4'
    } else if d == 5 {
        '5'
    } else if d == 6 {
        '6'
    } else if d == 7 {
        '7'
    } else if d == 8 {
        '8'
    } else {
        '9'
    }
}

/// The number that a string of decimal digits denotes, read most significant digit first.
pub open spec fn numeral_value(s: Seq<char>) -> int
    decreases s.len(),
{
    if s.len() == 0 {
        0
    } else {
        10 * numeral_value(s.drop_last()) + (s.last() as int - '0' as int)
    }
}

proof fn lemma_digit_char(d: nat)
    requires
        d < 10,
    ensures
        digit_char(d) as int == '0' as int + d,
{
}

/// `decimal(n)` is the decimal numeral of `n`: ASCII digits only, no leading zero unless `n`
/// is zero, and read back in base ten it is `n`.
pub proof fn lemma_decimal(n: nat)
    ensures
        numeral_value(decimal(n)) == n,
        decimal(n).len() >= 1,
        forall|i: int| 0 <= i < decimal(n).len() ==> '0' <= #[trigger] decimal(n)[i] <= '9',
        decimal(n)[0] == '0' ==> n == 0,
    decreases n,
{
    if n < 10 {
        lemma_digit_char(n);
        assert(decimal(n).drop_last() =~= Seq::<char>::empty());
        assert(numeral_value(Seq::<char>::empty()) == 0);
    } else {
        let q = n / 10;
        let r = n % 10;
        assert(n == 10 * q + r && r < 10 && 0 < q < n) by (nonlinear_arith)
            requires
                n >= 10,
                q == n / 10,
                r == n % 10,
        ;
        lemma_decimal(q);
        lemma_digit_char(r);
        let d = decimal(n);
        assert(d.drop_last() =~= decimal(q));
        assert(d.last() == digit_char(r));
        assert(d[0] == decimal(q)[0]);
        assert(numeral_value(d) == 10 * numeral_value(decimal(q)) + (digit_char(r) as int - '0' as int));
    }
}

fn digit_of(d: usize) -> (c: char)
    requires
        d < 10,
    ensures
        c == digit_char(d as nat),
{
    if d == 0 {
        '0'
    } else if d == 1 {
        '1'
    } else if d == 2 {
        '2'
    } else if d == 3 {
        '3'
    } else if d == 4 {
        '4'
    } else if d == 5 {
        '5'
    } else if d == 6 {
        '6'
    } else if d == 7 {
        '7'
    } else if d == 8 {
        '8'
    } else {
        '9'
    }
}

/// `n` in decimal, as `format!("{}", n)` writes it.
pub fn decimal_string(n: usize) -> (r: String)
    ensures
        r@ == decimal(n as nat),
    decreases n,
{
    if n < 10 {
        let mut s = String::new();
        crate::text::push_char(&mut s, digit_of(n));
        assert(s@ =~= seq![digit_char(n as nat)]);
        s
    } else {
        let mut s = decimal_string(n / 10);
        crate::text::push_char(&mut s, digit_of(n % 10));
        s
    }
}

/// The query of all nodes by title, at most `limit` of them where a limit is given.
pub open spec fn all_nodes_query_spec(limit: Option<usize>) -> Seq<char> {
    match limit {
        Some(l) => node_columns() + " ORDER BY title LIMIT "@ + decimal(l as nat),
        None => node_columns() + " ORDER BY title"@,
    }
}

pub fn all_nodes_query(limit: Option<usize>) -> (r: String)
    ensures
        r@ == all_nodes_query_spec(limit),
{
    let mut q = "SELECT id, file, level, pos, todo, priority, scheduled, deadline, title, properties, olp FROM nodes".to_owned();
    match limit {
        Some(l) => {
            q.append(" ORDER BY title LIMIT ");
            let d = decimal_string(l);
            q.append(d.as_str());
        },
        None => {
            q.append(" ORDER BY title");
        },
    }
    q
}

/// The query of the nodes whose title, an alias or a tag is like the pattern (three times).
pub open spec fn search_nodes_query_spec(limit: Option<usize>) -> Seq<char> {
    let base = "SELECT DISTINCT n.id, n.file, n.level, n.pos, n.todo, n.priority, n.scheduled, n.deadline, n.title, n.properties, n.olp FROM nodes n LEFT JOIN aliases a ON n.id = a.node_id LEFT JOIN tags t ON n.id = t.node_id WHERE n.title LIKE ? OR a.alias LIKE ? OR t.tag LIKE ? ORDER BY n.title"@;
    match limit {
        Some(l) => base + " LIMIT "@ + decimal(l as nat),
        None => base,
    }
}

pub fn search_nodes_query(limit: Option<usize>) -> (r: String)
    ensures
        r@ == search_nodes_query_spec(limit),
{
    let mut q = "SELECT DISTINCT n.id, n.file, n.level, n.pos, n.todo, n.priority, n.scheduled, n.deadline, n.title, n.properties, n.olp FROM nodes n LEFT JOIN aliases a ON n.id = a.node_id LEFT JOIN tags t ON n.id = t.node_id WHERE n.title LIKE ? OR a.alias LIKE ? OR t.tag LIKE ? ORDER BY n.title".to_owned();
    match limit {
        Some(l) => {
            q.append(" LIMIT ");
            let d = decimal_string(l);
            q.append(d.as_str());
        },
        None => {},
    }
    q
}

/// The `LIKE` pattern of a search: the query anywhere.
pub fn search_pattern(query: &str) -> (r: String)
    ensures
        r@ == "%"@ + query@ + "%"@,
{
    let mut m = "%".to_owned();
    m.append(query);
    m.append("%");
    m
}

fn clean_or_empty(value: Option<String>) -> (r: String)
    ensures
        match value {
            Some(s) => r@ == trim_quotes(s@),
            None => r@ == Seq::<char>::empty(),
        },
{
    match value {
        Some(s) => match clean_string(Some(s.as_str())) {
            Some(x) => x,
            None => String::new(),
        },
        None => String::new(),
    }
}

/// The node that a row of a node query describes: id, file and title without their quotes,
/// no tags or aliases yet.
pub fn node_from_row(
    id: Option<String>,
    file: Option<String>,
    level: i32,
    pos: i32,
    todo: Option<String>,
    priority: Option<String>,
    scheduled: Option<String>,
    deadline: Option<String>,
    title: Option<String>,
    properties: Option<String>,
    olp: Option<String>,
) -> (r: OrgRoamNode)
    ensures
        r.id@ == (match id {
            Some(s) => trim_quotes(s@),
            None => Seq::<char>::empty(),
        }),
        r.file@ == (match file {
            Some(s) => trim_quotes(s@),
            None => Seq::<char>::empty(),
        }),
        opt_str_view(r.title) == (match title {
            Some(s) => Some(trim_quotes(s@)),
            None => None,
        }),
        r.level == level,
        r.pos == pos,
        r.todo == todo,
        r.priority == priority,
        r.scheduled == scheduled,
        r.deadline == deadline,
        r.properties == properties,
        r.olp == olp,
        r.tags@.len() == 0,
        r.aliases@.len() == 0,
{
    let title = match title {
        Some(t) => clean_string(Some(t.as_str())),
        None => None,
    };
    OrgRoamNode {
        id: clean_or_empty(id),
        file: clean_or_empty(file),
        level,
        pos,
        todo,
        priority,
        scheduled,
        deadline,
        title,
        properties,
        olp,
        tags: Vec::new(),
        aliases: Vec::new(),
    }
}

} // verus!
