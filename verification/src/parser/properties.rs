use vstd::prelude::*;
use crate::parser::timestamp::opt_str_view;
use crate::text::{
    chars_eq_ignore_ascii_case, chars_of, eq_ignore_ascii_case, find_lit, find_sub, is_ascii_digit,
    is_char_at, lemma_find_sub, line_spans, lines, push_range, skip_ws, span_seq, spans_ok,
    string_of, trim, trim_string, ws_end, char_at, occurs_at,
};

verus! {

broadcast use vstd::string::group_string_axioms;

/// Key-value pairs with distinct keys, in the order in which the keys were first inserted.
#[derive(Debug, PartialEq, Eq)]
pub struct PropertyMap {
    pub entries: Vec<(String, String)>,
}

pub open spec fn entries_view(e: Seq<(String, String)>) -> Seq<(Seq<char>, Seq<char>)> {
    e.map_values(|p: (String, String)| (p.0@, p.1@))
}

impl View for PropertyMap {
    type V = Seq<(Seq<char>, Seq<char>)>;

    open spec fn view(&self) -> Seq<(Seq<char>, Seq<char>)> {
        entries_view(self.entries@)
    }
}

/// The index of the entry with key `k` at or after `i`.
pub open spec fn key_index(m: Seq<(Seq<char>, Seq<char>)>, k: Seq<char>, i: int) -> Option<int>
    decreases m.len() - i,
{
    if i < 0 || i >= m.len() {
        None
    } else if m[i].0 == k {
        Some(i)
    } else {
        key_index(m, k, i + 1)
    }
}

/// `HashMap::insert`: the value of an existing key is replaced, a new key is added.
pub open spec fn map_insert(m: Seq<(Seq<char>, Seq<char>)>, k: Seq<char>, v: Seq<char>) -> Seq<
    (Seq<char>, Seq<char>),
> {
    match key_index(m, k, 0) {
        Some(i) => m.update(i, (k, v)),
        None => m.push((k, v)),
    }
}

/// The value of key `k`.
pub open spec fn map_get(m: Seq<(Seq<char>, Seq<char>)>, k: Seq<char>) -> Option<Seq<char>> {
    match key_index(m, k, 0) {
        Some(i) => Some(m[i].1),
        None => None,
    }
}

/// No key occurs twice.
pub open spec fn keys_distinct(m: Seq<(Seq<char>, Seq<char>)>) -> bool {
    forall|i: int, j: int| 0 <= i < j < m.len() ==> m[i].0 != m[j].0
}

proof fn lemma_key_index(m: Seq<(Seq<char>, Seq<char>)>, k: Seq<char>, i: int)
    requires
        0 <= i,
    ensures
        key_index(m, k, i) matches Some(j) ==> i <= j < m.len() && m[j].0 == k && forall|l: int|
            i <= l < j ==> m[l].0 != k,
        key_index(m, k, i) is None ==> forall|l: int| i <= l < m.len() ==> m[l].0 != k,
    decreases m.len() - i,
{
    if i < m.len() && m[i].0 != k {
        lemma_key_index(m, k, i + 1);
    }
}

/// Inserting keeps the keys distinct, and afterwards the key has the new value.
pub proof fn lemma_map_insert(m: Seq<(Seq<char>, Seq<char>)>, k: Seq<char>, v: Seq<char>)
    requires
        keys_distinct(m),
    ensures
        keys_distinct(map_insert(m, k, v)),
        map_get(map_insert(m, k, v), k) == Some(v),
        forall|k2: Seq<char>| k2 != k ==> map_get(map_insert(m, k, v), k2) == map_get(m, k2),
{
    lemma_key_index(m, k, 0);
    let r = map_insert(m, k, v);
    lemma_key_index(r, k, 0);
    match key_index(m, k, 0) {
        Some(i) => {
            assert(r[i].0 == k);
            assert(forall|l: int| 0 <= l < i ==> r[l] == m[l]);
            if key_index(r, k, 0) is Some {
                assert(key_index(r, k, 0)->0 == i);
            }
        },
        None => {
            assert(r[m.len() as int].0 == k);
            assert(forall|l: int| 0 <= l < m.len() ==> r[l] == m[l]);
            if key_index(r, k, 0) is Some {
                assert(key_index(r, k, 0)->0 == m.len());
            }
        },
    }
    assert forall|k2: Seq<char>| k2 != k implies map_get(r, k2) == map_get(m, k2) by {
        lemma_key_index(m, k2, 0);
        lemma_key_index(r, k2, 0);
        if key_index(m, k2, 0) is Some {
            let j = key_index(m, k2, 0)->0;
            assert(r[j].0 == k2);
            if key_index(r, k2, 0) is Some {
                let j2 = key_index(r, k2, 0)->0;
                assert(j2 == j);
            }
        } else {
            if key_index(r, k2, 0) is Some {
                let j2 = key_index(r, k2, 0)->0;
                assert(j2 < m.len());
                assert(m[j2].0 == k2);
            }
        }
    }
}

impl PropertyMap {
    pub fn new() -> (r: PropertyMap)
        ensures
            r@ == Seq::<(Seq<char>, Seq<char>)>::empty(),
    {
        let r = PropertyMap { entries: Vec::new() };
        assert(r@ =~= Seq::<(Seq<char>, Seq<char>)>::empty());
        r
    }

    pub fn is_empty(&self) -> (r: bool)
        ensures
            r == (self@.len() == 0),
    {
        self.entries.len() == 0
    }

    pub fn len(&self) -> (r: usize)
        ensures
            r == self@.len(),
    {
        self.entries.len()
    }

    fn index_of(&self, key: &str) -> (r: Option<usize>)
        ensures
            match r {
                Some(i) => key_index(self@, key@, 0) == Some(i as int),
                None => key_index(self@, key@, 0) is None,
            },
    {
        let mut i: usize = 0;
        while i < self.entries.len()
            invariant
                0 <= i <= self@.len(),
                self@.len() == self.entries@.len(),
                key_index(self@, key@, 0) == key_index(self@, key@, i as int),
            decreases self@.len() - i,
        {
            if crate::text::str_eq(self.entries[i].0.as_str(), key) {
                return Some(i);
            }
            i += 1;
        }
        None
    }

    /// The value of `key`.
    pub fn get(&self, key: &str) -> (r: Option<&String>)
        ensures
            match r {
                Some(v) => map_get(self@, key@) == Some(v@),
                None => map_get(self@, key@) is None,
            },
    {
        proof {
            lemma_key_index(self@, key@, 0);
        }
        match self.index_of(key) {
            Some(i) => Some(&self.entries[i].1),
            None => None,
        }
    }

    /// Sets the value of `key` (`HashMap::insert`).
    pub fn insert(&mut self, key: String, value: String)
        ensures
            final(self)@ == map_insert(old(self)@, key@, value@),
    {
        let ghost k = key@;
        let ghost v = value@;
        proof {
            lemma_key_index(self@, key@, 0);
        }
        match self.index_of(key.as_str()) {
            Some(i) => {
                self.entries.set(i, (key, value));
                assert(self@ =~= old(self)@.update(i as int, (k, v)));
            },
            None => {
                self.entries.push((key, value));
                assert(self@ =~= old(self)@.push((k, v)));
            },
        }
    }
}

impl Default for PropertyMap {
    fn default() -> (r: PropertyMap)
        ensures
            r@ == Seq::<(Seq<char>, Seq<char>)>::empty(),
    {
        PropertyMap::new()
    }
}

/// The properties of a headline: `:ID:`, `:STYLE:`, `:LOCATION:` and the others by name.
#[derive(Debug, PartialEq, Eq)]
pub struct Properties {
    pub id: Option<String>,
    pub style: Option<String>,
    pub location: Option<String>,
    pub other: PropertyMap,
}

pub struct PropertiesView {
    pub id: Option<Seq<char>>,
    pub style: Option<Seq<char>>,
    pub location: Option<Seq<char>>,
    pub other: Seq<(Seq<char>, Seq<char>)>,
}

impl View for Properties {
    type V = PropertiesView;

    open spec fn view(&self) -> PropertiesView {
        PropertiesView {
            id: opt_str_view(self.id),
            style: opt_str_view(self.style),
            location: opt_str_view(self.location),
            other: self.other@,
        }
    }
}

pub open spec fn empty_properties() -> PropertiesView {
    PropertiesView { id: None, style: None, location: None, other: seq![] }
}

impl Default for Properties {
    fn default() -> (r: Properties)
        ensures
            r@ == empty_properties(),
    {
        Properties { id: None, style: None, location: None, other: PropertyMap::new() }
    }
}

// ---------------------------------------------------------------------------
// The grammar of property drawers
// ---------------------------------------------------------------------------

/// What `(?s):PROPERTIES:\n(.*?):END:` captures: the text between the first
/// `:PROPERTIES:` line start and the first `:END:` after it.
pub open spec fn drawer_content(s: Seq<char>) -> Option<Seq<char>> {
    let open = ":PROPERTIES:\n"@;
    match find_sub(s, open, 0) {
        None => None,
        Some(p) => match find_sub(s, ":END:"@, p + open.len()) {
            None => None,
            Some(e) => Some(s.subrange(p + open.len(), e)),
        },
    }
}

proof fn lemma_find_sub_in_prefix(a: Seq<char>, b: Seq<char>, p: Seq<char>, i: int)
    requires
        0 <= i,
        find_sub(a, p, i) is Some,
    ensures
        find_sub(a + b, p, i) == find_sub(a, p, i),
    decreases a.len() + 1 - i,
{
    assert(i + p.len() <= a.len());
    assert((a + b).subrange(i, i + p.len()) =~= a.subrange(i, i + p.len()));
    if !occurs_at(a, p, i) {
        lemma_find_sub_in_prefix(a, b, p, i + 1);
    }
}

/// Only the first complete drawer is read: text after it, further drawers among it, never
/// change the properties.
pub proof fn lemma_first_drawer_counts(a: Seq<char>, b: Seq<char>)
    requires
        drawer_content(a) is Some,
    ensures
        parse_properties_spec(a + b) == parse_properties_spec(a),
{
    let open = ":PROPERTIES:\n"@;
    lemma_find_sub_in_prefix(a, b, open, 0);
    let q = find_sub(a, open, 0)->0;
    lemma_find_sub(a, open, 0);
    lemma_find_sub_in_prefix(a, b, ":END:"@, q + open.len());
    let e = find_sub(a, ":END:"@, q + open.len())->0;
    lemma_find_sub(a, ":END:"@, q + open.len());
    assert((a + b).subrange(q + open.len(), e) =~= a.subrange(q + open.len(), e));
}

/// `[A-Za-z_]`
pub open spec fn key_start_char(c: char) -> bool {
    ('A' <= c <= 'Z') || ('a' <= c <= 'z') || c == '_'
}

/// `[A-Za-z0-9_-]`
pub open spec fn key_char(c: char) -> bool {
    key_start_char(c) || is_ascii_digit(c) || c == '-'
}

/// A property key starts with an ASCII letter or `_` and goes on with ASCII letters, digits,
/// `_` and `-`: `:LAST_REPEAT:` and `:last-repeat:` are keys, `:2x:` is not.
pub proof fn lemma_key_chars(c: char)
    ensures
        key_start_char(c) <==> (('A' <= c && c <= 'Z') || ('a' <= c && c <= 'z') || c == '_'),
        key_char(c) <==> (('A' <= c && c <= 'Z') || ('a' <= c && c <= 'z') || ('0' <= c && c
            <= '9') || c == '_' || c == '-'),
{
}

/// The end of the run of key characters that starts at `i`.
pub open spec fn key_end(s: Seq<char>, i: int) -> int
    decreases s.len() - i,
{
    if 0 <= i < s.len() && key_char(s[i]) {
        key_end(s, i + 1)
    } else {
        i
    }
}

/// The bounds of the key that `:([A-Za-z_][A-Za-z0-9_-]*):` matches at `i`.
pub open spec fn property_at(s: Seq<char>, i: int) -> Option<(int, int)> {
    let e = key_end(s, i + 2);
    if char_at(s, i, ':') && 0 <= i + 1 < s.len() && key_start_char(s[i + 1]) && char_at(s, e, ':') {
        Some((i + 1, e))
    } else {
        None
    }
}

/// The leftmost match of the property pattern in `s` at or after `i`.
pub open spec fn first_property(s: Seq<char>, i: int) -> Option<(int, int)>
    decreases s.len() - i,
{
    if i < 0 || i >= s.len() {
        None
    } else {
        match property_at(s, i) {
            Some(m) => Some(m),
            None => first_property(s, i + 1),
        }
    }
}

/// The key and the value that `:([A-Za-z_][A-Za-z0-9_-]*):\s*(.*)` finds in a line, the value
/// trimmed.
pub open spec fn property_line(line: Seq<char>) -> Option<(Seq<char>, Seq<char>)> {
    match first_property(line, 0) {
        None => None,
        Some(m) => Some(
            (
                line.subrange(m.0, m.1),
                trim(line.subrange(ws_end(line, m.1 + 1), line.len() as int)),
            ),
        ),
    }
}

/// Records one property. The key is ASCII, so its upper-case form is `ID`, `STYLE` or
/// `LOCATION` exactly when it equals one of them up to ASCII case.
pub open spec fn apply_property(p: PropertiesView, key: Seq<char>, value: Seq<char>) -> PropertiesView {
    if eq_ignore_ascii_case(key, "ID"@) {
        PropertiesView { id: Some(value), ..p }
    } else if eq_ignore_ascii_case(key, "STYLE"@) {
        PropertiesView { style: Some(value), ..p }
    } else if eq_ignore_ascii_case(key, "LOCATION"@) {
        PropertiesView { location: Some(value), ..p }
    } else {
        PropertiesView { other: map_insert(p.other, key, value), ..p }
    }
}

/// The properties that the first `n` lines of a drawer set, in order.
pub open spec fn properties_of_lines(ls: Seq<Seq<char>>, n: int) -> PropertiesView
    decreases n,
{
    if n <= 0 {
        empty_properties()
    } else {
        let p = properties_of_lines(ls, n - 1);
        match property_line(ls[n - 1]) {
            Some(kv) => apply_property(p, kv.0, kv.1),
            None => p,
        }
    }
}

/// A key that `Properties` keeps in a field of its own: `ID`, `STYLE` or `LOCATION` in any
/// ASCII case.
pub open spec fn reserved_key(k: Seq<char>) -> bool {
    eq_ignore_ascii_case(k, "ID"@) || eq_ignore_ascii_case(k, "STYLE"@) || eq_ignore_ascii_case(
        k,
        "LOCATION"@,
    )
}

/// The other properties of a drawer hold each key once, and none of `ID`, `STYLE` or
/// `LOCATION` in any ASCII case.
pub proof fn lemma_other_keys(ls: Seq<Seq<char>>, n: int)
    ensures
        keys_distinct(properties_of_lines(ls, n).other),
        forall|i: int|
            0 <= i < properties_of_lines(ls, n).other.len() ==> !reserved_key(
                #[trigger] properties_of_lines(ls, n).other[i].0,
            ),
    decreases n,
{
    if n <= 0 {
        assert(keys_distinct(empty_properties().other));
    } else {
        lemma_other_keys(ls, n - 1);
        let p = properties_of_lines(ls, n - 1);
        match property_line(ls[n - 1]) {
            Some(kv) => {
                if !reserved_key(kv.0) {
                    lemma_map_insert(p.other, kv.0, kv.1);
                    lemma_key_index(p.other, kv.0, 0);
                    let r = map_insert(p.other, kv.0, kv.1);
                    assert forall|i: int| 0 <= i < r.len() implies !reserved_key(#[trigger] r[i].0) by {
                        if r[i].0 != kv.0 {
                            assert(r[i] == p.other[i]);
                        }
                    }
                }
            },
            None => {},
        }
    }
}

/// The value of the last of the first `n` drawer lines whose key satisfies `wanted`.
pub open spec fn last_value(ls: Seq<Seq<char>>, n: int, wanted: spec_fn(Seq<char>) -> bool) -> Option<
    Seq<char>,
>
    decreases n,
{
    if n <= 0 {
        None
    } else {
        match property_line(ls[n - 1]) {
            Some(kv) => if wanted(kv.0) {
                Some(kv.1)
            } else {
                last_value(ls, n - 1, wanted)
            },
            None => last_value(ls, n - 1, wanted),
        }
    }
}

/// The lines of the first property drawer of a text; none where it has no complete drawer.
pub open spec fn drawer_lines(s: Seq<char>) -> Seq<Seq<char>> {
    match drawer_content(s) {
        None => seq![],
        Some(d) => lines(d),
    }
}

proof fn lemma_values_of_lines(ls: Seq<Seq<char>>, n: int)
    ensures
        properties_of_lines(ls, n).id == last_value(
            ls,
            n,
            |k: Seq<char>| eq_ignore_ascii_case(k, "ID"@),
        ),
        properties_of_lines(ls, n).style == last_value(
            ls,
            n,
            |k: Seq<char>| eq_ignore_ascii_case(k, "STYLE"@),
        ),
        properties_of_lines(ls, n).location == last_value(
            ls,
            n,
            |k: Seq<char>| eq_ignore_ascii_case(k, "LOCATION"@),
        ),
        forall|k: Seq<char>|
            !reserved_key(k) ==> #[trigger] map_get(properties_of_lines(ls, n).other, k)
                == last_value(ls, n, |k2: Seq<char>| k2 == k),
    decreases n,
{
    reveal_strlit("ID");
    reveal_strlit("STYLE");
    reveal_strlit("LOCATION");
    if n > 0 {
        lemma_values_of_lines(ls, n - 1);
        lemma_other_keys(ls, n - 1);
        let p = properties_of_lines(ls, n - 1);
        if let Some(kv) = property_line(ls[n - 1]) {
            if !reserved_key(kv.0) {
                lemma_map_insert(p.other, kv.0, kv.1);
            }
        }
        assert forall|k: Seq<char>| !reserved_key(k) implies #[trigger] map_get(
            properties_of_lines(ls, n).other,
            k,
        ) == last_value(ls, n, |k2: Seq<char>| k2 == k) by {
            assert(map_get(p.other, k) == last_value(ls, n - 1, |k2: Seq<char>| k2 == k));
        }
    }
}

/// Each property takes the value of the last line of the first drawer that names it: `id`,
/// `style` and `location` that of the last line whose key is `ID`, `STYLE` or `LOCATION` up to
/// ASCII case, and `other` gives each other key (case kept) the value of its last line and
/// holds none of the three reserved keys.
pub proof fn lemma_property_values(s: Seq<char>)
    ensures
        ({
            let ls = drawer_lines(s);
            let n = ls.len() as int;
            let p = parse_properties_spec(s);
            &&& p.id == last_value(ls, n, |k: Seq<char>| eq_ignore_ascii_case(k, "ID"@))
            &&& p.style == last_value(ls, n, |k: Seq<char>| eq_ignore_ascii_case(k, "STYLE"@))
            &&& p.location == last_value(ls, n, |k: Seq<char>| eq_ignore_ascii_case(k, "LOCATION"@))
            &&& forall|k: Seq<char>|
                !reserved_key(k) ==> #[trigger] map_get(p.other, k) == last_value(
                    ls,
                    n,
                    |k2: Seq<char>| k2 == k,
                )
            &&& forall|k: Seq<char>| reserved_key(k) ==> #[trigger] map_get(p.other, k) is None
        }),
{
    let ls = drawer_lines(s);
    let n = ls.len() as int;
    lemma_values_of_lines(ls, n);
    lemma_other_keys(ls, n);
    let p = parse_properties_spec(s);
    assert(p == properties_of_lines(ls, n));
    assert forall|k: Seq<char>| reserved_key(k) implies #[trigger] map_get(p.other, k) is None by {
        lemma_key_index(p.other, k, 0);
        if key_index(p.other, k, 0) is Some {
            let i = key_index(p.other, k, 0)->0;
            assert(!reserved_key(p.other[i].0));
        }
    }
}

/// `Properties::parse`.
pub open spec fn parse_properties_spec(s: Seq<char>) -> PropertiesView {
    match drawer_content(s) {
        None => empty_properties(),
        Some(d) => properties_of_lines(lines(d), lines(d).len() as int),
    }
}

// ---------------------------------------------------------------------------
// Parsing
// ---------------------------------------------------------------------------

fn skip_key(v: &Vec<char>, i: usize) -> (j: usize)
    requires
        i <= v.len(),
    ensures
        j == key_end(v@, i as int),
        i <= j <= v.len(),
{
    let mut k = i;
    while k < v.len() && (('A' <= v[k] && v[k] <= 'Z') || ('a' <= v[k] && v[k] <= 'z') || v[k]
        == '_' || ('0' <= v[k] && v[k] <= '9') || v[k] == '-')
        invariant
            i <= k <= v.len(),
            key_end(v@, i as int) == key_end(v@, k as int),
        decreases v.len() - k,
    {
        k += 1;
    }
    k
}

fn find_property(v: &Vec<char>) -> (r: Option<(usize, usize)>)
    ensures
        match r {
            Some(m) => first_property(v@, 0) == Some((m.0 as int, m.1 as int)) && m.0 <= m.1
                < v.len(),
            None => first_property(v@, 0) is None,
        },
{
    let mut i: usize = 0;
    while i < v.len()
        invariant
            0 <= i <= v.len(),
            first_property(v@, 0) == first_property(v@, i as int),
        decreases v.len() - i,
    {
        if v[i] == ':' && i + 1 < v.len() && (('A' <= v[i + 1] && v[i + 1] <= 'Z') || ('a' <= v[i
            + 1] && v[i + 1] <= 'z') || v[i + 1] == '_') {
            let e = skip_key(v, i + 2);
            if is_char_at(v, e, ':') {
                return Some((i + 1, e));
            }
        }
        i += 1;
    }
    None
}

fn eq_ignore_case_lit(v: &Vec<char>, a: usize, b: usize, lit: &str) -> (r: bool)
    requires
        a <= b <= v.len(),
    ensures
        r == eq_ignore_ascii_case(v@.subrange(a as int, b as int), lit@),
{
    let mut k: Vec<char> = Vec::new();
    push_range(&mut k, v, a, b);
    let l = chars_of(lit);
    chars_eq_ignore_ascii_case(&k, &l)
}

fn apply_line(props: &mut Properties, line: &Vec<char>)
    ensures
        final(props)@ == (match property_line(line@) {
            Some(kv) => apply_property(old(props)@, kv.0, kv.1),
            None => old(props)@,
        }),
{
    match find_property(line) {
        None => {},
        Some((a, b)) => {
            let vs = skip_ws(line, b + 1);
            let value = trim_string(line, vs, line.len());
            if eq_ignore_case_lit(line, a, b, "ID") {
                props.id = Some(value);
            } else if eq_ignore_case_lit(line, a, b, "STYLE") {
                props.style = Some(value);
            } else if eq_ignore_case_lit(line, a, b, "LOCATION") {
                props.location = Some(value);
            } else {
                let key = string_of(line, a, b);
                props.other.insert(key, value);
            }
        },
    }
}

/// `Properties::parse` on the characters of a text.
pub fn parse_properties_chars(v: &Vec<char>) -> (r: Properties)
    ensures
        r@ == parse_properties_spec(v@),
{
    let mut props = Properties::default();
    let open = chars_of(":PROPERTIES:\n");
    let end = chars_of(":END:");
    let p = match find_lit(v, &open, 0) {
        None => {
            return props;
        },
        Some(p) => p,
    };
    proof {
        lemma_find_sub(v@, open@, 0);
        assert(occurs_at(v@, open@, p as int));
        assert(p + open@.len() <= v.len());
    }
    let start = p + open.len();
    let e = match find_lit(v, &end, start) {
        None => {
            return props;
        },
        Some(e) => e,
    };
    proof {
        lemma_find_sub(v@, end@, start as int);
    }
    let mut d: Vec<char> = Vec::new();
    push_range(&mut d, v, start, e);
    let spans = line_spans(&d);
    let ghost ls = lines(d@);
    let mut j: usize = 0;
    while j < spans.len()
        invariant
            0 <= j <= spans@.len(),
            spans_ok(d@, spans@),
            span_seq(d@, spans@) == ls,
            ls == lines(d@),
            props@ == properties_of_lines(ls, j as int),
        decreases spans@.len() - j,
    {
        let (a, b) = spans[j];
        assert(spans@[j as int].0 <= spans@[j as int].1 <= d@.len());
        let mut line: Vec<char> = Vec::new();
        push_range(&mut line, &d, a, b);
        assert(line@ == ls[j as int]);
        apply_line(&mut props, &line);
        j += 1;
    }
    props
}

impl Properties {
    /// The properties in the first property drawer of `text`.
    pub fn parse(text: &str) -> (r: Self)
        ensures
            r@ == parse_properties_spec(text@),
    {
        let v = chars_of(text);
        parse_properties_chars(&v)
    }

    /// `:STYLE: habit`.
    pub fn is_habit(&self) -> (r: bool)
        ensures
            r == (self@.style == Some("habit"@)),
    {
        match &self.style {
            Some(s) => crate::text::str_eq(s.as_str(), "habit"),
            None => false,
        }
    }
}

} // verus!
