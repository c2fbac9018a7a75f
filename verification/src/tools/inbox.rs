use vstd::prelude::*;
use vstd::string::StringExecFns;
use crate::classes::unicode_lower;
use crate::config::{tilde_outcome, Config};
use crate::models::inbox_item::{
    item_from_headline, section_from_lower, section_name, InboxItem, InboxItemView, InboxSection,
};
use crate::parser::headline::{Headline, HeadlineView};
use crate::parser::org::{
    descendants_spec, first_where, headline_ref_views, titled, OrgFile, OrgFileView,
};
use crate::tools::elisp::{entry_spec, entry_text, escape_spec, opt_view, search_and_do, search_and_do_spec};
use crate::tools::habits::elisp_str;

verus! {

broadcast use vstd::string::group_string_axioms;

/// A headline that the inbox lists: one with a TODO keyword, and open unless done items are
/// asked for.
pub open spec fn keep_item(h: HeadlineView, include_done: bool) -> bool {
    h.todo_state is Some && (include_done || !h.is_done())
}

/// The items of the headlines `hs` under `section`.
pub open spec fn items_of(hs: Seq<HeadlineView>, section: InboxSection, include_done: bool) -> Seq<
    InboxItemView,
>
    decreases hs.len(),
{
    if hs.len() == 0 {
        seq![]
    } else {
        let prev = items_of(hs.drop_last(), section, include_done);
        if keep_item(hs.last(), include_done) {
            prev.push(item_from_headline(hs.last(), section))
        } else {
            prev
        }
    }
}

/// `filter` leaves out `section`.
pub open spec fn filtered_out(filter: Option<InboxSection>, section: InboxSection) -> bool {
    match filter {
        Some(f) => f != section,
        None => false,
    }
}

/// The inbox items of the sections named `names`, in order: for each name that is a section
/// (and the one asked for, if any), the items under the first headline with that title.
pub open spec fn query_inbox_spec(
    org: OrgFileView,
    names: Seq<Seq<char>>,
    filter: Option<InboxSection>,
    include_done: bool,
) -> Seq<InboxItemView>
    decreases names.len(),
{
    if names.len() == 0 {
        seq![]
    } else {
        let prev = query_inbox_spec(org, names.drop_last(), filter, include_done);
        let name = names.last();
        match section_from_lower(unicode_lower(name)) {
            None => prev,
            Some(cur) => if filtered_out(filter, cur) {
                prev
            } else {
                match first_where(org.headlines, titled(name), 0) {
                    None => prev,
                    Some(p) => prev + items_of(
                        descendants_spec(org.headlines, p),
                        cur,
                        include_done,
                    ),
                }
            },
        }
    }
}

pub open spec fn item_views(v: Seq<InboxItem>) -> Seq<InboxItemView> {
    v.map_values(|x: InboxItem| x@)
}

/// The items of the parsed inbox under the sections named `sections`.
pub fn query_inbox(
    org: &OrgFile,
    sections: &Vec<String>,
    section: Option<InboxSection>,
    include_done: bool,
) -> (r: Vec<InboxItem>)
    ensures
        item_views(r@) == query_inbox_spec(
            org@,
            sections@.map_values(|s: String| s@),
            section,
            include_done,
        ),
{
    let ghost names = sections@.map_values(|s: String| s@);
    let mut items: Vec<InboxItem> = Vec::new();
    let mut i: usize = 0;
    while i < sections.len()
        invariant
            0 <= i <= sections@.len(),
            names == sections@.map_values(|s: String| s@),
            item_views(items@) == query_inbox_spec(
                org@,
                names.subrange(0, i as int),
                section,
                include_done,
            ),
        decreases sections@.len() - i,
    {
        assert(names.subrange(0, i + 1).drop_last() =~= names.subrange(0, i as int));
        let name = sections[i].as_str();
        let current = match InboxSection::from_str(name) {
            Some(s) => s,
            None => {
                i += 1;
                continue ;
            },
        };
        let skip = match section {
            Some(f) => f != current,
            None => false,
        };
        if skip {
            i += 1;
            continue ;
        }
        match org.index_of_section(name) {
            Some(p) => {
                let children = org.get_all_descendants(p);
                let ghost hs = headline_ref_views(children@);
                let ghost base = item_views(items@);
                let mut j: usize = 0;
                while j < children.len()
                    invariant
                        0 <= j <= hs.len(),
                        hs == headline_ref_views(children@),
                        item_views(items@) == base + items_of(
                            hs.subrange(0, j as int),
                            current,
                            include_done,
                        ),
                    decreases hs.len() - j,
                {
                    assert(hs.subrange(0, j + 1).drop_last() =~= hs.subrange(0, j as int));
                    let child: &Headline = children[j];
                    let ghost before = item_views(items@);
                    if child.todo_state.is_some() && (include_done || !child.is_done()) {
                        let item = InboxItem::from_headline(child, current);
                        items.push(item);
                        assert(item_views(items@) =~= before.push(item@));
                    }
                    j += 1;
                }
                assert(hs.subrange(0, hs.len() as int) =~= hs);
            },
            None => {},
        }
        i += 1;
    }
    assert(names.subrange(0, names.len() as int) =~= names);
    items
}

/// Every item that the inbox lists has a TODO keyword, is open unless done items were asked
/// for, and lies in the section asked for, if any.
pub proof fn lemma_inbox_items_belong(
    org: OrgFileView,
    names: Seq<Seq<char>>,
    filter: Option<InboxSection>,
    include_done: bool,
)
    ensures
        forall|i: int|
            0 <= i < query_inbox_spec(org, names, filter, include_done).len() ==> {
                let x = #[trigger] query_inbox_spec(org, names, filter, include_done)[i];
                &&& x.state is Some
                &&& (!include_done ==> !x.is_done())
                &&& (filter matches Some(f) ==> x.section == f)
            },
    decreases names.len(),
{
    if names.len() > 0 {
        lemma_inbox_items_belong(org, names.drop_last(), filter, include_done);
        let prev = query_inbox_spec(org, names.drop_last(), filter, include_done);
        let name = names.last();
        match section_from_lower(unicode_lower(name)) {
            None => {},
            Some(cur) => if !filtered_out(filter, cur) {
                match first_where(org.headlines, titled(name), 0) {
                    None => {},
                    Some(p) => {
                        let hs = descendants_spec(org.headlines, p);
                        lemma_items_of(hs, cur, include_done);
                        let all = prev + items_of(hs, cur, include_done);
                        assert forall|i: int| 0 <= i < all.len() implies {
                            let x = #[trigger] all[i];
                            &&& x.state is Some
                            &&& (!include_done ==> !x.is_done())
                            &&& (filter matches Some(f) ==> x.section == f)
                        } by {
                            if i < prev.len() {
                                assert(all[i] == prev[i]);
                            } else {
                                assert(all[i] == items_of(hs, cur, include_done)[i - prev.len()]);
                            }
                        }
                    },
                }
            },
        }
    }
}

proof fn lemma_items_of(hs: Seq<HeadlineView>, section: InboxSection, include_done: bool)
    ensures
        forall|i: int|
            0 <= i < items_of(hs, section, include_done).len() ==> {
                let x = #[trigger] items_of(hs, section, include_done)[i];
                &&& x.state is Some
                &&& (!include_done ==> !x.is_done())
                &&& x.section == section
            },
    decreases hs.len(),
{
    if hs.len() > 0 {
        lemma_items_of(hs.drop_last(), section, include_done);
    }
}

/// A headline with a TODO keyword, open unless done ones are wanted.
pub open spec fn open_task(include_done: bool) -> spec_fn(HeadlineView) -> bool {
    |h: HeadlineView| h.todo_state is Some && (include_done || !h.is_done())
}

/// The items of a section are its headlines that have a TODO keyword, and are open unless done
/// items are asked for, each made an item of the section, in order.
pub proof fn lemma_items_of_filter(hs: Seq<HeadlineView>, section: InboxSection, include_done: bool)
    ensures
        items_of(hs, section, include_done) == hs.filter(open_task(include_done)).map_values(
            |h: HeadlineView| item_from_headline(h, section),
        ),
    decreases hs.len(),
{
    reveal(Seq::filter);
    if hs.len() == 0 {
        assert(hs.filter(open_task(include_done)) =~= Seq::<HeadlineView>::empty());
        assert(hs.filter(open_task(include_done)).map_values(
            |h: HeadlineView| item_from_headline(h, section),
        ) =~= Seq::<InboxItemView>::empty());
    } else {
        lemma_items_of_filter(hs.drop_last(), section, include_done);
        let f = hs.drop_last().filter(open_task(include_done));
        if open_task(include_done)(hs.last()) {
            assert(hs.filter(open_task(include_done)) == f.push(hs.last()));
            assert(f.push(hs.last()).map_values(|h: HeadlineView| item_from_headline(h, section))
                =~= f.map_values(|h: HeadlineView| item_from_headline(h, section)).push(
                item_from_headline(hs.last(), section),
            ));
        }
    }
}

/// Every headline under a listed section's headline that has a TODO keyword and is open (or any
/// such headline, when done items are asked for) is listed as an item of that section, for
/// every section that is listed and not filtered out.
pub proof fn lemma_inbox_complete(
    org: OrgFileView,
    names: Seq<Seq<char>>,
    filter: Option<InboxSection>,
    include_done: bool,
    k: int,
    h: HeadlineView,
)
    requires
        0 <= k < names.len(),
        section_from_lower(unicode_lower(names[k])) is Some,
        !filtered_out(filter, section_from_lower(unicode_lower(names[k]))->0),
        first_where(org.headlines, titled(names[k]), 0) is Some,
        descendants_spec(
            org.headlines,
            first_where(org.headlines, titled(names[k]), 0)->0,
        ).contains(h),
        h.todo_state is Some,
        include_done || !h.is_done(),
    ensures
        query_inbox_spec(org, names, filter, include_done).contains(
            item_from_headline(h, section_from_lower(unicode_lower(names[k]))->0),
        ),
    decreases names.len(),
{
    let q = query_inbox_spec(org, names, filter, include_done);
    let prev = query_inbox_spec(org, names.drop_last(), filter, include_done);
    let cur = section_from_lower(unicode_lower(names[k]))->0;
    let x = item_from_headline(h, cur);
    if k < names.len() - 1 {
        assert(names.drop_last()[k] == names[k]);
        lemma_inbox_complete(org, names.drop_last(), filter, include_done, k, h);
        let i = choose|i: int| 0 <= i < prev.len() && prev[i] == x;
        let name = names.last();
        match section_from_lower(unicode_lower(name)) {
            None => {},
            Some(c2) => if !filtered_out(filter, c2) {
                match first_where(org.headlines, titled(name), 0) {
                    None => {},
                    Some(p) => {
                        let more = items_of(descendants_spec(org.headlines, p), c2, include_done);
                        assert((prev + more)[i] == x);
                    },
                }
            },
        }
        assert(q[i] == x);
    } else {
        let p = first_where(org.headlines, titled(names[k]), 0)->0;
        let hs = descendants_spec(org.headlines, p);
        lemma_items_of_filter(hs, cur, include_done);
        let j = choose|j: int| 0 <= j < hs.len() && hs[j] == h;
        let fl = hs.filter(open_task(include_done));
        assert(open_task(include_done)(hs[j]));
        hs.lemma_filter_contains(open_task(include_done), j);
        assert(fl.contains(h));
        let m = choose|m: int| 0 <= m < fl.len() && fl[m] == h;
        let items = items_of(hs, cur, include_done);
        assert(items[m] == x);
        assert(q == prev + items);
        assert(q[prev.len() + m] == x);
    }
}

pub open spec fn in_section(x: InboxSection) -> spec_fn(InboxItemView) -> bool {
    |i: InboxItemView| i.section == x
}

pub open spec fn not_done() -> spec_fn(InboxItemView) -> bool {
    |i: InboxItemView| !i.is_done()
}

proof fn lemma_items_in_section(hs: Seq<HeadlineView>, sec: InboxSection, d: bool, x: InboxSection)
    ensures
        items_of(hs, sec, d).filter(in_section(x)) == (if sec == x {
            items_of(hs, sec, d)
        } else {
            Seq::<InboxItemView>::empty()
        }),
    decreases hs.len(),
{
    reveal(Seq::filter);
    if hs.len() > 0 {
        lemma_items_in_section(hs.drop_last(), sec, d, x);
        let prev = items_of(hs.drop_last(), sec, d);
        if keep_item(hs.last(), d) {
            let all = prev.push(item_from_headline(hs.last(), sec));
            assert(all.drop_last() =~= prev);
        }
    } else {
        assert(items_of(hs, sec, d).filter(in_section(x)) =~= Seq::<InboxItemView>::empty());
    }
}

proof fn lemma_items_open(hs: Seq<HeadlineView>, sec: InboxSection)
    ensures
        items_of(hs, sec, false) == items_of(hs, sec, true).filter(not_done()),
    decreases hs.len(),
{
    reveal(Seq::filter);
    if hs.len() > 0 {
        lemma_items_open(hs.drop_last(), sec);
        let prev = items_of(hs.drop_last(), sec, true);
        if keep_item(hs.last(), true) {
            let all = prev.push(item_from_headline(hs.last(), sec));
            assert(all.drop_last() =~= prev);
        }
    } else {
        assert(items_of(hs, sec, true).filter(not_done()) =~= Seq::<InboxItemView>::empty());
    }
}

/// Asking for one section gives the items of all sections kept to that section, in order.
pub proof fn lemma_inbox_section_filter(
    org: OrgFileView,
    names: Seq<Seq<char>>,
    x: InboxSection,
    include_done: bool,
)
    ensures
        query_inbox_spec(org, names, Some(x), include_done) == query_inbox_spec(
            org,
            names,
            None,
            include_done,
        ).filter(in_section(x)),
    decreases names.len(),
{
    broadcast use Seq::filter_distributes_over_add;

    reveal(Seq::filter);
    if names.len() == 0 {
        assert(query_inbox_spec(org, names, None, include_done).filter(in_section(x))
            =~= Seq::<InboxItemView>::empty());
    } else {
        lemma_inbox_section_filter(org, names.drop_last(), x, include_done);
        let name = names.last();
        match section_from_lower(unicode_lower(name)) {
            None => {},
            Some(cur) => match first_where(org.headlines, titled(name), 0) {
                None => {},
                Some(p) => {
                    let hs = descendants_spec(org.headlines, p);
                    lemma_items_in_section(hs, cur, include_done, x);
                    if cur != x {
                        let prev = query_inbox_spec(org, names.drop_last(), None, include_done);
                        assert(prev.filter(in_section(x)) + Seq::<InboxItemView>::empty()
                            =~= prev.filter(in_section(x)));
                    }
                },
            },
        }
    }
}

/// Leaving done items out gives the items with done ones kept, less the done ones, in order.
pub proof fn lemma_inbox_open_filter(org: OrgFileView, names: Seq<Seq<char>>, filter: Option<InboxSection>)
    ensures
        query_inbox_spec(org, names, filter, false) == query_inbox_spec(
            org,
            names,
            filter,
            true,
        ).filter(not_done()),
    decreases names.len(),
{
    broadcast use Seq::filter_distributes_over_add;

    reveal(Seq::filter);
    if names.len() == 0 {
        assert(query_inbox_spec(org, names, filter, true).filter(not_done())
            =~= Seq::<InboxItemView>::empty());
    } else {
        lemma_inbox_open_filter(org, names.drop_last(), filter);
        let name = names.last();
        match section_from_lower(unicode_lower(name)) {
            None => {},
            Some(cur) => match first_where(org.headlines, titled(name), 0) {
                None => {},
                Some(p) => {
                    lemma_items_open(descendants_spec(org.headlines, p), cur);
                },
            },
        }
    }
}

/// The form that files a new TODO entry at the end of the inbox section `section`.
pub open spec fn add_to_inbox_spec(
    inbox_file: Seq<char>,
    title: Seq<char>,
    section: InboxSection,
    body: Option<Seq<char>>,
    scheduled: Option<Seq<char>>,
    deadline: Option<Seq<char>>,
    tags: Seq<Seq<char>>,
) -> Seq<char> {
    search_and_do_spec(
        inbox_file,
        "\"^\\\\* "@ + section_name(section) + "\\\\b\""@,
        "(org-end-of-subtree t t)\n    (insert \"\\n"@ + escape_spec(
            entry_spec("**"@, title, tags, scheduled, deadline, body),
        ) + "\\n\")"@,
        ""@,
    )
}

/// The form that files a new TODO entry at the end of the section `section` of `inbox_file`.
pub fn add_to_inbox_elisp_for(
    inbox_file: &str,
    title: &str,
    section: InboxSection,
    body: Option<&str>,
    scheduled: Option<&str>,
    deadline: Option<&str>,
    tags: &Vec<String>,
) -> (r: String)
    ensures
        r@ == add_to_inbox_spec(
            inbox_file@,
            title@,
            section,
            opt_view(body),
            opt_view(scheduled),
            opt_view(deadline),
            tags@.map_values(|s: String| s@),
        ),
{
    let content = entry_text("**", title, tags, scheduled, deadline, body);
    let mut p = "\"^\\\\* ".to_owned();
    p.append(section.as_str());
    p.append("\\\\b\"");
    let mut a = "(org-end-of-subtree t t)\n    (insert \"\\n".to_owned();
    let e = elisp_str(content.as_str());
    a.append(e.as_str());
    a.append("\\n\")");
    search_and_do(inbox_file, p.as_str(), a.as_str(), "")
}

/// The form that files a new TODO entry in the configured inbox.
pub fn add_to_inbox_elisp(
    config: &Config,
    title: &str,
    section: InboxSection,
    body: Option<&str>,
    scheduled: Option<&str>,
    deadline: Option<&str>,
    tags: &Vec<String>,
) -> (r: String)
    ensures
        exists|f: Seq<char>|
            tilde_outcome(config.inbox.file@, f) && r@ == add_to_inbox_spec(
                f,
                title@,
                section,
                opt_view(body),
                opt_view(scheduled),
                opt_view(deadline),
                tags@.map_values(|s: String| s@),
            ),
{
    let f = config.inbox_file();
    add_to_inbox_elisp_for(f.as_str(), title, section, body, scheduled, deadline, tags)
}

} // verus!
