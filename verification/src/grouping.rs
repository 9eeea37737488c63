//! Partition of a directory listing into sample groups: one group for each
//! header file, holding the other entries whose name begins with the prefix
//! that the header file announces.

use vstd::prelude::*;
use crate::naming::{
    extract_prefix, has_prefix, is_header_file, is_header_name, prefix_of, starts_with,
};

verus! {

/// The test that picks the header files out of a listing.
pub open spec fn header_test() -> spec_fn(Seq<char>) -> bool {
    |name: Seq<char>| is_header_name(name)
}

/// The test that picks the data files of the group `prefix`: any entry that
/// is no header file and whose name begins with `prefix`.
pub open spec fn member_test(prefix: Seq<char>) -> spec_fn(Seq<char>) -> bool {
    |name: Seq<char>| !is_header_name(name) && starts_with(name, prefix)
}

/// The header files of a listing, in the order of the listing.
pub open spec fn headers_of(entries: Seq<Seq<char>>) -> Seq<Seq<char>> {
    entries.filter(header_test())
}

/// The prefixes of a listing: one for each header file, in the same order,
/// equal prefixes kept apart.
pub open spec fn prefixes_of(entries: Seq<Seq<char>>) -> Seq<Seq<char>> {
    headers_of(entries).map_values(|name: Seq<char>| prefix_of(name))
}

/// The data files of the group `prefix`, in the order of the listing.
pub open spec fn group_of(entries: Seq<Seq<char>>, prefix: Seq<char>) -> Seq<Seq<char>> {
    entries.filter(member_test(prefix))
}

/// The groups of a listing: one for each prefix, in the order of the prefixes.
pub open spec fn groups_of(entries: Seq<Seq<char>>) -> Seq<Seq<Seq<char>>> {
    prefixes_of(entries).map_values(|prefix: Seq<char>| group_of(entries, prefix))
}

/// Filtering one entry more either appends that entry or changes nothing.
proof fn lemma_filter_step(entries: Seq<Seq<char>>, i: int, test: spec_fn(Seq<char>) -> bool)
    requires
        0 <= i < entries.len(),
    ensures
        entries.take(i + 1).filter(test) == if test(entries[i]) {
            entries.take(i).filter(test).push(entries[i])
        } else {
            entries.take(i).filter(test)
        },
{
    assert(entries.take(i + 1) =~= entries.take(i).push(entries[i]));
    Seq::lemma_filter_push(entries.take(i), entries[i], test);
}

/// The header files among `entries`, in the order of the listing.
pub fn search_header_file(entries: &Vec<String>) -> (r: Vec<String>)
    ensures
        r.deep_view() == headers_of(entries.deep_view()),
{
    let ghost names = entries.deep_view();
    let mut out: Vec<String> = Vec::new();
    let mut i: usize = 0;
    proof {
        reveal(Seq::filter);
        assert(out.deep_view() =~= names.take(0).filter(header_test()));
    }
    while i < entries.len()
        invariant
            i <= entries.len(),
            names == entries.deep_view(),
            out.deep_view() == names.take(i as int).filter(header_test()),
        decreases entries.len() - i,
    {
        let ghost before = out.deep_view();
        proof {
            lemma_filter_step(names, i as int, header_test());
        }
        if is_header_file(entries[i].as_str()) {
            out.push(entries[i].clone());
            assert(out.deep_view() =~= before.push(names[i as int]));
        }
        i += 1;
    }
    assert(names.take(i as int) =~= names);
    out
}

/// The prefixes announced by the header files among `entries`: one for each
/// header file, in the order of the listing.
pub fn get_prefix(entries: &Vec<String>) -> (r: Vec<String>)
    ensures
        r.deep_view() == prefixes_of(entries.deep_view()),
{
    let headers = search_header_file(entries);
    let mut out: Vec<String> = Vec::new();
    let mut i: usize = 0;
    while i < headers.len()
        invariant
            i <= headers.len(),
            out.len() == i,
            forall|k: int| 0 <= k < i ==> out[k]@ == prefix_of(#[trigger] headers[k]@),
        decreases headers.len() - i,
    {
        out.push(extract_prefix(headers[i].as_str()));
        i += 1;
    }
    assert(out.deep_view() =~= headers.deep_view().map_values(|name: Seq<char>| prefix_of(name)));
    out
}

/// The data files of the group `prefix` among `entries`: the entries that
/// are no header file and whose name begins with `prefix`, in the order of
/// the listing.
pub fn search_group(entries: &Vec<String>, prefix: &str) -> (r: Vec<String>)
    ensures
        r.deep_view() == group_of(entries.deep_view(), prefix@),
{
    let ghost names = entries.deep_view();
    let mut out: Vec<String> = Vec::new();
    let mut i: usize = 0;
    proof {
        reveal(Seq::filter);
        assert(out.deep_view() =~= names.take(0).filter(member_test(prefix@)));
    }
    while i < entries.len()
        invariant
            i <= entries.len(),
            names == entries.deep_view(),
            out.deep_view() == names.take(i as int).filter(member_test(prefix@)),
        decreases entries.len() - i,
    {
        let ghost before = out.deep_view();
        proof {
            lemma_filter_step(names, i as int, member_test(prefix@));
        }
        let name = entries[i].as_str();
        if !is_header_file(name) && has_prefix(name, prefix) {
            out.push(entries[i].clone());
            assert(out.deep_view() =~= before.push(names[i as int]));
        }
        i += 1;
    }
    assert(names.take(i as int) =~= names);
    out
}

/// The groups of a listing: for each header file among `entries`, in the
/// order of the listing, the data files of the prefix that it announces.
/// A header file is in no group; an entry is in every group whose prefix its
/// name begins with; a group without data files is empty, not left out.
pub fn search_files_by_prefix(entries: &Vec<String>) -> (r: Vec<Vec<String>>)
    ensures
        r.deep_view() == groups_of(entries.deep_view()),
{
    let prefixes = get_prefix(entries);
    let ghost names = entries.deep_view();
    let mut out: Vec<Vec<String>> = Vec::new();
    let mut i: usize = 0;
    while i < prefixes.len()
        invariant
            i <= prefixes.len(),
            out.len() == i,
            names == entries.deep_view(),
            forall|k: int|
                0 <= k < i ==> (#[trigger] out[k]).deep_view() == group_of(names, prefixes[k]@),
        decreases prefixes.len() - i,
    {
        out.push(search_group(entries, prefixes[i].as_str()));
        i += 1;
    }
    assert(out.deep_view() =~= prefixes.deep_view().map_values(
        |prefix: Seq<char>| group_of(names, prefix),
    ));
    out
}

/// A name passes a filter exactly when it is in the listing and meets the test.
proof fn lemma_filter_membership(
    entries: Seq<Seq<char>>,
    test: spec_fn(Seq<char>) -> bool,
    name: Seq<char>,
)
    ensures
        entries.filter(test).contains(name) <==> entries.contains(name) && test(name),
{
    let kept = entries.filter(test);
    if kept.contains(name) {
        entries.lemma_filter_contains_rev(test, name);
        let i = choose|i: int| 0 <= i < kept.len() && kept[i] == name;
        entries.lemma_filter_pred(test, i);
    }
    if entries.contains(name) && test(name) {
        let i = choose|i: int| 0 <= i < entries.len() && entries[i] == name;
        entries.lemma_filter_contains(test, i);
    }
}

/// A name is among the header files exactly when it is in the listing and
/// ends with the marker.
pub proof fn lemma_header_membership(entries: Seq<Seq<char>>, name: Seq<char>)
    ensures
        headers_of(entries).contains(name) <==> entries.contains(name) && is_header_name(name),
{
    lemma_filter_membership(entries, header_test(), name);
}

/// A name is in the group of a prefix exactly when it is in the listing, is
/// no header file, and begins with the prefix. So a header file is in no
/// group, whatever prefix its name begins with.
pub proof fn lemma_group_membership(entries: Seq<Seq<char>>, prefix: Seq<char>, name: Seq<char>)
    ensures
        group_of(entries, prefix).contains(name) <==> entries.contains(name) && !is_header_name(
            name,
        ) && starts_with(name, prefix),
        is_header_name(name) ==> !group_of(entries, prefix).contains(name),
{
    lemma_filter_membership(entries, member_test(prefix), name);
}

/// Every header file has one prefix and one group, at its own place among
/// the header files: none is merged with another and none is left out.
pub proof fn lemma_one_group_per_header(entries: Seq<Seq<char>>)
    ensures
        prefixes_of(entries).len() == headers_of(entries).len(),
        groups_of(entries).len() == headers_of(entries).len(),
        forall|k: int|
            0 <= k < headers_of(entries).len() ==> {
                &&& #[trigger] prefixes_of(entries)[k] == prefix_of(headers_of(entries)[k])
                &&& #[trigger] groups_of(entries)[k] == group_of(
                    entries,
                    prefix_of(headers_of(entries)[k]),
                )
            },
{
}

/// A listing without header files has no prefixes and no groups. The empty
/// listing is one such.
pub proof fn lemma_no_header_no_group(entries: Seq<Seq<char>>)
    requires
        forall|k: int| 0 <= k < entries.len() ==> !is_header_name(#[trigger] entries[k]),
    ensures
        headers_of(entries) == Seq::<Seq<char>>::empty(),
        prefixes_of(entries) == Seq::<Seq<char>>::empty(),
        groups_of(entries) == Seq::<Seq<Seq<char>>>::empty(),
{
    let headers = headers_of(entries);
    if headers.len() > 0 {
        assert(headers.contains(headers[0]));
        lemma_header_membership(entries, headers[0]);
    }
    assert(headers =~= Seq::<Seq<char>>::empty());
    assert(prefixes_of(entries) =~= Seq::<Seq<char>>::empty());
    assert(groups_of(entries) =~= Seq::<Seq<Seq<char>>>::empty());
}

/// Where no entry but header files begins with a prefix, the group of that
/// prefix is empty.
pub proof fn lemma_group_without_data(entries: Seq<Seq<char>>, prefix: Seq<char>)
    requires
        forall|k: int|
            0 <= k < entries.len() ==> is_header_name(#[trigger] entries[k]) || !starts_with(
                entries[k],
                prefix,
            ),
    ensures
        group_of(entries, prefix) == Seq::<Seq<char>>::empty(),
{
    let group = group_of(entries, prefix);
    if group.len() > 0 {
        assert(group.contains(group[0]));
        lemma_group_membership(entries, prefix, group[0]);
    }
    assert(group =~= Seq::<Seq<char>>::empty());
}

/// The header files, the prefixes and the groups depend on the listing
/// alone: two scans that see the same entries in the same order give the
/// same result.
pub proof fn lemma_grouping_repeatable(first: Seq<Seq<char>>, second: Seq<Seq<char>>)
    requires
        first == second,
    ensures
        headers_of(first) == headers_of(second),
        prefixes_of(first) == prefixes_of(second),
        groups_of(first) == groups_of(second),
{
}

} // verus!
