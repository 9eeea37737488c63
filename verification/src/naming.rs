//! The naming convention of a sample directory: which names are header
//! files, which prefix a header file announces, and which names carry a
//! given prefix. Names are compared character by character, case-sensitively.

use vstd::prelude::*;

verus! {

/// The marker that ends the name of every header file.
pub const HEADER_FILE_SUFFIX: &'static str = "_Header.txt";

/// The marker as a sequence of characters.
pub open spec fn header_marker() -> Seq<char> {
    HEADER_FILE_SUFFIX@
}

/// `pat` stands in `s` at position `at`.
pub open spec fn occurs_at(s: Seq<char>, pat: Seq<char>, at: int) -> bool {
    &&& 0 <= at
    &&& at + pat.len() <= s.len()
    &&& s.subrange(at, at + pat.len()) == pat
}

/// `s` begins with `pat`.
pub open spec fn starts_with(s: Seq<char>, pat: Seq<char>) -> bool {
    pat.is_prefix_of(s)
}

/// `s` ends with `pat`.
pub open spec fn ends_with(s: Seq<char>, pat: Seq<char>) -> bool {
    pat.is_suffix_of(s)
}

/// What is left of `s` from position `at` on once every occurrence of `pat`
/// is taken out, scanning from left to right; an occurrence that is taken out
/// is skipped whole, so occurrences never overlap. An empty `pat` takes
/// nothing out.
pub open spec fn remove_from(s: Seq<char>, pat: Seq<char>, at: int) -> Seq<char>
    decreases s.len() - at,
{
    if at < 0 || at >= s.len() {
        Seq::empty()
    } else if pat.len() > 0 && occurs_at(s, pat, at) {
        remove_from(s, pat, at + pat.len())
    } else {
        seq![s[at]] + remove_from(s, pat, at + 1)
    }
}

/// `s` without any occurrence of `pat`.
pub open spec fn remove_all(s: Seq<char>, pat: Seq<char>) -> Seq<char> {
    remove_from(s, pat, 0)
}

/// A name is that of a header file exactly when it ends with the marker.
pub open spec fn is_header_name(name: Seq<char>) -> bool {
    ends_with(name, header_marker())
}

/// The prefix that a header file's name announces: the name with the marker
/// taken out wherever it stands.
pub open spec fn prefix_of(name: Seq<char>) -> Seq<char> {
    remove_all(name, header_marker())
}

/// Tells whether `pat` stands in `s` at character position `at`.
pub fn matches_at(s: &str, pat: &str, at: usize) -> (r: bool)
    ensures
        r == occurs_at(s@, pat@, at as int),
{
    let n: usize = s.unicode_len();
    let m: usize = pat.unicode_len();
    if at > n || m > n - at {
        return false;
    }
    let mut j: usize = 0;
    while j < m
        invariant
            j <= m,
            m == pat@.len(),
            n == s@.len(),
            at + m <= n,
            forall|k: int| 0 <= k < j ==> s@[at + k] == pat@[k],
        decreases m - j,
    {
        if s.get_char(at + j) != pat.get_char(j) {
            assert(s@.subrange(at as int, at + m)[j as int] != pat@[j as int]);
            return false;
        }
        j += 1;
    }
    assert(s@.subrange(at as int, at + m) =~= pat@);
    true
}

/// Tells whether `name` begins with `prefix`.
pub fn has_prefix(name: &str, prefix: &str) -> (r: bool)
    ensures
        r == starts_with(name@, prefix@),
{
    matches_at(name, prefix, 0)
}

/// Tells whether `name` ends with `suffix`.
pub fn has_suffix(name: &str, suffix: &str) -> (r: bool)
    ensures
        r == ends_with(name@, suffix@),
{
    let n: usize = name.unicode_len();
    let m: usize = suffix.unicode_len();
    if m > n {
        return false;
    }
    matches_at(name, suffix, n - m)
}

/// Copies `s` without any occurrence of `pat`.
pub fn strip_all(s: &str, pat: &str) -> (r: String)
    ensures
        r@ == remove_all(s@, pat@),
{
    let n: usize = s.unicode_len();
    let m: usize = pat.unicode_len();
    let mut out = String::new();
    let mut at: usize = 0;
    while at < n
        invariant
            at <= n,
            n == s@.len(),
            m == pat@.len(),
            out@ + remove_from(s@, pat@, at as int) == remove_all(s@, pat@),
        decreases n - at,
    {
        let ghost before = out@;
        if m > 0 && matches_at(s, pat, at) {
            at += m;
        } else {
            out.append(s.substring_char(at, at + 1));
            assert(s@.subrange(at as int, at + 1) =~= seq![s@[at as int]]);
            assert(out@ + remove_from(s@, pat@, at + 1) =~= before + remove_from(
                s@,
                pat@,
                at as int,
            ));
            at += 1;
        }
    }
    assert(out@ + remove_from(s@, pat@, at as int) =~= out@);
    out
}

/// Tells whether `name` is the name of a header file.
pub fn is_header_file(name: &str) -> (r: bool)
    ensures
        r == is_header_name(name@),
{
    has_suffix(name, HEADER_FILE_SUFFIX)
}

/// The prefix announced by the header file called `name`.
pub fn extract_prefix(name: &str) -> (r: String)
    ensures
        r@ == prefix_of(name@),
{
    strip_all(name, HEADER_FILE_SUFFIX)
}

/// In `head + pat`, where `pat` stands nowhere before the end of `head`,
/// what is left from a position inside `head` on is the rest of `head`.
proof fn lemma_remove_tail(head: Seq<char>, pat: Seq<char>, at: int)
    requires
        pat.len() > 0,
        0 <= at <= head.len(),
        forall|k: int| 0 <= k < head.len() ==> !occurs_at(head + pat, pat, k),
    ensures
        remove_from(head + pat, pat, at) == head.skip(at),
    decreases head.len() - at,
{
    let s = head + pat;
    if at == head.len() {
        assert(s.subrange(at, at + pat.len()) =~= pat);
        assert(remove_from(s, pat, at + pat.len()) =~= Seq::<char>::empty());
        assert(head.skip(at) =~= Seq::<char>::empty());
    } else {
        lemma_remove_tail(head, pat, at + 1);
        assert(seq![s[at]] + head.skip(at + 1) =~= head.skip(at));
    }
}

/// A name made of a prefix and the marker is the name of a header file, and
/// the prefix that it announces is that prefix, provided that the marker
/// stands nowhere earlier in the name.
pub proof fn lemma_prefix_of_header_name(prefix: Seq<char>)
    requires
        forall|at: int|
            0 <= at < prefix.len() ==> !occurs_at(prefix + header_marker(), header_marker(), at),
    ensures
        is_header_name(prefix + header_marker()),
        prefix_of(prefix + header_marker()) == prefix,
{
    reveal_strlit("_Header.txt");
    let marker = header_marker();
    let name = prefix + marker;
    assert(name.subrange(name.len() - marker.len(), name.len() as int) =~= marker);
    lemma_remove_tail(prefix, marker, 0);
    assert(prefix.skip(0) =~= prefix);
}

/// In a text where `pat` stands nowhere, what is left from a position on is
/// the text from that position on.
proof fn lemma_remove_nothing(s: Seq<char>, pat: Seq<char>, at: int)
    requires
        0 <= at <= s.len(),
        forall|k: int| 0 <= k < s.len() ==> !occurs_at(s, pat, k),
    ensures
        remove_from(s, pat, at) == s.skip(at),
    decreases s.len() - at,
{
    if at == s.len() {
        assert(s.skip(at) =~= Seq::<char>::empty());
    } else {
        lemma_remove_nothing(s, pat, at + 1);
        assert(seq![s[at]] + s.skip(at + 1) =~= s.skip(at));
    }
}

/// A name in which the marker stands nowhere is its own prefix.
pub proof fn lemma_prefix_of_unmarked_name(name: Seq<char>)
    requires
        forall|at: int| 0 <= at < name.len() ==> !occurs_at(name, header_marker(), at),
    ensures
        prefix_of(name) == name,
{
    lemma_remove_nothing(name, header_marker(), 0);
    assert(name.skip(0) =~= name);
}

} // verus!
