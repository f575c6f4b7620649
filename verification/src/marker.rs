//! The test marker and the membership test built on it.

use vstd::prelude::*;

verus! {

/// The marker, as a sequence of characters.
pub open spec fn marker() -> Seq<char> {
    "_dm-rs_test_delme"@
}

/// `needle` stands in `hay` at offset `at`.
pub open spec fn occurs_at(hay: Seq<char>, needle: Seq<char>, at: int) -> bool {
    &&& 0 <= at
    &&& at + needle.len() <= hay.len()
    &&& hay.subrange(at, at + needle.len()) == needle
}

/// `needle` stands somewhere in `hay`.
pub open spec fn occurs_in(hay: Seq<char>, needle: Seq<char>) -> bool {
    exists|at: int| occurs_at(hay, needle, at)
}

/// A name or path is in scope for teardown exactly if it contains the marker.
pub open spec fn is_marked(name: Seq<char>) -> bool {
    occurs_in(name, marker())
}

/// The names of `all` that are in scope, in their order.
pub open spec fn marked_only(all: Seq<Seq<char>>) -> Seq<Seq<char>> {
    all.filter(|name: Seq<char>| is_marked(name))
}

/// What a list of strings holds, as plain character sequences.
pub open spec fn texts(list: Seq<String>) -> Seq<Seq<char>> {
    Seq::new(list.len(), |i: int| list[i]@)
}

/// The string that tags every resource made by a test.
pub fn dm_test_id() -> (id: &'static str)
    ensures
        id@ == marker(),
{
    "_dm-rs_test_delme"
}

/// The characters of `s`, one by one.
pub fn chars_of(s: &str) -> (chars: Vec<char>)
    ensures
        chars@ == s@,
{
    let mut chars: Vec<char> = Vec::new();
    for c in it: s.chars()
        invariant
            it.seq() == s@,
            chars@ == s@.take(it.index() as int),
    {
        chars.push(c);
        proof {
            assert(chars@ =~= s@.take(it.index() + 1));
        }
    }
    proof {
        assert(s@.take(s@.len() as int) =~= s@);
    }
    chars
}

fn matches_at(hay: &Vec<char>, needle: &Vec<char>, at: usize) -> (found: bool)
    requires
        at + needle.len() <= hay.len(),
    ensures
        found == occurs_at(hay@, needle@, at as int),
{
    let mut j: usize = 0;
    while j < needle.len()
        invariant
            j <= needle.len(),
            at + needle.len() <= hay.len(),
            forall|k: int| 0 <= k < j ==> hay@[at + k] == needle@[k],
        decreases needle.len() - j,
    {
        if hay[at + j] != needle[j] {
            proof {
                assert(hay@.subrange(at as int, at + needle.len())[j as int] == hay@[at + j]);
            }
            return false;
        }
        j += 1;
    }
    proof {
        assert(hay@.subrange(at as int, at + needle.len()) =~= needle@);
    }
    true
}

/// Substring search: whether `needle` stands somewhere in `hay`.
pub fn contains(hay: &Vec<char>, needle: &Vec<char>) -> (found: bool)
    ensures
        found == occurs_in(hay@, needle@),
{
    if needle.len() > hay.len() {
        return false;
    }
    let last: usize = hay.len() - needle.len();
    let mut i: usize = 0;
    while i < last
        invariant
            i <= last,
            last == hay.len() - needle.len(),
            forall|at: int| 0 <= at < i ==> !occurs_at(hay@, needle@, at),
        decreases last - i,
    {
        if matches_at(hay, needle, i) {
            return true;
        }
        i += 1;
    }
    matches_at(hay, needle, last)
}

/// Whether `name` contains the marker.
pub fn has_marker(name: &str) -> (marked: bool)
    ensures
        marked == is_marked(name@),
{
    let hay = chars_of(name);
    let needle = chars_of(dm_test_id());
    contains(&hay, &needle)
}

/// Adding one name at the end adds it to the names in scope exactly if it
/// is marked.
pub proof fn lemma_marked_only_push(all: Seq<Seq<char>>, name: Seq<char>)
    ensures
        marked_only(all.push(name)) == if is_marked(name) {
            marked_only(all).push(name)
        } else {
            marked_only(all)
        },
{
    reveal(Seq::filter);
    assert(all.push(name).drop_last() =~= all);
}

/// Every name that `marked_only` keeps is marked, and it keeps no more names
/// than the list holds.
pub proof fn lemma_marked_only_members(all: Seq<Seq<char>>)
    ensures
        forall|i: int|
            0 <= i < marked_only(all).len() ==> is_marked(#[trigger] marked_only(all)[i]),
        marked_only(all).len() <= all.len(),
{
    let pred = |name: Seq<char>| is_marked(name);
    all.lemma_filter_len(pred);
    assert forall|i: int| 0 <= i < marked_only(all).len() implies is_marked(
        #[trigger] marked_only(all)[i],
    ) by {
        all.lemma_filter_pred(pred, i);
    }
}

/// The strings of `names` that contain the marker, in their order.
pub fn select_marked(names: &Vec<String>) -> (chosen: Vec<String>)
    ensures
        texts(chosen@) == marked_only(texts(names@)),
{
    let mut chosen: Vec<String> = Vec::new();
    let n: usize = names.len();
    let mut i: usize = 0;
    proof {
        reveal(Seq::filter);
        assert(texts(names@).subrange(0, 0) =~= Seq::<Seq<char>>::empty());
        assert(texts(chosen@) =~= Seq::<Seq<char>>::empty());
    }
    while i < n
        invariant
            i <= n,
            n == names@.len(),
            texts(chosen@) == marked_only(texts(names@).subrange(0, i as int)),
        decreases n - i,
    {
        proof {
            lemma_marked_only_push(texts(names@).subrange(0, i as int), names@[i as int]@);
            assert(texts(names@).subrange(0, i + 1) =~= texts(names@).subrange(0, i as int).push(
                names@[i as int]@,
            ));
        }
        if has_marker(names[i].as_str()) {
            let ghost before = chosen@;
            chosen.push(names[i].clone());
            proof {
                assert(texts(chosen@) =~= texts(before).push(names@[i as int]@));
            }
        }
        i += 1;
    }
    proof {
        assert(texts(names@).subrange(0, n as int) =~= texts(names@));
    }
    chosen
}

} // verus!
