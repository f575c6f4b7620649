//! The mount points of a mount table, as the `libmount` parser reads them.

use vstd::prelude::*;
use crate::marker::{marked_only, select_marked, texts};

verus! {

/// What `libmount::mountinfo::Parser` yields for a mount table, entry by
/// entry: the mount point where the line parses and the path is UTF-8, and
/// `None` where it does not.
pub uninterp spec fn mountinfo_entries(data: Seq<u8>) -> Seq<Option<Seq<char>>>;

/// A list of parsed entries over plain values.
pub open spec fn entry_texts(entries: Seq<Option<String>>) -> Seq<Option<Seq<char>>> {
    Seq::new(
        entries.len(),
        |i: int|
            match entries[i] {
                Some(point) => Some(point@),
                None => None,
            },
    )
}

/// The entries that are there, in their order.
pub open spec fn present(entries: Seq<Option<Seq<char>>>) -> Seq<Seq<char>>
    decreases entries.len(),
{
    if entries.len() == 0 {
        Seq::empty()
    } else {
        match entries.last() {
            Some(point) => present(entries.drop_last()).push(point),
            None => present(entries.drop_last()),
        }
    }
}

/// The mount points of a mount table that are to be detached, in the order
/// of the table.
pub open spec fn marked_mount_points(data: Seq<u8>) -> Seq<Seq<char>> {
    marked_only(present(mountinfo_entries(data)))
}

/// Runs `libmount::mountinfo::Parser` over `data` to its end. The parser
/// yields one item for each line that is neither empty nor a comment; the
/// result holds, for each item in order, the unescaped mount point, or
/// `None` where the line did not parse or the mount point is not UTF-8.
/// Nothing is proved of the parser: its result is only given the name
/// `mountinfo_entries`.
#[verifier::external_body]
fn parse_mountinfo(data: &[u8]) -> (entries: Vec<Option<String>>)
    ensures
        entry_texts(entries@) == mountinfo_entries(data@),
{
    libmount::mountinfo::Parser::new(data)
        .map(|row| match row {
            Ok(mount) => mount.mount_point.into_owned().into_string().ok(),
            Err(_) => None,
        })
        .collect()
}

/// Drops the entries that are not there and keeps the others in order.
pub fn keep_present(entries: Vec<Option<String>>) -> (points: Vec<String>)
    ensures
        texts(points@) == present(entry_texts(entries@)),
{
    let mut points: Vec<String> = Vec::new();
    let n: usize = entries.len();
    let mut i: usize = 0;
    proof {
        assert(entry_texts(entries@).subrange(0, 0) =~= Seq::<Option<Seq<char>>>::empty());
        assert(texts(points@) =~= Seq::<Seq<char>>::empty());
    }
    while i < n
        invariant
            i <= n,
            n == entries@.len(),
            texts(points@) == present(entry_texts(entries@).subrange(0, i as int)),
        decreases n - i,
    {
        proof {
            let head = entry_texts(entries@).subrange(0, i + 1);
            assert(head.drop_last() =~= entry_texts(entries@).subrange(0, i as int));
            assert(head.last() == entry_texts(entries@)[i as int]);
        }
        match &entries[i] {
            Some(point) => {
                let ghost before = points@;
                points.push(point.clone());
                proof {
                    assert(texts(points@) =~= texts(before).push(point@));
                }
            },
            None => {},
        }
        i += 1;
    }
    proof {
        assert(entry_texts(entries@).subrange(0, n as int) =~= entry_texts(entries@));
    }
    points
}

/// The marked mount points of the mount table `data`, in the order of the
/// table. Lines that do not parse are passed over.
pub fn marked_points(data: &[u8]) -> (points: Vec<String>)
    ensures
        texts(points@) == marked_mount_points(data@),
{
    let entries = parse_mountinfo(data);
    let all = keep_present(entries);
    select_marked(&all)
}

} // verus!
