//! The embedded data: two blocks of records, each record ended by a 0 byte,
//! one block of paths and one of file contents, paired in order.

use crate::bytes::copy_range;
use crate::bytes::lemma_bytes_deep_view;
use crate::bytes::lemma_run_len;
use crate::bytes::run_end;
use crate::bytes::run_len;
use vstd::prelude::*;

verus! {

/// The byte that ends a record.
pub const NUL: u8 = 0;

/// The records of a block, each without the 0 byte that ends it. Bytes
/// behind the last 0 byte form a record too.
pub open spec fn records(blob: Seq<u8>) -> Seq<Seq<u8>>
    decreases blob.len(),
    via records_decreases
{
    if blob.len() == 0 {
        Seq::empty()
    } else {
        let n = run_len(blob, NUL) as int;
        if n < blob.len() {
            seq![blob.take(n)] + records(blob.skip(n + 1))
        } else {
            seq![blob]
        }
    }
}

#[via_fn]
proof fn records_decreases(blob: Seq<u8>) {
    lemma_run_len(blob, NUL);
}

/// The pairs of the two sequences, as far as both reach.
pub open spec fn paired(paths: Seq<Seq<u8>>, files: Seq<Seq<u8>>) -> Seq<(Seq<u8>, Seq<u8>)> {
    Seq::new(
        if paths.len() <= files.len() {
            paths.len()
        } else {
            files.len()
        },
        |i: int| (paths[i], files[i]),
    )
}

/// The (path, content) pairs that two blocks hold.
pub open spec fn blob_entries(paths: Seq<u8>, files: Seq<u8>) -> Seq<(Seq<u8>, Seq<u8>)> {
    paired(records(paths), records(files))
}

/// Splits a block into its records.
pub fn split_records(blob: &[u8]) -> (out: Vec<Vec<u8>>)
    ensures
        out.deep_view() == records(blob@),
{
    let mut out: Vec<Vec<u8>> = Vec::new();
    assert(out.deep_view() =~= Seq::<Seq<u8>>::empty());
    assert(blob@.skip(0) =~= blob@);
    let mut i: usize = 0;
    while i < blob.len()
        invariant
            i <= blob.len(),
            records(blob@) == out.deep_view() + records(blob@.skip(i as int)),
        decreases blob.len() - i,
    {
        let ghost tail = blob@.skip(i as int);
        let ghost done = out.deep_view();
        let j = run_end(blob, i, NUL);
        let record = copy_range(blob, i, j);
        proof {
            lemma_bytes_deep_view(record);
            assert(tail.take(j - i) =~= record@);
        }
        out.push(record);
        assert(out.deep_view() =~= done.push(record@));
        if j < blob.len() {
            proof {
                assert(tail.skip(j - i + 1) =~= blob@.skip(j + 1));
                assert(done + (seq![record@] + records(blob@.skip(j + 1))) =~= done.push(record@)
                    + records(blob@.skip(j + 1)));
            }
            i = j + 1;
        } else {
            proof {
                assert(record@ =~= tail);
                assert(blob@.skip(j as int) =~= Seq::<u8>::empty());
                assert(done + seq![tail] =~= done.push(record@) + records(blob@.skip(j as int)));
            }
            i = j;
        }
    }
    proof {
        assert(blob@.skip(blob.len() as int) =~= Seq::<u8>::empty());
        assert(out.deep_view() + Seq::<Seq<u8>>::empty() =~= out.deep_view());
    }
    out
}

/// Pairs paths with contents, as far as both reach.
pub fn pair_records(paths: &Vec<Vec<u8>>, files: &Vec<Vec<u8>>) -> (pairs: Vec<(Vec<u8>, Vec<u8>)>)
    ensures
        pairs.deep_view() == paired(paths.deep_view(), files.deep_view()),
{
    let n = if paths.len() <= files.len() {
        paths.len()
    } else {
        files.len()
    };
    let mut pairs: Vec<(Vec<u8>, Vec<u8>)> = Vec::new();
    let mut i: usize = 0;
    while i < n
        invariant
            i <= n,
            n <= paths.len(),
            n <= files.len(),
            pairs.len() == i,
            forall|j: int|
                0 <= j < i ==> (#[trigger] pairs[j]).0@ == paths[j]@ && pairs[j].1@ == files[j]@,
        decreases n - i,
    {
        let path = paths[i].clone();
        let content = files[i].clone();
        pairs.push((path, content));
        i += 1;
    }
    proof {
        let want = paired(paths.deep_view(), files.deep_view());
        assert(pairs.deep_view().len() == want.len());
        assert forall|j: int| 0 <= j < n implies pairs.deep_view()[j] == want[j] by {
            lemma_bytes_deep_view(pairs[j].0);
            lemma_bytes_deep_view(pairs[j].1);
            lemma_bytes_deep_view(paths[j]);
            lemma_bytes_deep_view(files[j]);
            assert(pairs.deep_view()[j] == (pairs[j].0.deep_view(), pairs[j].1.deep_view()));
        }
        assert(pairs.deep_view() =~= want);
    }
    pairs
}

} // verus!
