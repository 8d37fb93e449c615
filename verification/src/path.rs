//! Paths as byte strings, and their keys.
//!
//! A path is cut at `/` into components. The key of a path is the sequence
//! of its components: repeated and trailing separators vanish, a component
//! `.` is dropped unless the path begins with it, and the key of an absolute
//! path begins with the root component `/`. A relative path is first joined
//! to the working directory.

use crate::bytes::copy_range;
use crate::bytes::lemma_bytes_deep_view;
use crate::bytes::lemma_run_len;
use crate::bytes::lemma_run_len_is;
use crate::bytes::run_end;
use crate::bytes::run_len;
use vstd::prelude::*;

verus! {

/// The byte that separates the components of a path.
pub const SEPARATOR: u8 = 47;

/// The byte of which the component `.` consists.
pub const DOT: u8 = 46;

/// The component that stands for the root directory.
pub open spec fn root_component() -> Seq<u8> {
    seq![SEPARATOR]
}

/// The component that stands for the current directory.
pub open spec fn dot_component() -> Seq<u8> {
    seq![DOT]
}

/// A path is absolute when it begins with the separator.
pub open spec fn is_absolute(p: Seq<u8>) -> bool {
    p.len() > 0 && p[0] == SEPARATOR
}

/// The path's first component is `.`.
pub open spec fn begins_with_dot(p: Seq<u8>) -> bool {
    p.len() > 0 && p[0] == DOT && (p.len() == 1 || p[1] == SEPARATOR)
}

/// The components of a path between its separators, without the empty ones
/// and without those that are `.`.
pub open spec fn normal_segments(p: Seq<u8>) -> Seq<Seq<u8>>
    decreases p.len(),
    via normal_segments_decreases
{
    if p.len() == 0 {
        Seq::empty()
    } else if p[0] == SEPARATOR {
        normal_segments(p.skip(1))
    } else {
        let n = run_len(p, SEPARATOR) as int;
        let rest = normal_segments(p.skip(n));
        if p.take(n) == dot_component() {
            rest
        } else {
            seq![p.take(n)] + rest
        }
    }
}

#[via_fn]
proof fn normal_segments_decreases(p: Seq<u8>) {
    lemma_run_len(p, SEPARATOR);
}

/// The key of a path: the root component if the path is absolute, a leading
/// `.` if it begins with one, and then its segments.
pub open spec fn components(p: Seq<u8>) -> Seq<Seq<u8>> {
    if is_absolute(p) {
        seq![root_component()] + normal_segments(p)
    } else if begins_with_dot(p) {
        seq![dot_component()] + normal_segments(p)
    } else {
        normal_segments(p)
    }
}

/// A path joined to a base: an absolute path stands for itself, and so does
/// any path when the base is empty; otherwise the path follows the base and
/// a separator.
pub open spec fn join(base: Seq<u8>, p: Seq<u8>) -> Seq<u8> {
    if is_absolute(p) || base.len() == 0 {
        p
    } else {
        base + seq![SEPARATOR] + p
    }
}

/// The key under which a path is looked up, given the working directory.
pub open spec fn resolve(p: Seq<u8>, working_dir: Seq<u8>) -> Seq<Seq<u8>> {
    components(join(working_dir, p))
}

/// Whether a path is absolute.
pub fn path_is_absolute(p: &[u8]) -> (r: bool)
    ensures
        r == is_absolute(p@),
{
    p.len() > 0 && p[0] == SEPARATOR
}

/// Appends the segments of a path to a key.
pub fn append_segments(key: &mut Vec<Vec<u8>>, p: &[u8])
    ensures
        final(key).deep_view() == old(key).deep_view() + normal_segments(p@),
{
    let ghost head = key.deep_view();
    let ghost mut done: Seq<Seq<u8>> = Seq::empty();
    assert(head + done =~= head);
    assert(p@.skip(0) =~= p@);
    assert(Seq::<Seq<u8>>::empty() + normal_segments(p@) =~= normal_segments(p@));
    let mut i: usize = 0;
    while i < p.len()
        invariant
            i <= p.len(),
            key.deep_view() == head + done,
            normal_segments(p@) == done + normal_segments(p@.skip(i as int)),
        decreases p.len() - i,
    {
        let ghost tail = p@.skip(i as int);
        assert(tail.len() > 0 && tail[0] == p@[i as int]);
        if p[i] == SEPARATOR {
            assert(tail.skip(1) =~= p@.skip(i + 1));
            i += 1;
        } else {
            let j = run_end(p, i, SEPARATOR);
            let ghost n = (j - i) as int;
            assert(tail.skip(n) =~= p@.skip(j as int));
            assert(tail.take(n) =~= p@.subrange(i as int, j as int));
            if j - i == 1 && p[i] == DOT {
                assert(tail.take(n) =~= dot_component());
            } else {
                let seg = copy_range(p, i, j);
                assert(seg@ != dot_component()) by {
                    if seg@ == dot_component() {
                        assert(seg@.len() == 1);
                        assert(seg@[0] == DOT);
                    }
                }
                let ghost old_key = key.deep_view();
                key.push(seg);
                proof {
                    lemma_bytes_deep_view(seg);
                    assert(key.deep_view() =~= old_key.push(seg@));
                    assert(done + (seq![seg@] + normal_segments(tail.skip(n))) =~= done.push(seg@)
                        + normal_segments(tail.skip(n)));
                    assert(head + done.push(seg@) =~= (head + done).push(seg@));
                    done = done.push(seg@);
                }
            }
            i = j;
        }
    }
    proof {
        assert(p@.skip(p.len() as int) =~= Seq::<u8>::empty());
        assert(done + Seq::<Seq<u8>>::empty() =~= done);
    }
}

/// Splits a path into its key.
pub fn split_components(p: &[u8]) -> (key: Vec<Vec<u8>>)
    ensures
        key.deep_view() == components(p@),
{
    let mut key: Vec<Vec<u8>> = Vec::new();
    assert(key.deep_view() =~= Seq::<Seq<u8>>::empty());
    if p.len() > 0 && p[0] == SEPARATOR {
        let mut root: Vec<u8> = Vec::new();
        root.push(SEPARATOR);
        assert(root@ =~= root_component());
        proof {
            lemma_bytes_deep_view(root);
        }
        key.push(root);
        assert(key.deep_view() =~= seq![root_component()]);
    } else if p.len() > 0 && p[0] == DOT && (p.len() == 1 || p[1] == SEPARATOR) {
        let mut dot: Vec<u8> = Vec::new();
        dot.push(DOT);
        assert(dot@ =~= dot_component());
        proof {
            lemma_bytes_deep_view(dot);
        }
        key.push(dot);
        assert(key.deep_view() =~= seq![dot_component()]);
    }
    let ghost head = key.deep_view();
    append_segments(&mut key, p);
    assert(Seq::<Seq<u8>>::empty() + normal_segments(p@) =~= normal_segments(p@));
    key
}

/// The segments of two paths joined by a separator are those of the first
/// followed by those of the second.
pub proof fn lemma_segments_of_joined(a: Seq<u8>, b: Seq<u8>)
    ensures
        normal_segments(a + seq![SEPARATOR] + b) == normal_segments(a) + normal_segments(b),
    decreases a.len(),
{
    let joined = a + seq![SEPARATOR] + b;
    if a.len() == 0 {
        assert(joined.skip(1) =~= b);
        assert(normal_segments(a) + normal_segments(b) =~= normal_segments(b));
    } else if a[0] == SEPARATOR {
        assert(joined.skip(1) =~= a.skip(1) + seq![SEPARATOR] + b);
        lemma_segments_of_joined(a.skip(1), b);
    } else {
        let n = run_len(a, SEPARATOR);
        lemma_run_len(a, SEPARATOR);
        assert(joined[n as int] == SEPARATOR);
        lemma_run_len_is(joined, SEPARATOR, n);
        assert(joined.take(n as int) =~= a.take(n as int));
        assert(joined.skip(n as int) =~= a.skip(n as int) + seq![SEPARATOR] + b);
        lemma_segments_of_joined(a.skip(n as int), b);
        let rest_a = normal_segments(a.skip(n as int));
        assert((seq![a.take(n as int)] + rest_a) + normal_segments(b) =~= seq![a.take(n as int)] + (
        rest_a + normal_segments(b)));
    }
}

/// A relative path resolves to the key of the working directory followed by
/// the path's own segments.
pub proof fn lemma_resolve_relative(p: Seq<u8>, working_dir: Seq<u8>)
    requires
        !is_absolute(p),
        working_dir.len() > 0,
    ensures
        resolve(p, working_dir) == components(working_dir) + normal_segments(p),
{
    let joined = working_dir + seq![SEPARATOR] + p;
    lemma_segments_of_joined(working_dir, p);
    assert(is_absolute(joined) == is_absolute(working_dir));
    assert(begins_with_dot(joined) == begins_with_dot(working_dir));
    let segs = normal_segments(working_dir);
    assert((seq![root_component()] + segs) + normal_segments(p) =~= seq![root_component()] + (segs
        + normal_segments(p)));
    assert((seq![dot_component()] + segs) + normal_segments(p) =~= seq![dot_component()] + (segs
        + normal_segments(p)));
}

/// Joins a path to a base.
pub fn join_paths(base: &[u8], p: &[u8]) -> (joined: Vec<u8>)
    ensures
        joined@ == join(base@, p@),
{
    if path_is_absolute(p) || base.len() == 0 {
        let joined = copy_range(p, 0, p.len());
        assert(p@.subrange(0, p.len() as int) =~= p@);
        joined
    } else {
        let mut joined = copy_range(base, 0, base.len());
        assert(base@.subrange(0, base.len() as int) =~= base@);
        joined.push(SEPARATOR);
        let mut k: usize = 0;
        while k < p.len()
            invariant
                k <= p.len(),
                joined@ == base@ + seq![SEPARATOR] + p@.subrange(0, k as int),
            decreases p.len() - k,
        {
            joined.push(p[k]);
            k += 1;
        }
        assert(p@.subrange(0, p.len() as int) =~= p@);
        joined
    }
}

/// The key under which a path is looked up, given the working directory.
pub fn resolve_path(p: &[u8], working_dir: &[u8]) -> (key: Vec<Vec<u8>>)
    ensures
        key.deep_view() == resolve(p@, working_dir@),
{
    if path_is_absolute(p) || working_dir.len() == 0 {
        split_components(p)
    } else {
        let mut key = split_components(working_dir);
        append_segments(&mut key, p);
        proof {
            lemma_resolve_relative(p@, working_dir@);
        }
        key
    }
}

} // verus!
