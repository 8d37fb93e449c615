//! The path index: an immutable map from keys to file contents, in which
//! every proper prefix of a stored key is a directory.

use crate::bytes::bytes_eq;
use crate::bytes::is_utf8;
use crate::bytes::lemma_bytes_deep_view;
use crate::path::components;
use crate::path::split_components;
use crate::trie::builder_build;
use crate::trie::builder_entries;
use crate::trie::builder_new;
use crate::trie::builder_push;
use crate::trie::is_proper_prefix;
use crate::trie::lists_continuations;
use crate::trie::trie_entries;
use crate::trie::trie_exact_match;
use crate::trie::trie_is_prefix;
use crate::trie::trie_postfixes;
use crate::trie::Key;
use crate::types::FsError;
use trie_rs::map::Trie;
use vstd::prelude::*;
use vstd::utf8::valid_utf8;

verus! {

/// A key is a directory of `files` when some stored key continues it.
pub open spec fn is_directory(files: Map<Key, Seq<u8>>, key: Key) -> bool {
    exists|k: Key| #[trigger] files.contains_key(k) && is_proper_prefix(key, k)
}

/// `name` is the component that follows `dir` in the stored key `k`.
pub open spec fn is_child_through(files: Map<Key, Seq<u8>>, dir: Key, name: Seq<u8>, k: Key) -> bool {
    files.contains_key(k) && is_proper_prefix(dir, k) && k[dir.len() as int] == name
}

/// The names directly below a directory: files and directories alike.
pub open spec fn child_names(files: Map<Key, Seq<u8>>, dir: Key) -> Set<Seq<u8>> {
    Set::new(|name: Seq<u8>| exists|k: Key| #[trigger] is_child_through(files, dir, name, k))
}

/// The key under which the `i`-th of the given (path, content) pairs is
/// stored.
pub open spec fn entry_key(entries: Seq<(Seq<u8>, Seq<u8>)>, i: int) -> Key {
    components(entries[i].0)
}

/// No two of the first `n` paths have the same key.
pub open spec fn distinct_keys(entries: Seq<(Seq<u8>, Seq<u8>)>, n: int) -> bool {
    forall|i: int, j: int|
        0 <= i < j < n ==> #[trigger] entry_key(entries, i) != #[trigger] entry_key(entries, j)
}

/// An index can be built from the pairs: every path is valid UTF-8 and has
/// a key that is not empty, and no two paths have the same key.
pub open spec fn buildable(entries: Seq<(Seq<u8>, Seq<u8>)>) -> bool {
    &&& forall|i: int|
        0 <= i < entries.len() ==> valid_utf8((#[trigger] entries[i]).0) && entry_key(
            entries,
            i,
        ).len() > 0
    &&& distinct_keys(entries, entries.len() as int)
}

/// `files` holds each of the first `n` pairs under its key, and nothing
/// else.
pub open spec fn holds_first(files: Map<Key, Seq<u8>>, entries: Seq<(Seq<u8>, Seq<u8>)>, n: int) -> bool {
    &&& forall|k: Key|
        #[trigger] files.contains_key(k) <==> exists|i: int|
            0 <= i < n && #[trigger] entry_key(entries, i) == k
    &&& forall|i: int| 0 <= i < n ==> files[#[trigger] entry_key(entries, i)] == entries[i].1
}

/// `files` holds each of the pairs under its key, and nothing else.
pub open spec fn holds_entries(files: Map<Key, Seq<u8>>, entries: Seq<(Seq<u8>, Seq<u8>)>) -> bool {
    holds_first(files, entries, entries.len() as int)
}

/// The path index.
pub struct PathIndex {
    trie: Trie<Vec<u8>, Vec<u8>>,
}

impl View for PathIndex {
    type V = Map<Key, Seq<u8>>;

    closed spec fn view(&self) -> Map<Key, Seq<u8>> {
        trie_entries(self.trie)
    }
}

/// Whether `names` holds `name`.
fn holds_name(names: &Vec<Vec<u8>>, name: &Vec<u8>) -> (found: bool)
    ensures
        found == names.deep_view().contains(name@),
{
    let mut i: usize = 0;
    while i < names.len()
        invariant
            i <= names.len(),
            forall|j: int| 0 <= j < i ==> names.deep_view()[j] != name@,
        decreases names.len() - i,
    {
        proof {
            lemma_bytes_deep_view(names@[i as int]);
        }
        if bytes_eq(names[i].as_slice(), name.as_slice()) {
            assert(names.deep_view()[i as int] == name@);
            return true;
        }
        i += 1;
    }
    false
}

impl PathIndex {
    /// The index's invariant: no key is empty, and every content fits in
    /// memory.
    pub open spec fn wf(&self) -> bool {
        forall|k: Key| #[trigger]
            self@.contains_key(k) ==> k.len() > 0 && self@[k].len() <= usize::MAX
    }

    /// Builds the index from (path, content) pairs. Each path is stored
    /// under its key, as it is written: a relative path is not resolved.
    /// Fails where a path is not valid UTF-8, has an empty key, or has the
    /// key of another path.
    pub fn build(entries: &Vec<(Vec<u8>, Vec<u8>)>) -> (built: Result<PathIndex, FsError>)
        ensures
            built is Ok <==> buildable(entries.deep_view()),
            built matches Ok(index) ==> index.wf() && holds_entries(index@, entries.deep_view()),
            built matches Err(e) ==> e == FsError::InvalidInput,
    {
        let ghost pairs = entries.deep_view();
        let mut builder = builder_new();
        let mut i: usize = 0;
        while i < entries.len()
            invariant
                i <= entries.len(),
                pairs == entries.deep_view(),
                forall|j: int|
                    0 <= j < i ==> valid_utf8((#[trigger] pairs[j]).0) && entry_key(pairs, j).len()
                        > 0,
                forall|k: Key|
                    #[trigger] builder_entries(builder).contains_key(k) <==> exists|j: int|
                        0 <= j < i && #[trigger] entry_key(pairs, j) == k,
                builder_entries(builder).dom().finite(),
                builder_entries(builder).dom().len() <= i,
                builder_entries(builder).dom().len() == i <==> distinct_keys(pairs, i as int),
                distinct_keys(pairs, i as int) ==> forall|j: int|
                    0 <= j < i ==> builder_entries(builder)[#[trigger] entry_key(pairs, j)]
                        == pairs[j].1,
                forall|k: Key| #[trigger]
                    builder_entries(builder).contains_key(k) ==> builder_entries(builder)[k].len()
                        <= usize::MAX,
            decreases entries.len() - i,
        {
            let path = &entries[i].0;
            let content = &entries[i].1;
            proof {
                lemma_bytes_deep_view(*path);
                lemma_bytes_deep_view(*content);
                assert(pairs[i as int] == (path@, content@));
            }
            if !is_utf8(path.as_slice()) {
                return Err(FsError::InvalidInput);
            }
            let key = split_components(path.as_slice());
            assert(key.deep_view() == entry_key(pairs, i as int));
            if key.len() == 0 {
                return Err(FsError::InvalidInput);
            }
            let ghost before = builder_entries(builder);
            let value = content.clone();
            builder_push(&mut builder, &key, value);
            proof {
                let now = builder_entries(builder);
                let this = entry_key(pairs, i as int);
                assert(now == before.insert(this, content@));
                assert(now.dom() =~= before.dom().insert(this));
                assert forall|k: Key| #[trigger] now.contains_key(k) <==> exists|j: int|
                    0 <= j < i + 1 && #[trigger] entry_key(pairs, j) == k by {
                    if now.contains_key(k) {
                        if k == this {
                            assert(entry_key(pairs, i as int) == k);
                        } else {
                            assert(before.contains_key(k));
                            let j = choose|j: int| 0 <= j < i && #[trigger] entry_key(pairs, j) == k;
                            assert(0 <= j < i + 1 && entry_key(pairs, j) == k);
                        }
                    }
                    if exists|j: int| 0 <= j < i + 1 && #[trigger] entry_key(pairs, j) == k {
                        let j = choose|j: int| 0 <= j < i + 1 && #[trigger] entry_key(pairs, j) == k;
                        if j < i {
                            assert(before.contains_key(k));
                        }
                    }
                }
                if before.contains_key(this) {
                    let j = choose|j: int| 0 <= j < i && #[trigger] entry_key(pairs, j) == this;
                    assert(entry_key(pairs, j) == entry_key(pairs, i as int));
                    assert(!distinct_keys(pairs, i + 1));
                } else {
                    assert forall|j: int| 0 <= j < i implies #[trigger] entry_key(pairs, j)
                        != this by {
                        assert(before.contains_key(entry_key(pairs, j)));
                    }
                    assert(distinct_keys(pairs, i + 1) == distinct_keys(pairs, i as int));
                }
                if distinct_keys(pairs, i + 1) {
                    assert(distinct_keys(pairs, i as int));
                    assert forall|j: int| 0 <= j < i + 1 implies now[#[trigger] entry_key(pairs, j)]
                        == pairs[j].1 by {
                        if j < i {
                            assert(entry_key(pairs, j) != this);
                            assert(before[entry_key(pairs, j)] == pairs[j].1);
                        }
                    }
                }
            }
            i += 1;
        }
        let trie = builder_build(builder);
        let top: Vec<Vec<u8>> = Vec::new();
        let stored = trie_postfixes(&trie, &top);
        let index = PathIndex { trie };
        proof {
            let files = index@;
            let list = stored.deep_view();
            assert(top.deep_view() =~= Seq::<Seq<u8>>::empty());
            assert forall|k: Key| #[trigger] files.contains_key(k) implies k.len() > 0 && files[k].len()
                <= usize::MAX by {
                let j = choose|j: int| 0 <= j < entries.len() && #[trigger] entry_key(pairs, j) == k;
                assert(valid_utf8(pairs[j].0) && entry_key(pairs, j).len() > 0);
            }
            assert forall|k: Key| list.to_set().contains(k) <==> files.dom().contains(k) by {
                if list.to_set().contains(k) {
                    let n = choose|n: int| 0 <= n < list.len() && list[n] == k;
                    assert(Seq::<Seq<u8>>::empty() + list[n] =~= list[n]);
                }
                if files.contains_key(k) {
                    assert(k.subrange(0, 0) =~= Seq::<Seq<u8>>::empty());
                    assert(is_proper_prefix(Seq::<Seq<u8>>::empty(), k));
                    assert(k.skip(0) =~= k);
                }
            }
            assert(list.to_set() =~= files.dom());
            list.unique_seq_to_set();
        }
        if stored.len() != entries.len() {
            return Err(FsError::InvalidInput);
        }
        Ok(index)
    }

    /// The content stored under exactly this key.
    pub fn lookup(&self, key: &Vec<Vec<u8>>) -> (found: Option<&Vec<u8>>)
        ensures
            found is Some <==> self@.contains_key(key.deep_view()),
            found matches Some(content) ==> content@ == self@[key.deep_view()],
    {
        trie_exact_match(&self.trie, key)
    }

    /// Whether the key is a directory.
    pub fn is_directory(&self, key: &Vec<Vec<u8>>) -> (r: bool)
        ensures
            r == is_directory(self@, key.deep_view()),
    {
        trie_is_prefix(&self.trie, key)
    }

    /// The names directly below `dir`, each once.
    pub fn children_of(&self, dir: &Vec<Vec<u8>>) -> (names: Vec<Vec<u8>>)
        ensures
            names.deep_view().no_duplicates(),
            names.deep_view().to_set() == child_names(self@, dir.deep_view()),
    {
        let posts = trie_postfixes(&self.trie, dir);
        let ghost files = self@;
        let ghost d = dir.deep_view();
        let ghost list = posts.deep_view();
        let mut names: Vec<Vec<u8>> = Vec::new();
        assert(names.deep_view() =~= Seq::<Seq<u8>>::empty());
        let mut i: usize = 0;
        while i < posts.len()
            invariant
                i <= posts.len(),
                list == posts.deep_view(),
                lists_continuations(files, d, list),
                names.deep_view().no_duplicates(),
                forall|n: int|
                    0 <= n < names.len() ==> exists|j: int|
                        0 <= j < i && (#[trigger] list[j])[0] == #[trigger] names.deep_view()[n],
                forall|j: int| 0 <= j < i ==> names.deep_view().contains((#[trigger] list[j])[0]),
            decreases posts.len() - i,
        {
            let post = &posts[i];
            assert(list[i as int] == post.deep_view());
            assert(post.len() > 0);
            let first = &post[0];
            proof {
                lemma_bytes_deep_view(*first);
            }
            assert(list[i as int][0] == first@);
            if !holds_name(&names, first) {
                let ghost before = names.deep_view();
                let copy = first.clone();
                proof {
                    lemma_bytes_deep_view(copy);
                }
                names.push(copy);
                assert(names.deep_view() =~= before.push(first@));
                assert forall|n: int| 0 <= n < names.len() implies exists|j: int|
                    0 <= j < i + 1 && (#[trigger] list[j])[0] == #[trigger] names.deep_view()[n] by {
                    if n < before.len() {
                        assert(names.deep_view()[n] == before[n]);
                        let j = choose|j: int| 0 <= j < i && (#[trigger] list[j])[0] == before[n];
                        assert(0 <= j < i + 1 && list[j][0] == names.deep_view()[n]);
                    } else {
                        assert(list[i as int][0] == names.deep_view()[n]);
                    }
                }
                assert forall|j: int| 0 <= j < i + 1 implies names.deep_view().contains(
                    (#[trigger] list[j])[0],
                ) by {
                    if j < i {
                        assert(before.contains(list[j][0]));
                        let n = choose|n: int| 0 <= n < before.len() && before[n] == list[j][0];
                        assert(names.deep_view()[n] == list[j][0]);
                    } else {
                        assert(names.deep_view()[before.len() as int] == list[j][0]);
                    }
                }
            }
            i += 1;
        }
        proof {
            let got = names.deep_view().to_set();
            let want = child_names(files, d);
            assert forall|name: Seq<u8>| got.contains(name) implies want.contains(name) by {
                let n = choose|n: int| 0 <= n < names.len() && names.deep_view()[n] == name;
                let j = choose|j: int|
                    0 <= j < posts.len() && (#[trigger] list[j])[0] == names.deep_view()[n];
                let k = d + list[j];
                assert(files.contains_key(k));
                assert(k.subrange(0, d.len() as int) =~= d);
                assert(is_child_through(files, d, name, k));
            }
            assert forall|name: Seq<u8>| want.contains(name) implies got.contains(name) by {
                let k = choose|k: Key| #[trigger] is_child_through(files, d, name, k);
                let post = k.skip(d.len() as int);
                assert(list.contains(post));
                let j = choose|j: int| 0 <= j < list.len() && list[j] == post;
                assert(names.deep_view().contains(list[j][0]));
            }
            assert(got =~= want);
        }
        names
    }
}

} // verus!
