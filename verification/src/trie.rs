//! The prefix tree that backs the path index, and what is taken on trust
//! about it.
//!
//! The tree is `trie_rs::map::Trie`, keyed by path components (each a byte
//! string) and holding file contents. Nothing in this file is proved: each
//! function states what the `trie-rs` source shows of the call it makes.

use trie_rs::map::Trie;
use trie_rs::map::TrieBuilder;
use vstd::prelude::*;

verus! {

/// `trie_rs::map::Trie`, a finished trie: carried as it is, with nothing
/// known of its inside.
#[verifier::external_type_specification]
#[verifier::external_body]
#[verifier::reject_recursive_types(Label)]
#[verifier::reject_recursive_types(Value)]
pub struct ExTrie<Label, Value>(Trie<Label, Value>);

/// `trie_rs::map::TrieBuilder`, a trie in the making: carried as it is, with
/// nothing known of its inside.
#[verifier::external_type_specification]
#[verifier::external_body]
#[verifier::reject_recursive_types(Label)]
#[verifier::reject_recursive_types(Value)]
pub struct ExTrieBuilder<Label, Value>(TrieBuilder<Label, Value>);

/// The key of an entry: the components of its path.
pub type Key = Seq<Seq<u8>>;

/// The entries that a finished trie holds, each key with its value.
pub uninterp spec fn trie_entries(t: Trie<Vec<u8>, Vec<u8>>) -> Map<Seq<Seq<u8>>, Seq<u8>>;

/// The entries pushed into a builder so far; a later push of the same key
/// replaces the earlier value.
pub uninterp spec fn builder_entries(b: TrieBuilder<Vec<u8>, Vec<u8>>) -> Map<Seq<Seq<u8>>, Seq<u8>>;

/// What continues `key` in the stored keys: every item of `list` is not
/// empty and, put behind `key`, is a stored key; every stored key that
/// continues `key` has its continuation in `list`; and no item comes twice.
pub open spec fn lists_continuations(entries: Map<Key, Seq<u8>>, key: Key, list: Seq<Key>) -> bool {
    &&& list.no_duplicates()
    &&& forall|i: int|
        0 <= i < list.len() ==> (#[trigger] list[i]).len() > 0 && entries.contains_key(key + list[i])
    &&& forall|k: Key|
        #[trigger] entries.contains_key(k) && is_proper_prefix(key, k) ==> list.contains(
            k.skip(key.len() as int),
        )
}

/// `a` is a prefix of `b` and shorter than `b`.
pub open spec fn is_proper_prefix(a: Key, b: Key) -> bool {
    a.len() < b.len() && b.subrange(0, a.len() as int) == a
}

/// `TrieBuilder::new`: a builder without entries.
#[verifier::external_body]
pub(crate) fn builder_new() -> (b: TrieBuilder<Vec<u8>, Vec<u8>>)
    ensures
        builder_entries(b) == (Map::<Key, Seq<u8>>::empty()),
{
    TrieBuilder::new()
}

/// `TrieBuilder::push`: walks the key from the root, creating the nodes that
/// are missing, and stores the value at the last node, over any value that
/// was there. An empty key would end at the root, which holds no value: the
/// call panics then, so such a key is not admitted.
#[verifier::external_body]
pub(crate) fn builder_push(b: &mut TrieBuilder<Vec<u8>, Vec<u8>>, key: &Vec<Vec<u8>>, value: Vec<u8>)
    requires
        key.len() > 0,
    ensures
        builder_entries(*final(b)) == builder_entries(*old(b)).insert(key.deep_view(), value@),
{
    b.push(key, value)
}

/// `TrieBuilder::build`: the finished trie holds the builder's entries.
#[verifier::external_body]
pub(crate) fn builder_build(b: TrieBuilder<Vec<u8>, Vec<u8>>) -> (t: Trie<Vec<u8>, Vec<u8>>)
    ensures
        trie_entries(t) == builder_entries(b),
{
    b.build()
}

/// `Trie::exact_match`: the value stored under exactly this key, if any. A
/// key that only leads to longer keys holds no value, and neither does the
/// empty key.
#[verifier::external_body]
pub(crate) fn trie_exact_match<'a>(t: &'a Trie<Vec<u8>, Vec<u8>>, key: &Vec<Vec<u8>>) -> (r: Option<&'a Vec<u8>>)
    ensures
        r is Some <==> trie_entries(*t).contains_key(key.deep_view()),
        r matches Some(v) ==> v@ == trie_entries(*t)[key.deep_view()],
{
    t.exact_match(key)
}

/// `Trie::is_prefix`: whether the walk along the key ends at a node that has
/// children, that is, whether some stored key continues this one.
#[verifier::external_body]
pub(crate) fn trie_is_prefix(t: &Trie<Vec<u8>, Vec<u8>>, key: &Vec<Vec<u8>>) -> (r: bool)
    ensures
        r == (exists|k: Key| #[trigger] trie_entries(*t).contains_key(k) && is_proper_prefix(key.deep_view(), k)),
{
    t.is_prefix(key)
}

/// `Trie::postfix_search`, collected: the walk along the key ends at a node,
/// and the search visits every node below it once and yields, for each that
/// holds a value, the labels from below that node down to it. Where the walk
/// fails it yields nothing.
#[verifier::external_body]
pub(crate) fn trie_postfixes(t: &Trie<Vec<u8>, Vec<u8>>, key: &Vec<Vec<u8>>) -> (r: Vec<Vec<Vec<u8>>>)
    ensures
        lists_continuations(trie_entries(*t), key.deep_view(), r.deep_view()),
{
    t.postfix_search::<Vec<Vec<u8>>, _>(key).map(|(k, _)| k).collect()
}

} // verus!
