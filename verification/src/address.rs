//! Values kept per address type, and collections of them that are merged
//! and extended as blocks are processed.

use std::collections::BTreeMap;
use vstd::prelude::*;

verus! {

/// Where an address's data came from: created in this block, or loaded from
/// the store of funded or of empty addresses.
#[derive(Clone, Copy, Debug)]
pub enum WithAddressDataSource<T> {
    New(T),
    FromAddressDataStore(T),
    FromEmptyAddressDataStore(T),
}

/// The data carried by a source-tagged value.
pub open spec fn source_inner<T>(w: WithAddressDataSource<T>) -> T {
    match w {
        WithAddressDataSource::New(v) => v,
        WithAddressDataSource::FromAddressDataStore(v) => v,
        WithAddressDataSource::FromEmptyAddressDataStore(v) => v,
    }
}

/// The same source tag around other data.
pub open spec fn with_inner<T>(w: WithAddressDataSource<T>, v: T) -> WithAddressDataSource<T> {
    match w {
        WithAddressDataSource::New(_) => WithAddressDataSource::New(v),
        WithAddressDataSource::FromAddressDataStore(_) => WithAddressDataSource::FromAddressDataStore(v),
        WithAddressDataSource::FromEmptyAddressDataStore(_) => WithAddressDataSource::FromEmptyAddressDataStore(v),
    }
}

impl<T> WithAddressDataSource<T> {
    /// Whether the address was created in this block.
    pub fn is_new(&self) -> (r: bool)
        ensures
            r == (*self is New),
    {
        match self {
            WithAddressDataSource::New(_) => true,
            _ => false,
        }
    }

    /// The data, whatever its source.
    pub fn deref(&self) -> (r: &T)
        ensures
            *r == source_inner(*self),
    {
        match self {
            WithAddressDataSource::New(v) => v,
            WithAddressDataSource::FromAddressDataStore(v) => v,
            WithAddressDataSource::FromEmptyAddressDataStore(v) => v,
        }
    }

    /// The data, to be changed in place; the source tag stays.
    pub fn deref_mut(&mut self) -> (r: &mut T)
        ensures
            *r == source_inner(*old(self)),
            *final(self) == with_inner(*old(self), *final(r)),
    {
        match self {
            WithAddressDataSource::New(v) => v,
            WithAddressDataSource::FromAddressDataStore(v) => v,
            WithAddressDataSource::FromEmptyAddressDataStore(v) => v,
        }
    }
}

/// One value per address type.
pub struct ByAddressType<T> {
    pub p2pk65: T,
    pub p2pk33: T,
    pub p2pkh: T,
    pub p2sh: T,
    pub p2wpkh: T,
    pub p2wsh: T,
    pub p2tr: T,
    pub p2a: T,
}

/// The address types, in the order of the fields.
#[derive(Clone, Copy, PartialEq, Eq, Structural, Debug)]
pub enum AddressType {
    P2PK65,
    P2PK33,
    P2PKH,
    P2SH,
    P2WPKH,
    P2WSH,
    P2TR,
    P2A,
}

impl<T> ByAddressType<T> {
    /// The value kept for an address type.
    pub open spec fn at(&self, t: AddressType) -> T {
        match t {
            AddressType::P2PK65 => self.p2pk65,
            AddressType::P2PK33 => self.p2pk33,
            AddressType::P2PKH => self.p2pkh,
            AddressType::P2SH => self.p2sh,
            AddressType::P2WPKH => self.p2wpkh,
            AddressType::P2WSH => self.p2wsh,
            AddressType::P2TR => self.p2tr,
            AddressType::P2A => self.p2a,
        }
    }
}

/// A list of values per address type.
pub struct AddressTypeToVec<T>(pub ByAddressType<Vec<T>>);

impl<T> Default for AddressTypeToVec<T> {
    /// Every list empty.
    fn default() -> (r: Self)
        ensures
            forall|t: AddressType| (#[trigger] r.0.at(t))@ == Seq::<T>::empty(),
    {
        AddressTypeToVec(
            ByAddressType {
                p2pk65: Vec::new(),
                p2pk33: Vec::new(),
                p2pkh: Vec::new(),
                p2sh: Vec::new(),
                p2wpkh: Vec::new(),
                p2wsh: Vec::new(),
                p2tr: Vec::new(),
                p2a: Vec::new(),
            },
        )
    }
}

/// The result of moving the entries of `other` into `own`: the longer list
/// keeps its place in front and the shorter one follows it.
pub open spec fn merged_seq<A>(own: Seq<A>, other: Seq<A>) -> Seq<A> {
    if own.len() >= other.len() {
        own + other
    } else {
        other + own
    }
}

/// Moves the entries of `other` into `own`, behind the longer of the two.
fn merge_vec<A>(own: &mut Vec<A>, other: &mut Vec<A>)
    ensures
        final(own)@ == merged_seq(old(own)@, old(other)@),
        final(other)@ == Seq::<A>::empty(),
{
    if own.len() >= other.len() {
        own.append(other);
    } else {
        other.append(own);
        std::mem::swap(own, other);
    }
}

/// Index pairs per address type: the index of an address within its type,
/// and a value for it.
pub struct AddressTypeToTypeIndexVec<T>(pub ByAddressType<Vec<(u32, T)>>);

impl<T> Default for AddressTypeToTypeIndexVec<T> {
    /// Every list empty.
    fn default() -> (r: Self)
        ensures
            forall|t: AddressType| (#[trigger] r.0.at(t))@ == Seq::<(u32, T)>::empty(),
    {
        AddressTypeToTypeIndexVec(
            ByAddressType {
                p2pk65: Vec::new(),
                p2pk33: Vec::new(),
                p2pkh: Vec::new(),
                p2sh: Vec::new(),
                p2wpkh: Vec::new(),
                p2wsh: Vec::new(),
                p2tr: Vec::new(),
                p2a: Vec::new(),
            },
        )
    }
}

/// The output indexes of pairs whose value starts with an output index.
pub open spec fn output_pairs<P>(s: Seq<(u32, (u64, P))>) -> Seq<(u32, u64)> {
    s.map_values(|e: (u32, (u64, P))| (e.0, e.1.0))
}

/// Appends to `own` the address index and output index of every entry of `other`.
fn extend_output_pairs<P>(own: &mut Vec<(u32, u64)>, other: &Vec<(u32, (u64, P))>)
    ensures
        final(own)@ == old(own)@ + output_pairs(other@),
{
    let mut i: usize = 0;
    while i < other.len()
        invariant
            0 <= i <= other@.len(),
            own@ == old(own)@ + output_pairs(other@.take(i as int)),
        decreases other@.len() - i,
    {
        let type_index = other[i].0;
        let output_index = other[i].1.0;
        own.push((type_index, output_index));
        proof {
            assert(output_pairs(other@.take(i + 1)) =~= output_pairs(other@.take(i as int)).push(
                (type_index, output_index),
            ));
        }
        i = i + 1;
    }
    proof {
        assert(other@.take(other@.len() as int) =~= other@);
    }
}

impl<T> AddressTypeToTypeIndexVec<T> {
    /// Moves every list of `other` into the list of the same type.
    pub fn merge(&mut self, other: Self)
        ensures
            forall|t: AddressType|
                (#[trigger] final(self).0.at(t))@ == merged_seq(old(self).0.at(t)@, other.0.at(t)@),
    {
        let mut other = other;
        merge_vec(&mut self.0.p2pk65, &mut other.0.p2pk65);
        merge_vec(&mut self.0.p2pk33, &mut other.0.p2pk33);
        merge_vec(&mut self.0.p2pkh, &mut other.0.p2pkh);
        merge_vec(&mut self.0.p2sh, &mut other.0.p2sh);
        merge_vec(&mut self.0.p2wpkh, &mut other.0.p2wpkh);
        merge_vec(&mut self.0.p2wsh, &mut other.0.p2wsh);
        merge_vec(&mut self.0.p2tr, &mut other.0.p2tr);
        merge_vec(&mut self.0.p2a, &mut other.0.p2a);
    }

    /// The lists per address type.
    pub fn unwrap(self) -> (r: ByAddressType<Vec<(u32, T)>>)
        ensures
            r == self.0,
    {
        self.0
    }
}

impl AddressTypeToTypeIndexVec<u64> {
    /// Records the outputs that were spent: for every address type but
    /// P2PK65, the address index and output index of each entry of `other`.
    pub fn extend_from_sent<P>(&mut self, other: &AddressTypeToTypeIndexVec<(u64, P)>)
        ensures
            final(self).0.p2pk65@ == old(self).0.p2pk65@,
            forall|t: AddressType|
                t != AddressType::P2PK65 ==> (#[trigger] final(self).0.at(t))@ == old(self).0.at(t)@
                    + output_pairs(other.0.at(t)@),
    {
        extend_output_pairs(&mut self.0.p2pk33, &other.0.p2pk33);
        extend_output_pairs(&mut self.0.p2pkh, &other.0.p2pkh);
        extend_output_pairs(&mut self.0.p2sh, &other.0.p2sh);
        extend_output_pairs(&mut self.0.p2wpkh, &other.0.p2wpkh);
        extend_output_pairs(&mut self.0.p2wsh, &other.0.p2wsh);
        extend_output_pairs(&mut self.0.p2tr, &other.0.p2tr);
        extend_output_pairs(&mut self.0.p2a, &other.0.p2a);
    }

    /// Records the outputs that were received: for every address type but
    /// P2PK65, the address index and output index of each entry of `other`.
    pub fn extend_from_received<P>(&mut self, other: &AddressTypeToTypeIndexVec<(u64, P)>)
        ensures
            final(self).0.p2pk65@ == old(self).0.p2pk65@,
            forall|t: AddressType|
                t != AddressType::P2PK65 ==> (#[trigger] final(self).0.at(t))@ == old(self).0.at(t)@
                    + output_pairs(other.0.at(t)@),
    {
        extend_output_pairs(&mut self.0.p2pk33, &other.0.p2pk33);
        extend_output_pairs(&mut self.0.p2pkh, &other.0.p2pkh);
        extend_output_pairs(&mut self.0.p2sh, &other.0.p2sh);
        extend_output_pairs(&mut self.0.p2wpkh, &other.0.p2wpkh);
        extend_output_pairs(&mut self.0.p2wsh, &other.0.p2wsh);
        extend_output_pairs(&mut self.0.p2tr, &other.0.p2tr);
        extend_output_pairs(&mut self.0.p2a, &other.0.p2a);
    }
}

/// Moves every entry of `other` into `own` (`BTreeMap::append`). What is
/// claimed is what std documents: afterwards `own` maps each key of either
/// map, to the value from `other` where both held the key, and `other` is
/// empty.
#[verifier::external_body]
fn btree_append<T>(own: &mut BTreeMap<u32, T>, other: &mut BTreeMap<u32, T>)
    ensures
        final(own)@ == old(own)@.union_prefer_right(old(other)@),
        final(other)@.dom().is_empty(),
{
    own.append(other);
}

/// The map that results from moving `other` into `own`: entries of the
/// smaller map go into the larger, and win where both hold a key.
pub open spec fn merged_map<T>(own: Map<u32, T>, other: Map<u32, T>, own_len: int, other_len: int) -> Map<
    u32,
    T,
> {
    if own_len >= other_len {
        own.union_prefer_right(other)
    } else {
        other.union_prefer_right(own)
    }
}

fn merge_map<T>(own: &mut BTreeMap<u32, T>, other: &mut BTreeMap<u32, T>)
    ensures
        final(own)@ == merged_map(old(own)@, old(other)@, old(own).len() as int, old(other).len() as int),
{
    if own.len() >= other.len() {
        btree_append(own, other);
    } else {
        btree_append(other, own);
        std::mem::swap(own, other);
    }
}

/// A map per address type from the index of an address within its type to a value.
pub struct AddressTypeToTypeIndexTree<T>(pub ByAddressType<BTreeMap<u32, T>>);

impl<T> Default for AddressTypeToTypeIndexTree<T> {
    /// Every map empty.
    fn default() -> (r: Self)
        ensures
            forall|t: AddressType| (#[trigger] r.0.at(t))@ == Map::<u32, T>::empty(),
    {
        AddressTypeToTypeIndexTree(
            ByAddressType {
                p2pk65: BTreeMap::new(),
                p2pk33: BTreeMap::new(),
                p2pkh: BTreeMap::new(),
                p2sh: BTreeMap::new(),
                p2wpkh: BTreeMap::new(),
                p2wsh: BTreeMap::new(),
                p2tr: BTreeMap::new(),
                p2a: BTreeMap::new(),
            },
        )
    }
}

impl<T> AddressTypeToTypeIndexTree<T> {
    /// Moves every map of `other` into the map of the same type.
    pub fn merge(&mut self, other: Self)
        ensures
            forall|t: AddressType|
                (#[trigger] final(self).0.at(t))@ == merged_map(
                    old(self).0.at(t)@,
                    other.0.at(t)@,
                    old(self).0.at(t).len() as int,
                    other.0.at(t).len() as int,
                ),
    {
        let mut other = other;
        merge_map(&mut self.0.p2pk65, &mut other.0.p2pk65);
        merge_map(&mut self.0.p2pk33, &mut other.0.p2pk33);
        merge_map(&mut self.0.p2pkh, &mut other.0.p2pkh);
        merge_map(&mut self.0.p2sh, &mut other.0.p2sh);
        merge_map(&mut self.0.p2wpkh, &mut other.0.p2wpkh);
        merge_map(&mut self.0.p2wsh, &mut other.0.p2wsh);
        merge_map(&mut self.0.p2tr, &mut other.0.p2tr);
        merge_map(&mut self.0.p2a, &mut other.0.p2a);
    }

    /// The maps per address type.
    pub fn unwrap(self) -> (r: ByAddressType<BTreeMap<u32, T>>)
        ensures
            r == self.0,
    {
        self.0
    }
}

/// Merging keeps every entry of both lists, each as often as before.
pub proof fn lemma_merged_keeps_entries<A>(own: Seq<A>, other: Seq<A>)
    ensures
        merged_seq(own, other).to_multiset() == own.to_multiset().add(other.to_multiset()),
        merged_seq(own, other).len() == own.len() + other.len(),
{
    vstd::seq_lib::lemma_multiset_commutative(own, other);
    vstd::seq_lib::lemma_multiset_commutative(other, own);
    assert(own.to_multiset().add(other.to_multiset()) =~= other.to_multiset().add(own.to_multiset()));
}

/// Merging maps keeps every key of both; values of keys held by both come
/// from the smaller map.
pub proof fn lemma_merged_map_keys<T>(own: Map<u32, T>, other: Map<u32, T>, own_len: int, other_len: int)
    ensures
        merged_map(own, other, own_len, other_len).dom() == own.dom().union(other.dom()),
        forall|k: u32|
            own.contains_key(k) && other.contains_key(k) ==> #[trigger] merged_map(own, other, own_len, other_len)[k]
                == if own_len >= other_len {
                other[k]
            } else {
                own[k]
            },
{
    assert(merged_map(own, other, own_len, other_len).dom() =~= own.dom().union(other.dom()));
}

/// Changing the data of a source-tagged value through `deref_mut` keeps its
/// tag, and putting back the same data gives the same value.
pub proof fn lemma_with_inner<T>(w: WithAddressDataSource<T>, v: T)
    ensures
        source_inner(with_inner(w, v)) == v,
        (with_inner(w, v) is New) == (w is New),
        with_inner(w, source_inner(w)) == w,
{
}

} // verus!
