//! Pools of interned strings: insertion-ordered sets in which every string
//! occurs once and is named by its position.
//!
//! The set itself is `indexmap`'s `IndexSet`. What it holds is named
//! `set_items`, and the calls into it are stated over that name.

use core::marker::PhantomData;
use vstd::prelude::*;
use ahash::RandomState;
use indexmap::IndexSet;
use crate::index::PoolIndex;

verus! {

#[verifier::external_type_specification]
#[verifier::external_body]
#[verifier::reject_recursive_types(T)]
#[verifier::reject_recursive_types(S)]
pub struct ExIndexSet<T, S>(IndexSet<T, S>);

#[verifier::external_type_specification]
#[verifier::external_body]
pub struct ExRandomState(RandomState);

/// The strings that a set holds, in the order in which they were inserted.
pub uninterp spec fn set_items(set: IndexSet<String, RandomState>) -> Seq<Seq<char>>;

/// `IndexSet::default`: a set that holds nothing.
#[verifier::external_body]
pub(crate) fn set_new() -> (set: IndexSet<String, RandomState>)
    ensures
        set_items(set) == Seq::<Seq<char>>::empty(),
{
    IndexSet::default()
}

/// `IndexSet::insert_full`: a string that the set holds already stays where
/// it is, and its position comes back with `false`; a new one goes to the
/// end, and its position comes back with `true`.
#[verifier::external_body]
pub(crate) fn set_insert_full(set: &mut IndexSet<String, RandomState>, value: String) -> (r: (
    usize,
    bool,
))
    ensures
        set_items(*old(set)).contains(value@) ==> set_items(*final(set)) == set_items(*old(set))
            && !r.1 && r.0 < set_items(*old(set)).len() && set_items(*old(set))[r.0 as int]
            == value@,
        !set_items(*old(set)).contains(value@) ==> set_items(*final(set)) == set_items(
            *old(set),
        ).push(value@) && r.1 && r.0 == set_items(*old(set)).len(),
{
    set.insert_full(value)
}

/// `IndexSet::get_full`: the position of a string that the set holds, and
/// nothing for one that it does not hold.
#[verifier::external_body]
pub(crate) fn set_get_full(set: &IndexSet<String, RandomState>, value: &str) -> (r: Option<usize>)
    ensures
        match r {
            Some(i) => i < set_items(*set).len() && set_items(*set)[i as int] == value@,
            None => !set_items(*set).contains(value@),
        },
{
    set.get_full(value).map(|found| found.0)
}

/// `IndexSet::len`: the number of strings that the set holds.
#[verifier::external_body]
pub(crate) fn set_len(set: &IndexSet<String, RandomState>) -> (n: usize)
    ensures
        n == set_items(*set).len(),
{
    set.len()
}

/// `IndexSet::get_index`: the string at a position, and nothing for a
/// position behind the last.
#[verifier::external_body]
pub(crate) fn set_get_index(set: &IndexSet<String, RandomState>, index: usize) -> (r: Option<
    &String,
>)
    ensures
        match r {
            Some(s) => index < set_items(*set).len() && s@ == set_items(*set)[index as int],
            None => index >= set_items(*set).len(),
        },
{
    set.get_index(index)
}

/// The strings of a pool after `s` was added: `s` goes to the end unless the
/// pool holds it already.
pub open spec fn pool_add(items: Seq<Seq<char>>, s: Seq<char>) -> Seq<Seq<char>> {
    if items.contains(s) {
        items
    } else {
        items.push(s)
    }
}

/// The most strings that a pool can hold: as many as 32 bits can number.
pub open spec fn pool_limit() -> int {
    0x1_0000_0000
}

/// A pool of interned strings. `A` says which pool it is.
#[derive(Debug)]
pub struct StringPool<A> {
    strings: IndexSet<String, RandomState>,
    phantom: PhantomData<PoolIndex<A>>,
}

impl<A> View for StringPool<A> {
    type V = Seq<Seq<char>>;

    closed spec fn view(&self) -> Seq<Seq<char>> {
        set_items(self.strings)
    }
}

impl<A> StringPool<A> {
    #[verifier::type_invariant]
    closed spec fn distinct(self) -> bool {
        &&& set_items(self.strings).no_duplicates()
        &&& set_items(self.strings).len() <= pool_limit()
    }

    /// A pool that holds nothing.
    pub fn new() -> (pool: Self)
        ensures
            pool@ == Seq::<Seq<char>>::empty(),
    {
        StringPool { strings: set_new(), phantom: PhantomData }
    }

    /// Adds a string to the pool and hands back its index. A string that the
    /// pool holds already keeps its index, and the pool stays as it is.
    pub fn add(&mut self, string: &str) -> (index: PoolIndex<A>)
        requires
            old(self)@.len() <= u32::MAX,
        ensures
            final(self)@ == pool_add(old(self)@, string@),
            final(self)@.no_duplicates(),
            index@ < final(self)@.len(),
            final(self)@[index@ as int] == string@,
    {
        proof {
            use_type_invariant(&*self);
        }
        let ghost before = set_items(self.strings);
        let mut strings = set_new();
        core::mem::swap(&mut self.strings, &mut strings);
        let (at, _) = set_insert_full(&mut strings, string.to_owned());
        self.strings = strings;
        PoolIndex::new(at as u32)
    }

    /// Adds a string to the pool like `add`, unless the pool holds as many
    /// strings as 32 bits can number and more: then nothing is added.
    pub fn try_add(&mut self, string: &str) -> (r: Option<PoolIndex<A>>)
        ensures
            match r {
                Some(index) => old(self)@.len() <= u32::MAX && final(self)@ == pool_add(
                    old(self)@,
                    string@,
                ) && index@ < final(self)@.len() && final(self)@[index@ as int] == string@,
                None => old(self)@.len() > u32::MAX && final(self)@ == old(self)@,
            },
    {
        if self.len() <= 0xFFFF_FFFF {
            Some(self.add(string))
        } else {
            None
        }
    }

    /// The index of a string, if the pool holds it.
    pub fn get_index(&self, string: &str) -> (r: Option<PoolIndex<A>>)
        ensures
            match r {
                Some(index) => index@ < self@.len() && self@[index@ as int] == string@,
                None => !self@.contains(string@),
            },
    {
        proof {
            use_type_invariant(self);
        }
        match set_get_full(&self.strings, string) {
            Some(at) => Some(PoolIndex::new(at as u32)),
            None => None,
        }
    }

    /// The string at an index, if the pool has that many.
    pub fn get(&self, index: PoolIndex<A>) -> (r: Option<&str>)
        ensures
            match r {
                Some(s) => index@ < self@.len() && s@ == self@[index@ as int],
                None => index@ >= self@.len(),
            },
    {
        match set_get_index(&self.strings, index.value() as usize) {
            Some(s) => Some(s.as_str()),
            None => None,
        }
    }

    /// The number of strings in the pool. No string occurs twice in it.
    pub fn len(&self) -> (n: usize)
        ensures
            n == self@.len(),
            self@.no_duplicates(),
            n <= pool_limit(),
    {
        proof {
            use_type_invariant(self);
        }
        set_len(&self.strings)
    }

    /// The pool itself: it owns all its strings.
    pub fn into_owned(self) -> (pool: Self)
        ensures
            pool@ == self@,
    {
        self
    }
}

impl<A> Default for StringPool<A> {
    fn default() -> (pool: Self)
        ensures
            pool@ == Seq::<Seq<char>>::empty(),
    {
        StringPool::new()
    }
}

/// Adding a string a second time changes nothing: the pool stays as it was
/// after the first time, and the string is found where it was.
pub proof fn lemma_add_twice(items: Seq<Seq<char>>, s: Seq<char>)
    ensures
        pool_add(pool_add(items, s), s) == pool_add(items, s),
        pool_add(items, s).contains(s),
{
    if !items.contains(s) {
        assert(items.push(s)[items.len() as int] == s);
    }
}

/// In a pool without repetition, the index at which a string is found is the
/// only one at which it stands: two additions of one string give one index.
pub proof fn lemma_index_unique(items: Seq<Seq<char>>, i: int, j: int)
    requires
        items.no_duplicates(),
        0 <= i < items.len(),
        0 <= j < items.len(),
        items[i] == items[j],
    ensures
        i == j,
{
}

} // verus!
