//! Typed handles into the pools of a bundle.
//!
//! Every handle is a 32-bit number; the marker type only keeps a handle of
//! one pool from being used with another.

use core::marker::PhantomData;
use vstd::prelude::*;

pub mod types;

verus! {

/// A handle into a string pool. Every number, zero too, is a handle.
#[derive(Debug, PartialEq, Eq, Hash)]
pub struct PoolIndex<A> {
    value: u32,
    phantom: PhantomData<A>,
}

/// A handle into the definition pool. It is never zero: slot zero of that
/// pool is reserved.
#[derive(Debug, PartialEq, Eq, Hash)]
pub struct NzPoolIndex<A> {
    value: u32,
    phantom: PhantomData<A>,
}

/// A handle of a name.
pub type CNameIndex = PoolIndex<types::CName>;

/// A handle of a tuning-database identifier.
pub type TweakDbIndex = PoolIndex<types::TweakDbId>;

/// A handle of a resource path.
pub type ResourceIndex = PoolIndex<types::Resource>;

/// A handle of a string literal.
pub type StringIndex = PoolIndex<types::Text>;

/// A handle of a type.
pub type TypeIndex = NzPoolIndex<types::Type>;

/// A handle of a class.
pub type ClassIndex = NzPoolIndex<types::Class>;

/// A handle of a member of an enum.
pub type EnumValueIndex = NzPoolIndex<types::EnumValue>;

/// A handle of an enum.
pub type EnumIndex = NzPoolIndex<types::Enum>;

/// A handle of a function.
pub type FunctionIndex = NzPoolIndex<types::Function>;

/// A handle of a parameter.
pub type ParameterIndex = NzPoolIndex<types::Parameter>;

/// A handle of a local.
pub type LocalIndex = NzPoolIndex<types::Local>;

/// A handle of a field.
pub type FieldIndex = NzPoolIndex<types::Field>;

/// A handle of a source file.
pub type SourceFileIndex = NzPoolIndex<types::SourceFile>;

impl<A> Clone for PoolIndex<A> {
    fn clone(&self) -> (r: Self)
        ensures
            r == *self,
    {
        PoolIndex { value: self.value, phantom: PhantomData }
    }
}

impl<A> Copy for PoolIndex<A> {

}

impl<A> Clone for NzPoolIndex<A> {
    fn clone(&self) -> (r: Self)
        ensures
            r == *self,
    {
        proof {
            use_type_invariant(self);
        }
        NzPoolIndex { value: self.value, phantom: PhantomData }
    }
}

impl<A> Copy for NzPoolIndex<A> {

}

impl<A> View for PoolIndex<A> {
    type V = u32;

    closed spec fn view(&self) -> u32 {
        self.value
    }
}

impl<A> PoolIndex<A> {
    /// The handle with the number `value`.
    pub closed spec fn spec_new(value: u32) -> Self {
        PoolIndex { value, phantom: PhantomData }
    }

    /// The handle with the number `value`.
    #[verifier::when_used_as_spec(spec_new)]
    pub fn new(value: u32) -> (r: Self)
        ensures
            r == Self::spec_new(value),
            r@ == value,
    {
        PoolIndex { value, phantom: PhantomData }
    }

    /// The handle's number.
    pub fn value(self) -> (v: u32)
        ensures
            v == self@,
    {
        self.value
    }

    /// A handle made from a number has that number.
    pub broadcast proof fn lemma_view_of_new(value: u32)
        ensures
            (#[trigger] Self::spec_new(value))@ == value,
    {
    }

    /// A handle is determined by its number.
    pub broadcast proof fn lemma_new_of_view(self)
        ensures
            #[trigger] Self::spec_new(self@) == self,
    {
    }
}

impl<A> View for NzPoolIndex<A> {
    type V = u32;

    closed spec fn view(&self) -> u32 {
        self.value
    }
}

impl<A> NzPoolIndex<A> {
    #[verifier::type_invariant]
    closed spec fn nonzero(self) -> bool {
        self.value != 0
    }

    /// The handle with the number `value`; only for a `value` other than
    /// zero is it one that executable code can hold.
    pub closed spec fn spec_of(value: u32) -> Self {
        NzPoolIndex { value, phantom: PhantomData }
    }

    /// The handle with the number `value`, unless that is zero.
    pub fn new(value: u32) -> (r: Option<Self>)
        ensures
            r == if value == 0 { None } else { Some(Self::spec_of(value)) },
    {
        if value == 0 {
            None
        } else {
            Some(NzPoolIndex { value, phantom: PhantomData })
        }
    }

    /// The handle's number, which is not zero.
    pub fn value(self) -> (v: u32)
        ensures
            v == self@,
            v != 0,
    {
        proof {
            use_type_invariant(self);
        }
        self.value
    }

    /// A handle made from a number has that number.
    pub broadcast proof fn lemma_view_of_spec(value: u32)
        ensures
            (#[trigger] Self::spec_of(value))@ == value,
    {
    }

    /// A handle is determined by its number.
    pub broadcast proof fn lemma_spec_of_view(self)
        ensures
            #[trigger] Self::spec_of(self@) == self,
    {
    }
}

/// The number that stands for an optional handle on the wire: zero for none.
pub open spec fn opt_index_bits<A>(index: Option<NzPoolIndex<A>>) -> u32 {
    match index {
        Some(i) => i@,
        None => 0,
    }
}

/// The optional handle that a number stands for on the wire.
pub open spec fn opt_index_of<A>(bits: u32) -> Option<NzPoolIndex<A>> {
    if bits == 0 {
        None
    } else {
        Some(NzPoolIndex::<A>::spec_of(bits))
    }
}

/// Whether executable code can hold the optional handle.
pub open spec fn opt_index_wf<A>(index: Option<NzPoolIndex<A>>) -> bool {
    index matches Some(i) ==> i@ != 0
}

/// The number that stands for an optional handle on the wire.
pub fn opt_index_value<A>(index: Option<NzPoolIndex<A>>) -> (v: u32)
    ensures
        v == opt_index_bits(index),
{
    match index {
        Some(i) => i.value(),
        None => 0,
    }
}

pub broadcast group group_index {
    PoolIndex::lemma_view_of_new,
    PoolIndex::lemma_new_of_view,
    NzPoolIndex::lemma_view_of_spec,
    NzPoolIndex::lemma_spec_of_view,
}

} // verus!
