//! The small closed vocabularies of definitions: who may see a member, what
//! sort of type a type is, and the flag words.

use vstd::prelude::*;
use crate::codec::{
    holds_at, laid, le32, le8, lemma_holds_at_concat, lemma_le_len, lemma_overlay_concat,
    lemma_parse_u32_at, lemma_parse_u8_at, measured, overlay, parse_nz, parse_u32, parse_u8, parsed,
    put_u32, put_u8, take_nz, take_u32, take_u8,
};
use crate::error::Error;
use crate::index::{group_index, TypeIndex, types};

verus! {

/// Who may see a member.
#[derive(Debug, Clone, Copy, PartialEq, Eq, Hash)]
pub enum Visibility {
    Public,
    Protected,
    Private,
}

/// The byte that stands for a visibility.
pub open spec fn visibility_tag(v: Visibility) -> u8 {
    match v {
        Visibility::Public => 0,
        Visibility::Protected => 1,
        Visibility::Private => 2,
    }
}

/// A visibility, as bytes.
pub open spec fn visibility_wire(v: Visibility) -> Seq<u8> {
    le8(visibility_tag(v))
}

/// The error that a byte which stands for no visibility is answered with.
pub open spec fn visibility_error() -> Error {
    Error::BadInput { err: "unknown visibility" }
}

/// The visibility at `pos`, and the position after it.
pub open spec fn parse_visibility(bytes: Seq<u8>, pos: int) -> Result<(Visibility, int), Error> {
    match parse_u8(bytes, pos) {
        Ok((tag, to)) => if tag == 0 {
            Ok((Visibility::Public, to))
        } else if tag == 1 {
            Ok((Visibility::Protected, to))
        } else if tag == 2 {
            Ok((Visibility::Private, to))
        } else {
            Err(visibility_error())
        },
        Err(e) => Err(e),
    }
}

/// Decodes the visibility at `pos`.
pub fn take_visibility(bytes: &[u8], pos: usize) -> (r: Result<(Visibility, usize), Error>)
    ensures
        parsed(parse_visibility(bytes@, pos as int), r),
{
    let (tag, to) = take_u8(bytes, pos)?;
    if tag == 0 {
        Ok((Visibility::Public, to))
    } else if tag == 1 {
        Ok((Visibility::Protected, to))
    } else if tag == 2 {
        Ok((Visibility::Private, to))
    } else {
        Err(Error::BadInput { err: "unknown visibility" })
    }
}

/// Lays a visibility over the buffer at `pos`.
pub(crate) fn put_visibility(
    bytes: &mut [u8],
    pos: usize,
    v: &Visibility,
) -> (r: Result<usize, Error>)
    requires
        pos + 1 <= old(bytes)@.len(),
    ensures
        laid(old(bytes)@, pos as int, visibility_wire(*v), r, final(bytes)@),
{
    let tag: u8 = match v {
        Visibility::Public => 0,
        Visibility::Protected => 1,
        Visibility::Private => 2,
    };
    put_u8(bytes, pos, tag)
}

/// A visibility that the buffer holds is read back.
pub proof fn lemma_parse_visibility_at(bytes: Seq<u8>, pos: int, v: Visibility)
    requires
        holds_at(bytes, pos, visibility_wire(v)),
    ensures
        visibility_wire(v).len() == 1,
        parse_visibility(bytes, pos) == Ok::<(Visibility, int), Error>((v, pos + 1)),
{
    lemma_parse_u8_at(bytes, pos, visibility_tag(v));
}

/// What sort of type a type is, and the type it is built from, if any.
#[derive(Debug, Clone, Copy, PartialEq, Eq, Hash)]
pub enum TypeKind {
    Primitive,
    Class,
    Ref(TypeIndex),
    WeakRef(TypeIndex),
    Array(TypeIndex),
    StaticArray { element_type: TypeIndex, size: u32 },
    ScriptRef(TypeIndex),
}

/// The byte that stands for a sort of type.
pub open spec fn type_kind_tag(k: TypeKind) -> u8 {
    match k {
        TypeKind::Primitive => 0,
        TypeKind::Class => 1,
        TypeKind::Ref(_) => 2,
        TypeKind::WeakRef(_) => 3,
        TypeKind::Array(_) => 4,
        TypeKind::StaticArray { .. } => 5,
        TypeKind::ScriptRef(_) => 6,
    }
}

/// What follows the tag of a sort of type.
pub open spec fn type_kind_rest(k: TypeKind) -> Seq<u8> {
    match k {
        TypeKind::Primitive => Seq::empty(),
        TypeKind::Class => Seq::empty(),
        TypeKind::Ref(t) => le32(t@),
        TypeKind::WeakRef(t) => le32(t@),
        TypeKind::Array(t) => le32(t@),
        TypeKind::StaticArray { element_type, size } => le32(element_type@) + le32(size),
        TypeKind::ScriptRef(t) => le32(t@),
    }
}

/// A sort of type, as bytes.
pub open spec fn type_kind_wire(k: TypeKind) -> Seq<u8> {
    le8(type_kind_tag(k)) + type_kind_rest(k)
}

/// Whether the type that the sort is built from is not named by zero.
pub open spec fn type_kind_wf(k: TypeKind) -> bool {
    match k {
        TypeKind::Primitive => true,
        TypeKind::Class => true,
        TypeKind::Ref(t) => t@ != 0,
        TypeKind::WeakRef(t) => t@ != 0,
        TypeKind::Array(t) => t@ != 0,
        TypeKind::StaticArray { element_type, size } => element_type@ != 0,
        TypeKind::ScriptRef(t) => t@ != 0,
    }
}

/// The error that a byte which stands for no sort of type is answered with.
pub open spec fn type_kind_error() -> Error {
    Error::BadInput { err: "unknown type kind" }
}

/// The sort of type with the given tag that is built from `t`.
pub open spec fn type_kind_of(tag: u8, t: TypeIndex) -> TypeKind {
    if tag == 2 {
        TypeKind::Ref(t)
    } else if tag == 3 {
        TypeKind::WeakRef(t)
    } else if tag == 4 {
        TypeKind::Array(t)
    } else {
        TypeKind::ScriptRef(t)
    }
}

/// The sort of type at `pos`, and the position after it.
pub open spec fn parse_type_kind(bytes: Seq<u8>, pos: int) -> Result<(TypeKind, int), Error> {
    match parse_u8(bytes, pos) {
        Ok((tag, to)) => if tag == 0 {
            Ok((TypeKind::Primitive, to))
        } else if tag == 1 {
            Ok((TypeKind::Class, to))
        } else if tag == 5 {
            match parse_nz::<types::Type>(bytes, to) {
                Ok((element_type, n1)) => match parse_u32(bytes, n1) {
                    Ok((size, n2)) => Ok((TypeKind::StaticArray { element_type, size }, n2)),
                    Err(e) => Err(e),
                },
                Err(e) => Err(e),
            }
        } else if tag == 2 || tag == 3 || tag == 4 || tag == 6 {
            match parse_nz::<types::Type>(bytes, to) {
                Ok((t, n1)) => Ok((type_kind_of(tag, t), n1)),
                Err(e) => Err(e),
            }
        } else {
            Err(type_kind_error())
        },
        Err(e) => Err(e),
    }
}

/// Decodes the sort of type at `pos`.
pub fn take_type_kind(bytes: &[u8], pos: usize) -> (r: Result<(TypeKind, usize), Error>)
    ensures
        parsed(parse_type_kind(bytes@, pos as int), r),
{
    let (tag, to) = take_u8(bytes, pos)?;
    if tag == 0 {
        Ok((TypeKind::Primitive, to))
    } else if tag == 1 {
        Ok((TypeKind::Class, to))
    } else if tag == 5 {
        let (element_type, n1) = take_nz::<types::Type>(bytes, to)?;
        let (size, n2) = take_u32(bytes, n1)?;
        Ok((TypeKind::StaticArray { element_type, size }, n2))
    } else if tag == 2 {
        let (t, n1) = take_nz::<types::Type>(bytes, to)?;
        Ok((TypeKind::Ref(t), n1))
    } else if tag == 3 {
        let (t, n1) = take_nz::<types::Type>(bytes, to)?;
        Ok((TypeKind::WeakRef(t), n1))
    } else if tag == 4 {
        let (t, n1) = take_nz::<types::Type>(bytes, to)?;
        Ok((TypeKind::Array(t), n1))
    } else if tag == 6 {
        let (t, n1) = take_nz::<types::Type>(bytes, to)?;
        Ok((TypeKind::ScriptRef(t), n1))
    } else {
        Err(Error::BadInput { err: "unknown type kind" })
    }
}

/// The number of bytes that a sort of type takes.
pub fn measure_type_kind(k: &TypeKind) -> (r: Option<u32>)
    ensures
        r == measured(true, type_kind_wire(*k).len()),
{
    proof {
        lemma_le_len();
    }
    match k {
        TypeKind::Primitive => Some(1),
        TypeKind::Class => Some(1),
        TypeKind::Ref(_) => Some(5),
        TypeKind::WeakRef(_) => Some(5),
        TypeKind::Array(_) => Some(5),
        TypeKind::StaticArray { .. } => Some(9),
        TypeKind::ScriptRef(_) => Some(5),
    }
}

/// Lays a sort of type over the buffer at `pos`, where there is room for it.
pub(crate) fn put_type_kind(bytes: &mut [u8], pos: usize, k: &TypeKind) -> (r: Result<usize, Error>)
    requires
        pos + type_kind_wire(*k).len() <= old(bytes)@.len(),
    ensures
        laid(old(bytes)@, pos as int, type_kind_wire(*k), r, final(bytes)@),
{
    proof {
        lemma_le_len();
    }
    let tag: u8 = match k {
        TypeKind::Primitive => 0,
        TypeKind::Class => 1,
        TypeKind::Ref(_) => 2,
        TypeKind::WeakRef(_) => 3,
        TypeKind::Array(_) => 4,
        TypeKind::StaticArray { .. } => 5,
        TypeKind::ScriptRef(_) => 6,
    };
    let at = put_u8(bytes, pos, tag)?;
    let ghost tagged = bytes@;
    let end = match k {
        TypeKind::Primitive => at,
        TypeKind::Class => at,
        TypeKind::Ref(t) => put_u32(bytes, at, t.value())?,
        TypeKind::WeakRef(t) => put_u32(bytes, at, t.value())?,
        TypeKind::Array(t) => put_u32(bytes, at, t.value())?,
        TypeKind::StaticArray { element_type, size } => {
            let mid = put_u32(bytes, at, element_type.value())?;
            let end = put_u32(bytes, mid, *size)?;
            proof {
                lemma_overlay_concat(tagged, at as int, le32(element_type@), le32(*size));
            }
            end
        },
        TypeKind::ScriptRef(t) => put_u32(bytes, at, t.value())?,
    };
    proof {
        if type_kind_rest(*k).len() == 0 {
            assert(overlay(tagged, at as int, type_kind_rest(*k)) =~= tagged);
        }
        lemma_overlay_concat(old(bytes)@, pos as int, le8(type_kind_tag(*k)), type_kind_rest(*k));
    }
    Ok(end)
}

/// A sort of type that the buffer holds is read back.
pub proof fn lemma_parse_type_kind_at(bytes: Seq<u8>, pos: int, k: TypeKind)
    requires
        holds_at(bytes, pos, type_kind_wire(k)),
        type_kind_wf(k),
    ensures
        parse_type_kind(bytes, pos) == Ok::<(TypeKind, int), Error>(
            (k, pos + type_kind_wire(k).len()),
        ),
{
    broadcast use group_index;

    lemma_le_len();
    lemma_holds_at_concat(bytes, pos, le8(type_kind_tag(k)), type_kind_rest(k));
    lemma_parse_u8_at(bytes, pos, type_kind_tag(k));
    match k {
        TypeKind::Primitive => {},
        TypeKind::Class => {},
        TypeKind::Ref(t) => {
            lemma_parse_u32_at(bytes, pos + 1, t@);
        },
        TypeKind::WeakRef(t) => {
            lemma_parse_u32_at(bytes, pos + 1, t@);
        },
        TypeKind::Array(t) => {
            lemma_parse_u32_at(bytes, pos + 1, t@);
        },
        TypeKind::StaticArray { element_type, size } => {
            lemma_holds_at_concat(bytes, pos + 1, le32(element_type@), le32(size));
            lemma_parse_u32_at(bytes, pos + 1, element_type@);
            lemma_parse_u32_at(bytes, pos + 5, size);
        },
        TypeKind::ScriptRef(t) => {
            lemma_parse_u32_at(bytes, pos + 1, t@);
        },
    }
}

/// What is decoded as a sort of type is well formed.
pub proof fn lemma_parse_type_kind_wf(bytes: Seq<u8>, pos: int)
    requires
        parse_type_kind(bytes, pos) is Ok,
    ensures
        type_kind_wf(parse_type_kind(bytes, pos)->Ok_0.0),
{
    broadcast use group_index;

}

/// The flag word of a class.
#[derive(Debug, Clone, Copy, PartialEq, Eq, Hash)]
pub struct ClassFlags {
    pub bits: u16,
}

impl ClassFlags {
    /// The flag word with the given bits.
    pub fn new(bits: u16) -> (r: Self)
        ensures
            r.bits == bits,
    {
        ClassFlags { bits }
    }

    /// The flag word with the bits of `mask` switched on or off.
    pub open spec fn spec_with(self, mask: u16, on: bool) -> Self {
        if on {
            ClassFlags { bits: self.bits | mask }
        } else {
            ClassFlags { bits: self.bits & !mask }
        }
    }

    /// The flag word with the bits of `mask` switched on or off.
    #[verifier::when_used_as_spec(spec_with)]
    pub fn with(self, mask: u16, on: bool) -> (r: Self)
        ensures
            r == self.spec_with(mask, on),
    {
        if on {
            ClassFlags { bits: self.bits | mask }
        } else {
            ClassFlags { bits: self.bits & !mask }
        }
    }

    /// Whether the class is implemented by the engine.
    pub open spec fn spec_is_native(&self) -> bool {
        self.bits & 0x1 != 0
    }

    /// Whether the class is implemented by the engine.
    #[verifier::when_used_as_spec(spec_is_native)]
    pub fn is_native(&self) -> (b: bool)
        ensures
            b == self.spec_is_native(),
    {
        self.bits & 0x1 != 0
    }

    /// Whether the class is abstract.
    pub open spec fn spec_is_abstract(&self) -> bool {
        self.bits & 0x2 != 0
    }

    /// Whether the class is abstract.
    #[verifier::when_used_as_spec(spec_is_abstract)]
    pub fn is_abstract(&self) -> (b: bool)
        ensures
            b == self.spec_is_abstract(),
    {
        self.bits & 0x2 != 0
    }

    /// Whether the class is final.
    pub open spec fn spec_is_final(&self) -> bool {
        self.bits & 0x4 != 0
    }

    /// Whether the class is final.
    #[verifier::when_used_as_spec(spec_is_final)]
    pub fn is_final(&self) -> (b: bool)
        ensures
            b == self.spec_is_final(),
    {
        self.bits & 0x4 != 0
    }

    /// Whether the class is a struct.
    pub open spec fn spec_is_struct(&self) -> bool {
        self.bits & 0x8 != 0
    }

    /// Whether the class is a struct.
    #[verifier::when_used_as_spec(spec_is_struct)]
    pub fn is_struct(&self) -> (b: bool)
        ensures
            b == self.spec_is_struct(),
    {
        self.bits & 0x8 != 0
    }

    /// Whether a list of functions follows.
    pub open spec fn spec_has_functions(&self) -> bool {
        self.bits & 0x10 != 0
    }

    /// Whether a list of functions follows.
    #[verifier::when_used_as_spec(spec_has_functions)]
    pub fn has_functions(&self) -> (b: bool)
        ensures
            b == self.spec_has_functions(),
    {
        self.bits & 0x10 != 0
    }

    /// Whether a list of fields follows.
    pub open spec fn spec_has_fields(&self) -> bool {
        self.bits & 0x20 != 0
    }

    /// Whether a list of fields follows.
    #[verifier::when_used_as_spec(spec_has_fields)]
    pub fn has_fields(&self) -> (b: bool)
        ensures
            b == self.spec_has_fields(),
    {
        self.bits & 0x20 != 0
    }

    /// Whether the class is import only.
    pub open spec fn spec_is_import_only(&self) -> bool {
        self.bits & 0x40 != 0
    }

    /// Whether the class is import only.
    #[verifier::when_used_as_spec(spec_is_import_only)]
    pub fn is_import_only(&self) -> (b: bool)
        ensures
            b == self.spec_is_import_only(),
    {
        self.bits & 0x40 != 0
    }

    /// Whether the class is test only.
    pub open spec fn spec_is_test_only(&self) -> bool {
        self.bits & 0x80 != 0
    }

    /// Whether the class is test only.
    #[verifier::when_used_as_spec(spec_is_test_only)]
    pub fn is_test_only(&self) -> (b: bool)
        ensures
            b == self.spec_is_test_only(),
    {
        self.bits & 0x80 != 0
    }

    /// Whether a list of overrides follows.
    pub open spec fn spec_has_overrides(&self) -> bool {
        self.bits & 0x100 != 0
    }

    /// Whether a list of overrides follows.
    #[verifier::when_used_as_spec(spec_has_overrides)]
    pub fn has_overrides(&self) -> (b: bool)
        ensures
            b == self.spec_has_overrides(),
    {
        self.bits & 0x100 != 0
    }
}

/// The flag word of a field.
#[derive(Debug, Clone, Copy, PartialEq, Eq, Hash)]
pub struct FieldFlags {
    pub bits: u16,
}

impl FieldFlags {
    /// The flag word with the given bits.
    pub fn new(bits: u16) -> (r: Self)
        ensures
            r.bits == bits,
    {
        FieldFlags { bits }
    }

    /// The flag word with the bits of `mask` switched on or off.
    pub open spec fn spec_with(self, mask: u16, on: bool) -> Self {
        if on {
            FieldFlags { bits: self.bits | mask }
        } else {
            FieldFlags { bits: self.bits & !mask }
        }
    }

    /// The flag word with the bits of `mask` switched on or off.
    #[verifier::when_used_as_spec(spec_with)]
    pub fn with(self, mask: u16, on: bool) -> (r: Self)
        ensures
            r == self.spec_with(mask, on),
    {
        if on {
            FieldFlags { bits: self.bits | mask }
        } else {
            FieldFlags { bits: self.bits & !mask }
        }
    }

    /// Whether the field is implemented by the engine.
    pub open spec fn spec_is_native(&self) -> bool {
        self.bits & 0x1 != 0
    }

    /// Whether the field is implemented by the engine.
    #[verifier::when_used_as_spec(spec_is_native)]
    pub fn is_native(&self) -> (b: bool)
        ensures
            b == self.spec_is_native(),
    {
        self.bits & 0x1 != 0
    }

    /// Whether the field is editable.
    pub open spec fn spec_is_editable(&self) -> bool {
        self.bits & 0x2 != 0
    }

    /// Whether the field is editable.
    #[verifier::when_used_as_spec(spec_is_editable)]
    pub fn is_editable(&self) -> (b: bool)
        ensures
            b == self.spec_is_editable(),
    {
        self.bits & 0x2 != 0
    }

    /// Whether the field is inline.
    pub open spec fn spec_is_inline(&self) -> bool {
        self.bits & 0x4 != 0
    }

    /// Whether the field is inline.
    #[verifier::when_used_as_spec(spec_is_inline)]
    pub fn is_inline(&self) -> (b: bool)
        ensures
            b == self.spec_is_inline(),
    {
        self.bits & 0x4 != 0
    }

    /// Whether the field is constant.
    pub open spec fn spec_is_const(&self) -> bool {
        self.bits & 0x8 != 0
    }

    /// Whether the field is constant.
    #[verifier::when_used_as_spec(spec_is_const)]
    pub fn is_const(&self) -> (b: bool)
        ensures
            b == self.spec_is_const(),
    {
        self.bits & 0x8 != 0
    }

    /// Whether the field is replicated.
    pub open spec fn spec_is_replicated(&self) -> bool {
        self.bits & 0x10 != 0
    }

    /// Whether the field is replicated.
    #[verifier::when_used_as_spec(spec_is_replicated)]
    pub fn is_replicated(&self) -> (b: bool)
        ensures
            b == self.spec_is_replicated(),
    {
        self.bits & 0x10 != 0
    }

    /// Whether a hint follows.
    pub open spec fn spec_has_hint(&self) -> bool {
        self.bits & 0x20 != 0
    }

    /// Whether a hint follows.
    #[verifier::when_used_as_spec(spec_has_hint)]
    pub fn has_hint(&self) -> (b: bool)
        ensures
            b == self.spec_has_hint(),
    {
        self.bits & 0x20 != 0
    }

    /// Whether the field is editable per instance.
    pub open spec fn spec_is_inst_editable(&self) -> bool {
        self.bits & 0x40 != 0
    }

    /// Whether the field is editable per instance.
    #[verifier::when_used_as_spec(spec_is_inst_editable)]
    pub fn is_inst_editable(&self) -> (b: bool)
        ensures
            b == self.spec_is_inst_editable(),
    {
        self.bits & 0x40 != 0
    }

    /// Whether the field has a default.
    pub open spec fn spec_has_default(&self) -> bool {
        self.bits & 0x80 != 0
    }

    /// Whether the field has a default.
    #[verifier::when_used_as_spec(spec_has_default)]
    pub fn has_default(&self) -> (b: bool)
        ensures
            b == self.spec_has_default(),
    {
        self.bits & 0x80 != 0
    }

    /// Whether the field is persistent.
    pub open spec fn spec_is_persistent(&self) -> bool {
        self.bits & 0x100 != 0
    }

    /// Whether the field is persistent.
    #[verifier::when_used_as_spec(spec_is_persistent)]
    pub fn is_persistent(&self) -> (b: bool)
        ensures
            b == self.spec_is_persistent(),
    {
        self.bits & 0x100 != 0
    }

    /// Whether the field is test only.
    pub open spec fn spec_is_test_only(&self) -> bool {
        self.bits & 0x200 != 0
    }

    /// Whether the field is test only.
    #[verifier::when_used_as_spec(spec_is_test_only)]
    pub fn is_test_only(&self) -> (b: bool)
        ensures
            b == self.spec_is_test_only(),
    {
        self.bits & 0x200 != 0
    }

    /// Whether the field is browsable.
    pub open spec fn spec_is_browsable(&self) -> bool {
        self.bits & 0x400 != 0
    }

    /// Whether the field is browsable.
    #[verifier::when_used_as_spec(spec_is_browsable)]
    pub fn is_browsable(&self) -> (b: bool)
        ensures
            b == self.spec_is_browsable(),
    {
        self.bits & 0x400 != 0
    }
}

/// The flag word of a function.
#[derive(Debug, Clone, Copy, PartialEq, Eq, Hash)]
pub struct FunctionFlags {
    pub bits: u32,
}

impl FunctionFlags {
    /// The flag word with the given bits.
    pub fn new(bits: u32) -> (r: Self)
        ensures
            r.bits == bits,
    {
        FunctionFlags { bits }
    }

    /// The flag word with the bits of `mask` switched on or off.
    pub open spec fn spec_with(self, mask: u32, on: bool) -> Self {
        if on {
            FunctionFlags { bits: self.bits | mask }
        } else {
            FunctionFlags { bits: self.bits & !mask }
        }
    }

    /// The flag word with the bits of `mask` switched on or off.
    #[verifier::when_used_as_spec(spec_with)]
    pub fn with(self, mask: u32, on: bool) -> (r: Self)
        ensures
            r == self.spec_with(mask, on),
    {
        if on {
            FunctionFlags { bits: self.bits | mask }
        } else {
            FunctionFlags { bits: self.bits & !mask }
        }
    }

    /// Whether the function is static.
    pub open spec fn spec_is_static(&self) -> bool {
        self.bits & 0x1 != 0
    }

    /// Whether the function is static.
    #[verifier::when_used_as_spec(spec_is_static)]
    pub fn is_static(&self) -> (b: bool)
        ensures
            b == self.spec_is_static(),
    {
        self.bits & 0x1 != 0
    }

    /// Whether the function is exec.
    pub open spec fn spec_is_exec(&self) -> bool {
        self.bits & 0x2 != 0
    }

    /// Whether the function is exec.
    #[verifier::when_used_as_spec(spec_is_exec)]
    pub fn is_exec(&self) -> (b: bool)
        ensures
            b == self.spec_is_exec(),
    {
        self.bits & 0x2 != 0
    }

    /// Whether the function is a timer.
    pub open spec fn spec_is_timer(&self) -> bool {
        self.bits & 0x4 != 0
    }

    /// Whether the function is a timer.
    #[verifier::when_used_as_spec(spec_is_timer)]
    pub fn is_timer(&self) -> (b: bool)
        ensures
            b == self.spec_is_timer(),
    {
        self.bits & 0x4 != 0
    }

    /// Whether the function is final.
    pub open spec fn spec_is_final(&self) -> bool {
        self.bits & 0x8 != 0
    }

    /// Whether the function is final.
    #[verifier::when_used_as_spec(spec_is_final)]
    pub fn is_final(&self) -> (b: bool)
        ensures
            b == self.spec_is_final(),
    {
        self.bits & 0x8 != 0
    }

    /// Whether the function is implemented by the engine, and no source
    /// reference follows.
    pub open spec fn spec_is_native(&self) -> bool {
        self.bits & 0x10 != 0
    }

    /// Whether the function is implemented by the engine, and no source
    /// reference follows.
    #[verifier::when_used_as_spec(spec_is_native)]
    pub fn is_native(&self) -> (b: bool)
        ensures
            b == self.spec_is_native(),
    {
        self.bits & 0x10 != 0
    }

    /// Whether the function is a callback.
    pub open spec fn spec_is_callback(&self) -> bool {
        self.bits & 0x40 != 0
    }

    /// Whether the function is a callback.
    #[verifier::when_used_as_spec(spec_is_callback)]
    pub fn is_callback(&self) -> (b: bool)
        ensures
            b == self.spec_is_callback(),
    {
        self.bits & 0x40 != 0
    }

    /// Whether an operator number follows.
    pub open spec fn spec_is_operator(&self) -> bool {
        self.bits & 0x80 != 0
    }

    /// Whether an operator number follows.
    #[verifier::when_used_as_spec(spec_is_operator)]
    pub fn is_operator(&self) -> (b: bool)
        ensures
            b == self.spec_is_operator(),
    {
        self.bits & 0x80 != 0
    }

    /// Whether a return type follows.
    pub open spec fn spec_has_return_value(&self) -> bool {
        self.bits & 0x100 != 0
    }

    /// Whether a return type follows.
    #[verifier::when_used_as_spec(spec_has_return_value)]
    pub fn has_return_value(&self) -> (b: bool)
        ensures
            b == self.spec_has_return_value(),
    {
        self.bits & 0x100 != 0
    }

    /// Whether a base method follows.
    pub open spec fn spec_has_base_method(&self) -> bool {
        self.bits & 0x200 != 0
    }

    /// Whether a base method follows.
    #[verifier::when_used_as_spec(spec_has_base_method)]
    pub fn has_base_method(&self) -> (b: bool)
        ensures
            b == self.spec_has_base_method(),
    {
        self.bits & 0x200 != 0
    }

    /// Whether a list of parameters follows.
    pub open spec fn spec_has_parameters(&self) -> bool {
        self.bits & 0x400 != 0
    }

    /// Whether a list of parameters follows.
    #[verifier::when_used_as_spec(spec_has_parameters)]
    pub fn has_parameters(&self) -> (b: bool)
        ensures
            b == self.spec_has_parameters(),
    {
        self.bits & 0x400 != 0
    }

    /// Whether a list of locals follows.
    pub open spec fn spec_has_locals(&self) -> bool {
        self.bits & 0x800 != 0
    }

    /// Whether a list of locals follows.
    #[verifier::when_used_as_spec(spec_has_locals)]
    pub fn has_locals(&self) -> (b: bool)
        ensures
            b == self.spec_has_locals(),
    {
        self.bits & 0x800 != 0
    }

    /// Whether a body follows.
    pub open spec fn spec_has_body(&self) -> bool {
        self.bits & 0x1000 != 0
    }

    /// Whether a body follows.
    #[verifier::when_used_as_spec(spec_has_body)]
    pub fn has_body(&self) -> (b: bool)
        ensures
            b == self.spec_has_body(),
    {
        self.bits & 0x1000 != 0
    }

    /// Whether a cast cost follows.
    pub open spec fn spec_is_cast(&self) -> bool {
        self.bits & 0x2000 != 0
    }

    /// Whether a cast cost follows.
    #[verifier::when_used_as_spec(spec_is_cast)]
    pub fn is_cast(&self) -> (b: bool)
        ensures
            b == self.spec_is_cast(),
    {
        self.bits & 0x2000 != 0
    }

    /// Whether the function is an implicit cast.
    pub open spec fn spec_is_implicit_cast(&self) -> bool {
        self.bits & 0x4000 != 0
    }

    /// Whether the function is an implicit cast.
    #[verifier::when_used_as_spec(spec_is_implicit_cast)]
    pub fn is_implicit_cast(&self) -> (b: bool)
        ensures
            b == self.spec_is_implicit_cast(),
    {
        self.bits & 0x4000 != 0
    }

    /// Whether the function is constant.
    pub open spec fn spec_is_const(&self) -> bool {
        self.bits & 0x40000 != 0
    }

    /// Whether the function is constant.
    #[verifier::when_used_as_spec(spec_is_const)]
    pub fn is_const(&self) -> (b: bool)
        ensures
            b == self.spec_is_const(),
    {
        self.bits & 0x40000 != 0
    }

    /// Whether the function is thread safe.
    pub open spec fn spec_is_thread_safe(&self) -> bool {
        self.bits & 0x80000 != 0
    }

    /// Whether the function is thread safe.
    #[verifier::when_used_as_spec(spec_is_thread_safe)]
    pub fn is_thread_safe(&self) -> (b: bool)
        ensures
            b == self.spec_is_thread_safe(),
    {
        self.bits & 0x80000 != 0
    }

    /// Whether the function is a quest function.
    pub open spec fn spec_is_quest(&self) -> bool {
        self.bits & 0x100000 != 0
    }

    /// Whether the function is a quest function.
    #[verifier::when_used_as_spec(spec_is_quest)]
    pub fn is_quest(&self) -> (b: bool)
        ensures
            b == self.spec_is_quest(),
    {
        self.bits & 0x100000 != 0
    }
}

/// The flag word of a parameter.
#[derive(Debug, Clone, Copy, PartialEq, Eq, Hash)]
pub struct ParameterFlags {
    pub bits: u8,
}

impl ParameterFlags {
    /// The flag word with the given bits.
    pub fn new(bits: u8) -> (r: Self)
        ensures
            r.bits == bits,
    {
        ParameterFlags { bits }
    }

    /// The flag word with the bits of `mask` switched on or off.
    pub open spec fn spec_with(self, mask: u8, on: bool) -> Self {
        if on {
            ParameterFlags { bits: self.bits | mask }
        } else {
            ParameterFlags { bits: self.bits & !mask }
        }
    }

    /// The flag word with the bits of `mask` switched on or off.
    #[verifier::when_used_as_spec(spec_with)]
    pub fn with(self, mask: u8, on: bool) -> (r: Self)
        ensures
            r == self.spec_with(mask, on),
    {
        if on {
            ParameterFlags { bits: self.bits | mask }
        } else {
            ParameterFlags { bits: self.bits & !mask }
        }
    }

    /// Whether the parameter is optional.
    pub open spec fn spec_is_optional(&self) -> bool {
        self.bits & 0x1 != 0
    }

    /// Whether the parameter is optional.
    #[verifier::when_used_as_spec(spec_is_optional)]
    pub fn is_optional(&self) -> (b: bool)
        ensures
            b == self.spec_is_optional(),
    {
        self.bits & 0x1 != 0
    }

    /// Whether the parameter is an out parameter.
    pub open spec fn spec_is_out(&self) -> bool {
        self.bits & 0x2 != 0
    }

    /// Whether the parameter is an out parameter.
    #[verifier::when_used_as_spec(spec_is_out)]
    pub fn is_out(&self) -> (b: bool)
        ensures
            b == self.spec_is_out(),
    {
        self.bits & 0x2 != 0
    }

    /// Whether the parameter short-circuits.
    pub open spec fn spec_is_short_circuit(&self) -> bool {
        self.bits & 0x4 != 0
    }

    /// Whether the parameter short-circuits.
    #[verifier::when_used_as_spec(spec_is_short_circuit)]
    pub fn is_short_circuit(&self) -> (b: bool)
        ensures
            b == self.spec_is_short_circuit(),
    {
        self.bits & 0x4 != 0
    }

    /// Whether the parameter is constant.
    pub open spec fn spec_is_const(&self) -> bool {
        self.bits & 0x8 != 0
    }

    /// Whether the parameter is constant.
    #[verifier::when_used_as_spec(spec_is_const)]
    pub fn is_const(&self) -> (b: bool)
        ensures
            b == self.spec_is_const(),
    {
        self.bits & 0x8 != 0
    }
}

/// The flag word of a local.
#[derive(Debug, Clone, Copy, PartialEq, Eq, Hash)]
pub struct LocalFlags {
    pub bits: u8,
}

impl LocalFlags {
    /// The flag word with the given bits.
    pub fn new(bits: u8) -> (r: Self)
        ensures
            r.bits == bits,
    {
        LocalFlags { bits }
    }

    /// The flag word with the bits of `mask` switched on or off.
    pub open spec fn spec_with(self, mask: u8, on: bool) -> Self {
        if on {
            LocalFlags { bits: self.bits | mask }
        } else {
            LocalFlags { bits: self.bits & !mask }
        }
    }

    /// The flag word with the bits of `mask` switched on or off.
    #[verifier::when_used_as_spec(spec_with)]
    pub fn with(self, mask: u8, on: bool) -> (r: Self)
        ensures
            r == self.spec_with(mask, on),
    {
        if on {
            LocalFlags { bits: self.bits | mask }
        } else {
            LocalFlags { bits: self.bits & !mask }
        }
    }

    /// Whether the local is constant.
    pub open spec fn spec_is_const(&self) -> bool {
        self.bits & 0x1 != 0
    }

    /// Whether the local is constant.
    #[verifier::when_used_as_spec(spec_is_const)]
    pub fn is_const(&self) -> (b: bool)
        ensures
            b == self.spec_is_const(),
    {
        self.bits & 0x1 != 0
    }
}

} // verus!
