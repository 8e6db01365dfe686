//! The definitions that a bundle holds, and their encoding.
//!
//! A definition is written in two places: a header of twenty bytes in the
//! table of definitions, which names it, names its parent, says what kind it
//! is and where its payload lies; and the payload, whose layout depends on
//! the kind.

use vstd::prelude::*;
use crate::code::{
    code_encodable, code_wf, code_wire, FunctionBody, lemma_parse_code_at, lemma_parse_code_wf,
    measure_code, parse_code, put_code, take_code,
};
use crate::codec::{
    bool_bits, decoded, encoded, holds_at, i64_bits, laid, le16, le32, le64, le8,
    lemma_holds_at_concat, lemma_le_len, lemma_overlay_concat, lemma_parse_bool_at,
    lemma_parse_i64_at, lemma_parse_u16_at, lemma_parse_u32_at, lemma_parse_u64_at,
    lemma_parse_u8_at, measured, overlay, parse_bool, parse_i64, parse_nz, parse_opt_nz, parse_pool,
    parse_u16, parse_u32, parse_u64, parse_u8, parsed, put_bool, put_i64, put_u16, put_u32, put_u64,
    put_u8, take_bool, take_i64, take_nz, take_opt_nz, take_pool, take_u16, take_u32, take_u64,
    take_u8, zero_index_error,
};
use crate::error::Error;
use crate::flags::{
    ClassFlags, FieldFlags, FunctionFlags, lemma_parse_type_kind_at, lemma_parse_type_kind_wf,
    lemma_parse_visibility_at, LocalFlags, measure_type_kind, ParameterFlags, parse_type_kind,
    parse_visibility, put_type_kind, put_visibility, take_type_kind, take_visibility, type_kind_wf,
    type_kind_wire, TypeKind, Visibility, visibility_wire,
};
use crate::index::{
    ClassIndex, CNameIndex, EnumIndex, EnumValueIndex, FieldIndex, FunctionIndex, group_index,
    LocalIndex, NzPoolIndex, opt_index_bits, opt_index_of, opt_index_value, opt_index_wf,
    ParameterIndex, PoolIndex, SourceFileIndex, TypeIndex, types,
};
use crate::instr::InstrView;
use crate::list::{
    index_list_encodable, index_list_wf, index_list_wire, lemma_parse_index_list_at,
    lemma_parse_index_list_wf, measure_index_list, parse_index_list, put_index_list,
    take_index_list,
};
use crate::text::{
    hint_encodable, hint_wf, hint_wire, lemma_parse_hint_at, lemma_parse_hint_wf,
    lemma_parse_property_list_at, lemma_parse_property_list_wf, lemma_parse_str16_at,
    lemma_parse_str16_wf, measure_hint, measure_property_list, measure_str16, parse_hint,
    parse_property_list, parse_str16, Property, property_list_encodable, property_list_wf,
    property_list_wire, property_views, PropertyView, put_hint, put_property_list, put_str16,
    str16_encodable, str16_wf, str16_wire, take_hint, take_property_list, take_str16,
};

verus! {

/// A place in a source file.
#[derive(Debug, Clone, Copy, PartialEq, Eq)]
pub struct SourceReference {
    pub file: SourceFileIndex,
    pub line: u32,
}

/// A type.
#[derive(Debug, Clone, Copy, PartialEq, Eq)]
pub struct Type {
    pub name: CNameIndex,
    pub kind: TypeKind,
}

impl View for Type {
    type V = Type;

    open spec fn view(&self) -> Type {
        *self
    }
}

/// A class or a struct.
#[derive(Debug, Clone, PartialEq, Eq)]
pub struct Class {
    pub name: CNameIndex,
    pub visibility: Visibility,
    pub flags: ClassFlags,
    pub base: Option<ClassIndex>,
    pub functions: Vec<FunctionIndex>,
    pub fields: Vec<FieldIndex>,
    pub overrides: Vec<FieldIndex>,
}

/// What stands for a `Class` in contracts.
pub struct ClassView {
    pub name: CNameIndex,
    pub visibility: Visibility,
    pub flags: ClassFlags,
    pub base: Option<ClassIndex>,
    pub functions: Seq<FunctionIndex>,
    pub fields: Seq<FieldIndex>,
    pub overrides: Seq<FieldIndex>,
}

impl View for Class {
    type V = ClassView;

    open spec fn view(&self) -> ClassView {
        ClassView {
            name: self.name,
            visibility: self.visibility,
            flags: self.flags,
            base: self.base,
            functions: self.functions@,
            fields: self.fields@,
            overrides: self.overrides@,
        }
    }
}

/// A member of an enum.
#[derive(Debug, Clone, Copy, PartialEq, Eq)]
pub struct EnumMember {
    pub name: CNameIndex,
    pub enum_: EnumIndex,
    pub value: i64,
}

impl View for EnumMember {
    type V = EnumMember;

    open spec fn view(&self) -> EnumMember {
        *self
    }
}

/// An enum.
#[derive(Debug, Clone, PartialEq, Eq)]
pub struct Enum {
    pub name: CNameIndex,
    pub flags: u8,
    pub size: u8,
    pub members: Vec<EnumValueIndex>,
    pub is_native: bool,
}

/// What stands for an `Enum` in contracts.
pub struct EnumView {
    pub name: CNameIndex,
    pub flags: u8,
    pub size: u8,
    pub members: Seq<EnumValueIndex>,
    pub is_native: bool,
}

impl View for Enum {
    type V = EnumView;

    open spec fn view(&self) -> EnumView {
        EnumView {
            name: self.name,
            flags: self.flags,
            size: self.size,
            members: self.members@,
            is_native: self.is_native,
        }
    }
}

/// A function. Which of its parts are written is announced by its flags: a
/// part that the flags do not announce has to be empty.
#[derive(Debug, Clone, PartialEq)]
pub struct Function {
    pub name: CNameIndex,
    pub class: Option<ClassIndex>,
    pub visibility: Visibility,
    pub flags: FunctionFlags,
    pub source: Option<SourceReference>,
    pub return_type: Option<TypeIndex>,
    pub base_method: Option<FunctionIndex>,
    pub parameters: Vec<ParameterIndex>,
    pub locals: Vec<LocalIndex>,
    pub operator: Option<u32>,
    pub cast: Option<u8>,
    pub body: FunctionBody,
}

/// What stands for a `Function` in contracts.
pub struct FunctionView {
    pub name: CNameIndex,
    pub class: Option<ClassIndex>,
    pub visibility: Visibility,
    pub flags: FunctionFlags,
    pub source: Option<SourceReference>,
    pub return_type: Option<TypeIndex>,
    pub base_method: Option<FunctionIndex>,
    pub parameters: Seq<ParameterIndex>,
    pub locals: Seq<LocalIndex>,
    pub operator: Option<u32>,
    pub cast: Option<u8>,
    pub body: Seq<InstrView>,
}

impl View for Function {
    type V = FunctionView;

    open spec fn view(&self) -> FunctionView {
        FunctionView {
            name: self.name,
            class: self.class,
            visibility: self.visibility,
            flags: self.flags,
            source: self.source,
            return_type: self.return_type,
            base_method: self.base_method,
            parameters: self.parameters@,
            locals: self.locals@,
            operator: self.operator,
            cast: self.cast,
            body: self.body@,
        }
    }
}

/// A parameter of a function.
#[derive(Debug, Clone, Copy, PartialEq, Eq)]
pub struct Parameter {
    pub name: CNameIndex,
    pub function: FunctionIndex,
    pub type_: TypeIndex,
    pub flags: ParameterFlags,
}

impl View for Parameter {
    type V = Parameter;

    open spec fn view(&self) -> Parameter {
        *self
    }
}

/// A local variable of a function.
#[derive(Debug, Clone, Copy, PartialEq, Eq)]
pub struct Local {
    pub name: CNameIndex,
    pub function: FunctionIndex,
    pub type_: TypeIndex,
    pub flags: LocalFlags,
}

impl View for Local {
    type V = Local;

    open spec fn view(&self) -> Local {
        *self
    }
}

/// A field of a class. Its hint is written only where its flags announce
/// one, and has to be empty otherwise.
#[derive(Debug, Clone, PartialEq, Eq)]
pub struct Field {
    pub name: CNameIndex,
    pub class: ClassIndex,
    pub visibility: Visibility,
    pub type_: TypeIndex,
    pub flags: FieldFlags,
    pub hint: String,
    pub attributes: Vec<Property>,
    pub defaults: Vec<Property>,
}

/// What stands for a `Field` in contracts.
pub struct FieldView {
    pub name: CNameIndex,
    pub class: ClassIndex,
    pub visibility: Visibility,
    pub type_: TypeIndex,
    pub flags: FieldFlags,
    pub hint: Seq<char>,
    pub attributes: Seq<PropertyView>,
    pub defaults: Seq<PropertyView>,
}

impl View for Field {
    type V = FieldView;

    open spec fn view(&self) -> FieldView {
        FieldView {
            name: self.name,
            class: self.class,
            visibility: self.visibility,
            type_: self.type_,
            flags: self.flags,
            hint: self.hint@,
            attributes: property_views(self.attributes@),
            defaults: property_views(self.defaults@),
        }
    }
}

/// A source file.
#[derive(Debug, Clone, PartialEq, Eq)]
pub struct SourceFile {
    pub id: u32,
    pub path_hash: u64,
    pub path: String,
}

/// What stands for a `SourceFile` in contracts.
pub struct SourceFileView {
    pub id: u32,
    pub path_hash: u64,
    pub path: Seq<char>,
}

impl View for SourceFile {
    type V = SourceFileView;

    open spec fn view(&self) -> SourceFileView {
        SourceFileView { id: self.id, path_hash: self.path_hash, path: self.path@ }
    }
}

/// The header of a definition in the table of definitions.
#[derive(Debug, Clone, Copy, PartialEq, Eq)]
pub struct DefinitionHeader {
    pub name: CNameIndex,
    pub parent: u32,
    pub size: u32,
    pub offset: u32,
    pub kind: u8,
}

/// The number of bytes that a header takes in the table of definitions.
pub const HEADER_SIZE: u32 = 20;

/// The kind that the header of a type holds.
pub const KIND_TYPE: u8 = 0;

/// The kind that the header of a class holds.
pub const KIND_CLASS: u8 = 1;

/// The kind that the header of a member of an enum holds.
pub const KIND_ENUM_MEMBER: u8 = 2;

/// The kind that the header of an enum holds.
pub const KIND_ENUM: u8 = 3;

/// The kind that the header of a function holds.
pub const KIND_FUNCTION: u8 = 5;

/// The kind that the header of a parameter holds.
pub const KIND_PARAMETER: u8 = 6;

/// The kind that the header of a local holds.
pub const KIND_LOCAL: u8 = 7;

/// The kind that the header of a field holds.
pub const KIND_FIELD: u8 = 8;

/// The kind that the header of a source file holds.
pub const KIND_SOURCE_FILE: u8 = 9;

/// The header of a definition, as bytes.
pub open spec fn def_header_wire(v: DefinitionHeader) -> Seq<u8> {
    le32(v.name@) + le32(v.parent) + le32(v.size) + le32(v.offset) + le8(v.kind) + le8(0) + le16(0)
}

/// The header of a definition at `pos`, and the position after it.
pub open spec fn parse_def_header(
    bytes: Seq<u8>,
    pos: int,
) -> Result<(DefinitionHeader, int), Error> {
    let r0 = parse_pool::<types::CName>(bytes, pos);
    let (f0, n0) = r0->Ok_0;
    let r1 = parse_u32(bytes, n0);
    let (f1, n1) = r1->Ok_0;
    let r2 = parse_u32(bytes, n1);
    let (f2, n2) = r2->Ok_0;
    let r3 = parse_u32(bytes, n2);
    let (f3, n3) = r3->Ok_0;
    let r4 = parse_u8(bytes, n3);
    let (f4, n4) = r4->Ok_0;
    let r5 = parse_u8(bytes, n4);
    let (_, n5) = r5->Ok_0;
    let r6 = parse_u16(bytes, n5);
    let (_, n6) = r6->Ok_0;
    if r0 is Err {
        Err(r0->Err_0)
    } else if r1 is Err {
        Err(r1->Err_0)
    } else if r2 is Err {
        Err(r2->Err_0)
    } else if r3 is Err {
        Err(r3->Err_0)
    } else if r4 is Err {
        Err(r4->Err_0)
    } else if r5 is Err {
        Err(r5->Err_0)
    } else if r6 is Err {
        Err(r6->Err_0)
    } else {
        Ok((DefinitionHeader { name: f0, parent: f1, size: f2, offset: f3, kind: f4 }, n6))
    }
}

/// Decodes the header of a definition at `pos`; hands back the value and the
/// position after it.
pub fn take_def_header(bytes: &[u8], pos: usize) -> (r: Result<(DefinitionHeader, usize), Error>)
    ensures
        parsed(parse_def_header(bytes@, pos as int), r),
{
    let (f0, n0) = take_pool::<types::CName>(bytes, pos)?;
    let (f1, n1) = take_u32(bytes, n0)?;
    let (f2, n2) = take_u32(bytes, n1)?;
    let (f3, n3) = take_u32(bytes, n2)?;
    let (f4, n4) = take_u8(bytes, n3)?;
    let (_, n5) = take_u8(bytes, n4)?;
    let (_, n6) = take_u16(bytes, n5)?;
    Ok((DefinitionHeader { name: f0, parent: f1, size: f2, offset: f3, kind: f4 }, n6))
}

/// Lays the header of a definition over the buffer at `pos`, where there is
/// room for it.
pub(crate) fn put_def_header(
    bytes: &mut [u8],
    pos: usize,
    v: &DefinitionHeader,
) -> (r: Result<usize, Error>)
    requires
        pos + def_header_wire(*v).len() <= old(bytes)@.len(),
    ensures
        laid(old(bytes)@, pos as int, def_header_wire(*v), r, final(bytes)@),
{
    proof {
        lemma_le_len();
    }
    let ghost w0 = le32(v.name@);
    let ghost w1 = le32(v.parent);
    let ghost w2 = le32(v.size);
    let ghost w3 = le32(v.offset);
    let ghost w4 = le8(v.kind);
    let ghost w5 = le8(0);
    let ghost w6 = le16(0);
    let n0 = put_u32(bytes, pos, v.name.value())?;
    let n1 = put_u32(bytes, n0, v.parent)?;
    let ghost a1 = w0 + w1;
    assert(bytes@ == overlay(old(bytes)@, pos as int, a1) && n1 == pos + a1.len()) by {
        lemma_overlay_concat(old(bytes)@, pos as int, w0, w1);
    }
    let n2 = put_u32(bytes, n1, v.size)?;
    let ghost a2 = a1 + w2;
    assert(bytes@ == overlay(old(bytes)@, pos as int, a2) && n2 == pos + a2.len()) by {
        lemma_overlay_concat(old(bytes)@, pos as int, a1, w2);
    }
    let n3 = put_u32(bytes, n2, v.offset)?;
    let ghost a3 = a2 + w3;
    assert(bytes@ == overlay(old(bytes)@, pos as int, a3) && n3 == pos + a3.len()) by {
        lemma_overlay_concat(old(bytes)@, pos as int, a2, w3);
    }
    let n4 = put_u8(bytes, n3, v.kind)?;
    let ghost a4 = a3 + w4;
    assert(bytes@ == overlay(old(bytes)@, pos as int, a4) && n4 == pos + a4.len()) by {
        lemma_overlay_concat(old(bytes)@, pos as int, a3, w4);
    }
    let n5 = put_u8(bytes, n4, 0)?;
    let ghost a5 = a4 + w5;
    assert(bytes@ == overlay(old(bytes)@, pos as int, a5) && n5 == pos + a5.len()) by {
        lemma_overlay_concat(old(bytes)@, pos as int, a4, w5);
    }
    let n6 = put_u16(bytes, n5, 0)?;
    let ghost a6 = a5 + w6;
    assert(bytes@ == overlay(old(bytes)@, pos as int, a6) && n6 == pos + a6.len()) by {
        lemma_overlay_concat(old(bytes)@, pos as int, a5, w6);
    }
    Ok(n6)
}

/// The header of a definition that the buffer holds is read back.
pub proof fn lemma_parse_def_header_at(bytes: Seq<u8>, pos: int, v: DefinitionHeader)
    requires
        holds_at(bytes, pos, def_header_wire(v)),
    ensures
        parse_def_header(bytes, pos) == Ok::<(DefinitionHeader, int), Error>(
            (v, pos + def_header_wire(v).len()),
        ),
{
    broadcast use group_index;

    lemma_le_len();
    let w0 = le32(v.name@);
    let w1 = le32(v.parent);
    let w2 = le32(v.size);
    let w3 = le32(v.offset);
    let w4 = le8(v.kind);
    let w5 = le8(0);
    let w6 = le16(0);
    let a0 = w0;
    let a1 = a0 + w1;
    let a2 = a1 + w2;
    let a3 = a2 + w3;
    let a4 = a3 + w4;
    let a5 = a4 + w5;
    let a6 = a5 + w6;
    let q0 = pos;
    let q1 = pos + a0.len();
    let q2 = pos + a1.len();
    let q3 = pos + a2.len();
    let q4 = pos + a3.len();
    let q5 = pos + a4.len();
    let q6 = pos + a5.len();
    let q7 = pos + a6.len();
    assert(def_header_wire(v) =~= a6);
    assert(holds_at(bytes, pos, a5) && holds_at(bytes, q6, w6)) by {
        lemma_holds_at_concat(bytes, pos, a5, w6);
    }
    assert(holds_at(bytes, pos, a4) && holds_at(bytes, q5, w5)) by {
        lemma_holds_at_concat(bytes, pos, a4, w5);
    }
    assert(holds_at(bytes, pos, a3) && holds_at(bytes, q4, w4)) by {
        lemma_holds_at_concat(bytes, pos, a3, w4);
    }
    assert(holds_at(bytes, pos, a2) && holds_at(bytes, q3, w3)) by {
        lemma_holds_at_concat(bytes, pos, a2, w3);
    }
    assert(holds_at(bytes, pos, a1) && holds_at(bytes, q2, w2)) by {
        lemma_holds_at_concat(bytes, pos, a1, w2);
    }
    assert(holds_at(bytes, pos, a0) && holds_at(bytes, q1, w1)) by {
        lemma_holds_at_concat(bytes, pos, a0, w1);
    }
    assert(({
        let r = parse_pool::<types::CName>(bytes, q0);
        r is Ok && r->Ok_0.0 == v.name && r->Ok_0.1 == q1
    })) by {
        lemma_parse_u32_at(bytes, q0, v.name@);
    }
    assert(({
        let r = parse_u32(bytes, q1);
        r is Ok && r->Ok_0.0 == v.parent && r->Ok_0.1 == q2
    })) by {
        lemma_parse_u32_at(bytes, q1, v.parent);
    }
    assert(({
        let r = parse_u32(bytes, q2);
        r is Ok && r->Ok_0.0 == v.size && r->Ok_0.1 == q3
    })) by {
        lemma_parse_u32_at(bytes, q2, v.size);
    }
    assert(({
        let r = parse_u32(bytes, q3);
        r is Ok && r->Ok_0.0 == v.offset && r->Ok_0.1 == q4
    })) by {
        lemma_parse_u32_at(bytes, q3, v.offset);
    }
    assert(({
        let r = parse_u8(bytes, q4);
        r is Ok && r->Ok_0.0 == v.kind && r->Ok_0.1 == q5
    })) by {
        lemma_parse_u8_at(bytes, q4, v.kind);
    }
    assert(({
        let r = parse_u8(bytes, q5);
        r is Ok && r->Ok_0.1 == q6
    })) by {
        lemma_parse_u8_at(bytes, q5, 0);
    }
    assert(({
        let r = parse_u16(bytes, q6);
        r is Ok && r->Ok_0.1 == q7
    })) by {
        lemma_parse_u16_at(bytes, q6, 0);
    }
}

/// The header of a definition takes 20 bytes.
pub proof fn lemma_def_header_len(v: DefinitionHeader)
    ensures
        def_header_wire(v).len() == 20,
{
    lemma_le_len();
}

/// A place in a source file, as bytes.
pub open spec fn source_reference_wire(v: SourceReference) -> Seq<u8> {
    le32(v.file@) + le32(v.line)
}

/// Whether a place in a source file is one that decoding can give: it names
/// no definition by zero.
pub open spec fn source_reference_wf(v: SourceReference) -> bool {
    &&& v.file@ != 0
}

/// A place in a source file at `pos`, and the position after it.
pub open spec fn parse_source_reference(
    bytes: Seq<u8>,
    pos: int,
) -> Result<(SourceReference, int), Error> {
    let r0 = parse_nz::<types::SourceFile>(bytes, pos);
    let (f0, n0) = r0->Ok_0;
    let r1 = parse_u32(bytes, n0);
    let (f1, n1) = r1->Ok_0;
    if r0 is Err {
        Err(r0->Err_0)
    } else if r1 is Err {
        Err(r1->Err_0)
    } else {
        Ok((SourceReference { file: f0, line: f1 }, n1))
    }
}

/// Decodes a place in a source file at `pos`; hands back the value and the
/// position after it.
pub fn take_source_reference(bytes: &[u8], pos: usize) -> (r: Result<
    (SourceReference, usize),
    Error,
>)
    ensures
        parsed(parse_source_reference(bytes@, pos as int), r),
{
    let (f0, n0) = take_nz::<types::SourceFile>(bytes, pos)?;
    let (f1, n1) = take_u32(bytes, n0)?;
    Ok((SourceReference { file: f0, line: f1 }, n1))
}

/// Lays a place in a source file over the buffer at `pos`, where there is
/// room for it.
pub(crate) fn put_source_reference(
    bytes: &mut [u8],
    pos: usize,
    v: &SourceReference,
) -> (r: Result<usize, Error>)
    requires
        pos + source_reference_wire(*v).len() <= old(bytes)@.len(),
    ensures
        laid(old(bytes)@, pos as int, source_reference_wire(*v), r, final(bytes)@),
{
    proof {
        lemma_le_len();
    }
    let n0 = put_u32(bytes, pos, v.file.value())?;
    let n1 = put_u32(bytes, n0, v.line)?;
    proof {
        lemma_overlay_concat(old(bytes)@, pos as int, le32(v.file@), le32(v.line));
    }
    Ok(n1)
}

/// A place in a source file that the buffer holds is read back.
pub proof fn lemma_parse_source_reference_at(bytes: Seq<u8>, pos: int, v: SourceReference)
    requires
        holds_at(bytes, pos, source_reference_wire(v)),
        source_reference_wf(v),
    ensures
        parse_source_reference(bytes, pos) == Ok::<(SourceReference, int), Error>(
            (v, pos + source_reference_wire(v).len()),
        ),
{
    broadcast use group_index;

    lemma_le_len();
    lemma_holds_at_concat(bytes, pos, le32(v.file@), le32(v.line));
    lemma_parse_u32_at(bytes, pos, v.file@);
    lemma_parse_u32_at(bytes, pos + (le32(v.file@)).len(), v.line);
}

/// What is decoded as a place in a source file is well formed.
pub proof fn lemma_parse_source_reference_wf(bytes: Seq<u8>, pos: int)
    requires
        parse_source_reference(bytes, pos) is Ok,
    ensures
        source_reference_wf(parse_source_reference(bytes, pos)->Ok_0.0),
{
    broadcast use group_index;

    lemma_le_len();
    let (f0, n0) = parse_nz::<types::SourceFile>(bytes, pos)->Ok_0;
    let (f1, n1) = parse_u32(bytes, n0)->Ok_0;
}

/// The place of a function in its source, as bytes: nothing where there is
/// none.
pub open spec fn opt_source_wire(v: Option<SourceReference>) -> Seq<u8> {
    match v {
        Some(x) => source_reference_wire(x),
        None => Seq::empty(),
    }
}

/// Whether the place of a function in its source is there exactly if it is
/// announced, and is well formed if it is there.
pub open spec fn opt_source_wf(present: bool, v: Option<SourceReference>) -> bool {
    &&& present == v.is_some()
    &&& v matches Some(x) ==> source_reference_wf(x)
}

/// The place of a function in its source at `pos`, if it is announced, and
/// the position after it.
pub open spec fn parse_opt_source(
    present: bool,
    bytes: Seq<u8>,
    pos: int,
) -> Result<(Option<SourceReference>, int), Error> {
    if present {
        match parse_source_reference(bytes, pos) {
            Ok((x, to)) => Ok((Some(x), to)),
            Err(e) => Err(e),
        }
    } else {
        Ok((None, pos))
    }
}

/// Decodes the place of a function in its source at `pos`, if it is announced.
pub fn take_opt_source(present: bool, bytes: &[u8], pos: usize) -> (r: Result<
    (Option<SourceReference>, usize),
    Error,
>)
    ensures
        parsed(parse_opt_source(present, bytes@, pos as int), r),
{
    if present {
        let (x, to) = take_source_reference(bytes, pos)?;
        Ok((Some(x), to))
    } else {
        Ok((None, pos))
    }
}

/// Lays the place of a function in its source over the buffer at `pos`, where
/// there is room for it.
pub(crate) fn put_opt_source(
    bytes: &mut [u8],
    pos: usize,
    v: &Option<SourceReference>,
) -> (r: Result<usize, Error>)
    requires
        pos + opt_source_wire(*v).len() <= old(bytes)@.len(),
    ensures
        laid(old(bytes)@, pos as int, opt_source_wire(*v), r, final(bytes)@),
{
    proof {
        lemma_le_len();
    }
    match v {
        Some(x) => put_source_reference(bytes, pos, x),
        None => {
            proof {
                assert(overlay(bytes@, pos as int, Seq::<u8>::empty()) =~= bytes@);
            }
            Ok(pos)
        },
    }
}

/// The number of bytes that the place of a function in its source takes.
pub fn measure_opt_source(v: &Option<SourceReference>) -> (r: Option<u32>)
    ensures
        r == measured(true, opt_source_wire(*v).len()),
{
    proof {
        lemma_le_len();
    }
    match v {
        Some(x) => Some(8),
        None => Some(0),
    }
}

/// The place of a function in its source that the buffer holds is read back.
pub proof fn lemma_parse_opt_source_at(
    bytes: Seq<u8>,
    pos: int,
    present: bool,
    v: Option<SourceReference>,
)
    requires
        holds_at(bytes, pos, opt_source_wire(v)),
        opt_source_wf(present, v),
    ensures
        parse_opt_source(present, bytes, pos) == Ok::<(Option<SourceReference>, int), Error>(
            (v, pos + opt_source_wire(v).len()),
        ),
{
    broadcast use group_index;

    lemma_le_len();
    match v {
        Some(x) => {
            lemma_parse_source_reference_at(bytes, pos, x);
        },
        None => {},
    }
}

/// What is decoded as the place of a function in its source is well formed.
pub proof fn lemma_parse_opt_source_wf(present: bool, bytes: Seq<u8>, pos: int)
    requires
        parse_opt_source(present, bytes, pos) is Ok,
    ensures
        opt_source_wf(present, parse_opt_source(present, bytes, pos)->Ok_0.0),
{
    broadcast use group_index;

    lemma_le_len();
    if present {
        lemma_parse_source_reference_wf(bytes, pos);
    }
}

/// The return type of a function, as bytes: nothing where there is none.
pub open spec fn opt_type_wire(v: Option<TypeIndex>) -> Seq<u8> {
    match v {
        Some(x) => le32(x@),
        None => Seq::empty(),
    }
}

/// Whether the return type of a function is there exactly if it is announced,
/// and is well formed if it is there.
pub open spec fn opt_type_wf(present: bool, v: Option<TypeIndex>) -> bool {
    &&& present == v.is_some()
    &&& v matches Some(x) ==> x@ != 0
}

/// The return type of a function at `pos`, if it is announced, and the
/// position after it.
pub open spec fn parse_opt_type(
    present: bool,
    bytes: Seq<u8>,
    pos: int,
) -> Result<(Option<TypeIndex>, int), Error> {
    if present {
        match parse_nz::<types::Type>(bytes, pos) {
            Ok((x, to)) => Ok((Some(x), to)),
            Err(e) => Err(e),
        }
    } else {
        Ok((None, pos))
    }
}

/// Decodes the return type of a function at `pos`, if it is announced.
pub fn take_opt_type(present: bool, bytes: &[u8], pos: usize) -> (r: Result<
    (Option<TypeIndex>, usize),
    Error,
>)
    ensures
        parsed(parse_opt_type(present, bytes@, pos as int), r),
{
    if present {
        let (x, to) = take_nz::<types::Type>(bytes, pos)?;
        Ok((Some(x), to))
    } else {
        Ok((None, pos))
    }
}

/// Lays the return type of a function over the buffer at `pos`, where there
/// is room for it.
pub(crate) fn put_opt_type(
    bytes: &mut [u8],
    pos: usize,
    v: &Option<TypeIndex>,
) -> (r: Result<usize, Error>)
    requires
        pos + opt_type_wire(*v).len() <= old(bytes)@.len(),
    ensures
        laid(old(bytes)@, pos as int, opt_type_wire(*v), r, final(bytes)@),
{
    proof {
        lemma_le_len();
    }
    match v {
        Some(x) => put_u32(bytes, pos, x.value()),
        None => {
            proof {
                assert(overlay(bytes@, pos as int, Seq::<u8>::empty()) =~= bytes@);
            }
            Ok(pos)
        },
    }
}

/// The number of bytes that the return type of a function takes.
pub fn measure_opt_type(v: &Option<TypeIndex>) -> (r: Option<u32>)
    ensures
        r == measured(true, opt_type_wire(*v).len()),
{
    proof {
        lemma_le_len();
    }
    match v {
        Some(x) => Some(4),
        None => Some(0),
    }
}

/// The return type of a function that the buffer holds is read back.
pub proof fn lemma_parse_opt_type_at(bytes: Seq<u8>, pos: int, present: bool, v: Option<TypeIndex>)
    requires
        holds_at(bytes, pos, opt_type_wire(v)),
        opt_type_wf(present, v),
    ensures
        parse_opt_type(present, bytes, pos) == Ok::<(Option<TypeIndex>, int), Error>(
            (v, pos + opt_type_wire(v).len()),
        ),
{
    broadcast use group_index;

    lemma_le_len();
    match v {
        Some(x) => {
            lemma_parse_u32_at(bytes, pos, x@);
        },
        None => {},
    }
}

/// What is decoded as the return type of a function is well formed.
pub proof fn lemma_parse_opt_type_wf(present: bool, bytes: Seq<u8>, pos: int)
    requires
        parse_opt_type(present, bytes, pos) is Ok,
    ensures
        opt_type_wf(present, parse_opt_type(present, bytes, pos)->Ok_0.0),
{
    broadcast use group_index;

    lemma_le_len();
    if present {
        
    }
}

/// The base method of a function, as bytes: nothing where there is none.
pub open spec fn opt_function_wire(v: Option<FunctionIndex>) -> Seq<u8> {
    match v {
        Some(x) => le32(x@),
        None => Seq::empty(),
    }
}

/// Whether the base method of a function is there exactly if it is announced,
/// and is well formed if it is there.
pub open spec fn opt_function_wf(present: bool, v: Option<FunctionIndex>) -> bool {
    &&& present == v.is_some()
    &&& v matches Some(x) ==> x@ != 0
}

/// The base method of a function at `pos`, if it is announced, and the
/// position after it.
pub open spec fn parse_opt_function(
    present: bool,
    bytes: Seq<u8>,
    pos: int,
) -> Result<(Option<FunctionIndex>, int), Error> {
    if present {
        match parse_nz::<types::Function>(bytes, pos) {
            Ok((x, to)) => Ok((Some(x), to)),
            Err(e) => Err(e),
        }
    } else {
        Ok((None, pos))
    }
}

/// Decodes the base method of a function at `pos`, if it is announced.
pub fn take_opt_function(present: bool, bytes: &[u8], pos: usize) -> (r: Result<
    (Option<FunctionIndex>, usize),
    Error,
>)
    ensures
        parsed(parse_opt_function(present, bytes@, pos as int), r),
{
    if present {
        let (x, to) = take_nz::<types::Function>(bytes, pos)?;
        Ok((Some(x), to))
    } else {
        Ok((None, pos))
    }
}

/// Lays the base method of a function over the buffer at `pos`, where there
/// is room for it.
pub(crate) fn put_opt_function(
    bytes: &mut [u8],
    pos: usize,
    v: &Option<FunctionIndex>,
) -> (r: Result<usize, Error>)
    requires
        pos + opt_function_wire(*v).len() <= old(bytes)@.len(),
    ensures
        laid(old(bytes)@, pos as int, opt_function_wire(*v), r, final(bytes)@),
{
    proof {
        lemma_le_len();
    }
    match v {
        Some(x) => put_u32(bytes, pos, x.value()),
        None => {
            proof {
                assert(overlay(bytes@, pos as int, Seq::<u8>::empty()) =~= bytes@);
            }
            Ok(pos)
        },
    }
}

/// The number of bytes that the base method of a function takes.
pub fn measure_opt_function(v: &Option<FunctionIndex>) -> (r: Option<u32>)
    ensures
        r == measured(true, opt_function_wire(*v).len()),
{
    proof {
        lemma_le_len();
    }
    match v {
        Some(x) => Some(4),
        None => Some(0),
    }
}

/// The base method of a function that the buffer holds is read back.
pub proof fn lemma_parse_opt_function_at(
    bytes: Seq<u8>,
    pos: int,
    present: bool,
    v: Option<FunctionIndex>,
)
    requires
        holds_at(bytes, pos, opt_function_wire(v)),
        opt_function_wf(present, v),
    ensures
        parse_opt_function(present, bytes, pos) == Ok::<(Option<FunctionIndex>, int), Error>(
            (v, pos + opt_function_wire(v).len()),
        ),
{
    broadcast use group_index;

    lemma_le_len();
    match v {
        Some(x) => {
            lemma_parse_u32_at(bytes, pos, x@);
        },
        None => {},
    }
}

/// What is decoded as the base method of a function is well formed.
pub proof fn lemma_parse_opt_function_wf(present: bool, bytes: Seq<u8>, pos: int)
    requires
        parse_opt_function(present, bytes, pos) is Ok,
    ensures
        opt_function_wf(present, parse_opt_function(present, bytes, pos)->Ok_0.0),
{
    broadcast use group_index;

    lemma_le_len();
    if present {
        
    }
}

/// The operator number of a function, as bytes: nothing where there is none.
pub open spec fn opt_u32_wire(v: Option<u32>) -> Seq<u8> {
    match v {
        Some(x) => le32(x),
        None => Seq::empty(),
    }
}

/// Whether the operator number of a function is there exactly if it is
/// announced, and is well formed if it is there.
pub open spec fn opt_u32_wf(present: bool, v: Option<u32>) -> bool {
    &&& present == v.is_some()
    &&& v matches Some(x) ==> true
}

/// The operator number of a function at `pos`, if it is announced, and the
/// position after it.
pub open spec fn parse_opt_u32(
    present: bool,
    bytes: Seq<u8>,
    pos: int,
) -> Result<(Option<u32>, int), Error> {
    if present {
        match parse_u32(bytes, pos) {
            Ok((x, to)) => Ok((Some(x), to)),
            Err(e) => Err(e),
        }
    } else {
        Ok((None, pos))
    }
}

/// Decodes the operator number of a function at `pos`, if it is announced.
pub fn take_opt_u32(
    present: bool,
    bytes: &[u8],
    pos: usize,
) -> (r: Result<(Option<u32>, usize), Error>)
    ensures
        parsed(parse_opt_u32(present, bytes@, pos as int), r),
{
    if present {
        let (x, to) = take_u32(bytes, pos)?;
        Ok((Some(x), to))
    } else {
        Ok((None, pos))
    }
}

/// Lays the operator number of a function over the buffer at `pos`, where
/// there is room for it.
pub(crate) fn put_opt_u32(
    bytes: &mut [u8],
    pos: usize,
    v: &Option<u32>,
) -> (r: Result<usize, Error>)
    requires
        pos + opt_u32_wire(*v).len() <= old(bytes)@.len(),
    ensures
        laid(old(bytes)@, pos as int, opt_u32_wire(*v), r, final(bytes)@),
{
    proof {
        lemma_le_len();
    }
    match v {
        Some(x) => put_u32(bytes, pos, *x),
        None => {
            proof {
                assert(overlay(bytes@, pos as int, Seq::<u8>::empty()) =~= bytes@);
            }
            Ok(pos)
        },
    }
}

/// The number of bytes that the operator number of a function takes.
pub fn measure_opt_u32(v: &Option<u32>) -> (r: Option<u32>)
    ensures
        r == measured(true, opt_u32_wire(*v).len()),
{
    proof {
        lemma_le_len();
    }
    match v {
        Some(x) => Some(4),
        None => Some(0),
    }
}

/// The operator number of a function that the buffer holds is read back.
pub proof fn lemma_parse_opt_u32_at(bytes: Seq<u8>, pos: int, present: bool, v: Option<u32>)
    requires
        holds_at(bytes, pos, opt_u32_wire(v)),
        opt_u32_wf(present, v),
    ensures
        parse_opt_u32(present, bytes, pos) == Ok::<(Option<u32>, int), Error>(
            (v, pos + opt_u32_wire(v).len()),
        ),
{
    broadcast use group_index;

    lemma_le_len();
    match v {
        Some(x) => {
            lemma_parse_u32_at(bytes, pos, x);
        },
        None => {},
    }
}

/// What is decoded as the operator number of a function is well formed.
pub proof fn lemma_parse_opt_u32_wf(present: bool, bytes: Seq<u8>, pos: int)
    requires
        parse_opt_u32(present, bytes, pos) is Ok,
    ensures
        opt_u32_wf(present, parse_opt_u32(present, bytes, pos)->Ok_0.0),
{
    broadcast use group_index;

    lemma_le_len();
    if present {
        
    }
}

/// The cast cost of a function, as bytes: nothing where there is none.
pub open spec fn opt_u8_wire(v: Option<u8>) -> Seq<u8> {
    match v {
        Some(x) => le8(x),
        None => Seq::empty(),
    }
}

/// Whether the cast cost of a function is there exactly if it is announced,
/// and is well formed if it is there.
pub open spec fn opt_u8_wf(present: bool, v: Option<u8>) -> bool {
    &&& present == v.is_some()
    &&& v matches Some(x) ==> true
}

/// The cast cost of a function at `pos`, if it is announced, and the position
/// after it.
pub open spec fn parse_opt_u8(
    present: bool,
    bytes: Seq<u8>,
    pos: int,
) -> Result<(Option<u8>, int), Error> {
    if present {
        match parse_u8(bytes, pos) {
            Ok((x, to)) => Ok((Some(x), to)),
            Err(e) => Err(e),
        }
    } else {
        Ok((None, pos))
    }
}

/// Decodes the cast cost of a function at `pos`, if it is announced.
pub fn take_opt_u8(
    present: bool,
    bytes: &[u8],
    pos: usize,
) -> (r: Result<(Option<u8>, usize), Error>)
    ensures
        parsed(parse_opt_u8(present, bytes@, pos as int), r),
{
    if present {
        let (x, to) = take_u8(bytes, pos)?;
        Ok((Some(x), to))
    } else {
        Ok((None, pos))
    }
}

/// Lays the cast cost of a function over the buffer at `pos`, where there is
/// room for it.
pub(crate) fn put_opt_u8(bytes: &mut [u8], pos: usize, v: &Option<u8>) -> (r: Result<usize, Error>)
    requires
        pos + opt_u8_wire(*v).len() <= old(bytes)@.len(),
    ensures
        laid(old(bytes)@, pos as int, opt_u8_wire(*v), r, final(bytes)@),
{
    proof {
        lemma_le_len();
    }
    match v {
        Some(x) => put_u8(bytes, pos, *x),
        None => {
            proof {
                assert(overlay(bytes@, pos as int, Seq::<u8>::empty()) =~= bytes@);
            }
            Ok(pos)
        },
    }
}

/// The number of bytes that the cast cost of a function takes.
pub fn measure_opt_u8(v: &Option<u8>) -> (r: Option<u32>)
    ensures
        r == measured(true, opt_u8_wire(*v).len()),
{
    proof {
        lemma_le_len();
    }
    match v {
        Some(x) => Some(1),
        None => Some(0),
    }
}

/// The cast cost of a function that the buffer holds is read back.
pub proof fn lemma_parse_opt_u8_at(bytes: Seq<u8>, pos: int, present: bool, v: Option<u8>)
    requires
        holds_at(bytes, pos, opt_u8_wire(v)),
        opt_u8_wf(present, v),
    ensures
        parse_opt_u8(present, bytes, pos) == Ok::<(Option<u8>, int), Error>(
            (v, pos + opt_u8_wire(v).len()),
        ),
{
    broadcast use group_index;

    lemma_le_len();
    match v {
        Some(x) => {
            lemma_parse_u8_at(bytes, pos, x);
        },
        None => {},
    }
}

/// What is decoded as the cast cost of a function is well formed.
pub proof fn lemma_parse_opt_u8_wf(present: bool, bytes: Seq<u8>, pos: int)
    requires
        parse_opt_u8(present, bytes, pos) is Ok,
    ensures
        opt_u8_wf(present, parse_opt_u8(present, bytes, pos)->Ok_0.0),
{
    broadcast use group_index;

    lemma_le_len();
    if present {
        
    }
}

/// A list of definition handles, as bytes: nothing where none is announced.
pub open spec fn index_list_if_wire<A>(present: bool, v: Seq<NzPoolIndex<A>>) -> Seq<u8> {
    if present {
        index_list_wire(v)
    } else {
        Seq::empty()
    }
}

/// Whether a list of definition handles can be encoded if it is announced.
pub open spec fn index_list_if_encodable<A>(present: bool, v: Seq<NzPoolIndex<A>>) -> bool {
    present ==> index_list_encodable(v)
}

/// Whether a list of definition handles is well formed if it is announced,
/// and empty if it is not.
pub open spec fn index_list_if_wf<A>(present: bool, v: Seq<NzPoolIndex<A>>) -> bool {
    if present {
        index_list_wf(v)
    } else {
        v.len() == 0
    }
}

/// A list of definition handles at `pos`, if it is announced, and the
/// position after it.
pub open spec fn parse_index_list_if<A>(
    present: bool,
    bytes: Seq<u8>,
    pos: int,
) -> Result<(Seq<NzPoolIndex<A>>, int), Error> {
    if present {
        parse_index_list::<A>(bytes, pos)
    } else {
        Ok((Seq::<NzPoolIndex<A>>::empty(), pos))
    }
}

/// Decodes a list of definition handles at `pos`, if it is announced.
pub fn take_index_list_if<A>(present: bool, bytes: &[u8], pos: usize) -> (r: Result<
    (Vec<NzPoolIndex<A>>, usize),
    Error,
>)
    ensures
        match parse_index_list_if::<A>(present, bytes@, pos as int) {
            Ok((v, to)) => r is Ok && r->Ok_0.0@ == v && r->Ok_0.1 == to,
            Err(e) => r == Err::<(Vec<NzPoolIndex<A>>, usize), Error>(e),
        },
{
    if present {
        take_index_list::<A>(bytes, pos)
    } else {
        let v: Vec<NzPoolIndex<A>> = Vec::new();
        proof {
            assert(v@ =~= Seq::<NzPoolIndex<A>>::empty());
        }
        Ok((v, pos))
    }
}

/// Lays a list of definition handles over the buffer at `pos`, where there is
/// room for it.
pub(crate) fn put_index_list_if<A>(
    bytes: &mut [u8],
    pos: usize,
    present: bool,
    v: &Vec<NzPoolIndex<A>>,
) -> (r: Result<usize, Error>)
    requires
        index_list_if_encodable(present, v@),
        pos + index_list_if_wire(present, v@).len() <= old(bytes)@.len(),
    ensures
        laid(old(bytes)@, pos as int, index_list_if_wire(present, v@), r, final(bytes)@),
{
    if present {
        put_index_list(bytes, pos, v)
    } else {
        proof {
            assert(overlay(bytes@, pos as int, Seq::<u8>::empty()) =~= bytes@);
        }
        Ok(pos)
    }
}

/// The number of bytes that a list of definition handles takes.
pub fn measure_index_list_if<A>(present: bool, v: &Vec<NzPoolIndex<A>>) -> (r: Option<u32>)
    ensures
        r == measured(index_list_if_encodable(present, v@), index_list_if_wire(present, v@).len()),
{
    if present {
        measure_index_list(v)
    } else {
        Some(0)
    }
}

/// A list of definition handles that the buffer holds is read back.
pub proof fn lemma_parse_index_list_if_at<A>(
    bytes: Seq<u8>,
    pos: int,
    present: bool,
    v: Seq<NzPoolIndex<A>>,
)
    requires
        holds_at(bytes, pos, index_list_if_wire(present, v)),
        index_list_if_wf(present, v),
    ensures
        parse_index_list_if::<A>(present, bytes, pos) == Ok::<(Seq<NzPoolIndex<A>>, int), Error>(
            (v, pos + index_list_if_wire(present, v).len()),
        ),
{
    if present {
        lemma_parse_index_list_at(bytes, pos, v);
    } else {
        assert(v =~= Seq::<NzPoolIndex<A>>::empty());
    }
}

/// What is decoded as a list of definition handles is well formed.
pub proof fn lemma_parse_index_list_if_wf<A>(present: bool, bytes: Seq<u8>, pos: int)
    requires
        parse_index_list_if::<A>(present, bytes, pos) is Ok,
    ensures
        index_list_if_wf(present, parse_index_list_if::<A>(present, bytes, pos)->Ok_0.0),
{
    if present {
        lemma_parse_index_list_wf::<A>(bytes, pos);
    }
}

/// The body of a function, as bytes: nothing where none is announced.
pub open spec fn body_wire(present: bool, v: Seq<InstrView>) -> Seq<u8> {
    if present {
        code_wire(v)
    } else {
        Seq::empty()
    }
}

/// Whether the body of a function can be encoded if it is announced.
pub open spec fn body_encodable(present: bool, v: Seq<InstrView>) -> bool {
    present ==> code_encodable(v)
}

/// Whether the body of a function is well formed if it is announced, and
/// empty if it is not.
pub open spec fn body_wf(present: bool, v: Seq<InstrView>) -> bool {
    if present {
        code_wf(v)
    } else {
        v.len() == 0
    }
}

/// The body of a function at `pos`, if it is announced, and the position
/// after it.
pub open spec fn parse_body(
    present: bool,
    bytes: Seq<u8>,
    pos: int,
) -> Result<(Seq<InstrView>, int), Error> {
    if present {
        parse_code(bytes, pos)
    } else {
        Ok((Seq::<InstrView>::empty(), pos))
    }
}

/// Decodes the body of a function at `pos`, if it is announced.
pub fn take_body(
    present: bool,
    bytes: &[u8],
    pos: usize,
) -> (r: Result<(FunctionBody, usize), Error>)
    ensures
        match parse_body(present, bytes@, pos as int) {
            Ok((v, to)) => r is Ok && r->Ok_0.0@ == v && r->Ok_0.1 == to,
            Err(e) => r == Err::<(FunctionBody, usize), Error>(e),
        },
{
    if present {
        take_code(bytes, pos)
    } else {
        let v: FunctionBody = FunctionBody { code: Vec::new() };
        proof {
            assert(v@ =~= Seq::<InstrView>::empty());
        }
        Ok((v, pos))
    }
}

/// Lays the body of a function over the buffer at `pos`, where there is room
/// for it.
pub(crate) fn put_body(
    bytes: &mut [u8],
    pos: usize,
    present: bool,
    v: &FunctionBody,
) -> (r: Result<usize, Error>)
    requires
        body_encodable(present, v@),
        pos + body_wire(present, v@).len() <= old(bytes)@.len(),
    ensures
        laid(old(bytes)@, pos as int, body_wire(present, v@), r, final(bytes)@),
{
    if present {
        put_code(bytes, pos, v)
    } else {
        proof {
            assert(overlay(bytes@, pos as int, Seq::<u8>::empty()) =~= bytes@);
        }
        Ok(pos)
    }
}

/// The number of bytes that the body of a function takes.
pub fn measure_body(present: bool, v: &FunctionBody) -> (r: Option<u32>)
    ensures
        r == measured(body_encodable(present, v@), body_wire(present, v@).len()),
{
    if present {
        measure_code(v)
    } else {
        Some(0)
    }
}

/// The body of a function that the buffer holds is read back.
pub proof fn lemma_parse_body_at(bytes: Seq<u8>, pos: int, present: bool, v: Seq<InstrView>)
    requires
        holds_at(bytes, pos, body_wire(present, v)),
        body_wf(present, v),
    ensures
        parse_body(present, bytes, pos) == Ok::<(Seq<InstrView>, int), Error>(
            (v, pos + body_wire(present, v).len()),
        ),
{
    if present {
        lemma_parse_code_at(bytes, pos, v);
    } else {
        assert(v =~= Seq::<InstrView>::empty());
    }
}

/// What is decoded as the body of a function is well formed.
pub proof fn lemma_parse_body_wf(present: bool, bytes: Seq<u8>, pos: int)
    requires
        parse_body(present, bytes, pos) is Ok,
    ensures
        body_wf(present, parse_body(present, bytes, pos)->Ok_0.0),
{
    if present {
        lemma_parse_code_wf(bytes, pos);
    }
}

/// A type, as bytes.
pub open spec fn type_wire(v: Type) -> Seq<u8> {
    type_kind_wire(v.kind)
}

/// Whether a type is one that decoding can give: it names no definition by
/// zero.
pub open spec fn type_wf(v: Type) -> bool {
    &&& type_kind_wf(v.kind)
}

/// A type at `pos`, and the position after it.
pub open spec fn parse_type(
    name: CNameIndex,
    bytes: Seq<u8>,
    pos: int,
) -> Result<(Type, int), Error> {
    let r0 = parse_type_kind(bytes, pos);
    let (f0, n0) = r0->Ok_0;
    if r0 is Err {
        Err(r0->Err_0)
    } else {
        Ok((Type { name, kind: f0 }, n0))
    }
}

/// Decodes a type at `pos`; hands back the value and the position after it.
pub fn take_type(name: CNameIndex, bytes: &[u8], pos: usize) -> (r: Result<(Type, usize), Error>)
    ensures
        decoded(parse_type(name, bytes@, pos as int), r),
{
    let (f0, n0) = take_type_kind(bytes, pos)?;
    Ok((Type { name, kind: f0 }, n0))
}

/// Lays a type over the buffer at `pos`, where there is room for it.
pub(crate) fn put_type(bytes: &mut [u8], pos: usize, v: &Type) -> (r: Result<usize, Error>)
    requires
        pos + type_wire(v@).len() <= old(bytes)@.len(),
    ensures
        laid(old(bytes)@, pos as int, type_wire(v@), r, final(bytes)@),
{
    proof {
        lemma_le_len();
    }
    let n0 = put_type_kind(bytes, pos, &v.kind)?;
    Ok(n0)
}

/// The number of bytes that a type takes, if it is encodable and that
/// number fits in 32 bits.
pub fn measure_type(v: &Type) -> (r: Option<u32>)
    ensures
        r == measured(true, type_wire(v@).len()),
{
    proof {
        lemma_le_len();
    }
    let mut total: u64 = 0;
    match measure_type_kind(&v.kind) {
        Some(n) => {
            total = total + n as u64;
        },
        None => {
            return None;
        },
    }
    if total > 0xFFFF_FFFF {
        None
    } else {
        Some(total as u32)
    }
}

/// A type that the buffer holds is read back.
pub proof fn lemma_parse_type_at(bytes: Seq<u8>, pos: int, v: Type)
    requires
        holds_at(bytes, pos, type_wire(v)),
        type_wf(v),
    ensures
        parse_type(v.name, bytes, pos) == Ok::<(Type, int), Error>((v, pos + type_wire(v).len())),
{
    broadcast use group_index;

    lemma_le_len();
    lemma_parse_type_kind_at(bytes, pos, v.kind);
}

/// What is decoded as a type is well formed.
pub proof fn lemma_parse_type_wf(name: CNameIndex, bytes: Seq<u8>, pos: int)
    requires
        parse_type(name, bytes, pos) is Ok,
    ensures
        type_wf(parse_type(name, bytes, pos)->Ok_0.0),
{
    broadcast use group_index;

    lemma_le_len();
    lemma_parse_type_kind_wf(bytes, pos);
    let (f0, n0) = parse_type_kind(bytes, pos)->Ok_0;
}

/// A class, as bytes.
pub open spec fn class_wire(v: ClassView) -> Seq<u8> {
    visibility_wire(v.visibility)
        + le16(v.flags.bits)
        + le32(opt_index_bits(v.base))
        + index_list_if_wire(v.flags.has_functions(), v.functions)
        + index_list_if_wire(v.flags.has_fields(), v.fields)
        + index_list_if_wire(v.flags.has_overrides(), v.overrides)
}

/// Whether the counts and lengths in a class fit the widths they are written
/// in.
pub open spec fn class_encodable(v: ClassView) -> bool {
    &&& index_list_if_encodable(v.flags.has_functions(), v.functions)
    &&& index_list_if_encodable(v.flags.has_fields(), v.fields)
    &&& index_list_if_encodable(v.flags.has_overrides(), v.overrides)
}

/// Whether a class is one that decoding can give: it is encodable, names no
/// definition by zero, and holds what its flags announce.
pub open spec fn class_wf(v: ClassView) -> bool {
    &&& class_encodable(v)
    &&& opt_index_wf(v.base)
    &&& index_list_if_wf(v.flags.has_functions(), v.functions)
    &&& index_list_if_wf(v.flags.has_fields(), v.fields)
    &&& index_list_if_wf(v.flags.has_overrides(), v.overrides)
}

/// A class at `pos`, and the position after it.
pub open spec fn parse_class(
    name: CNameIndex,
    bytes: Seq<u8>,
    pos: int,
) -> Result<(ClassView, int), Error> {
    let r0 = parse_visibility(bytes, pos);
    let (f0, n0) = r0->Ok_0;
    let r1 = parse_u16(bytes, n0);
    let (f1, n1) = r1->Ok_0;
    let r2 = parse_opt_nz::<types::Class>(bytes, n1);
    let (f2, n2) = r2->Ok_0;
    let r3 = parse_index_list_if::<types::Function>(
        ClassFlags { bits: f1 }.has_functions(),
        bytes,
        n2,
    );
    let (f3, n3) = r3->Ok_0;
    let r4 = parse_index_list_if::<types::Field>(ClassFlags { bits: f1 }.has_fields(), bytes, n3);
    let (f4, n4) = r4->Ok_0;
    let r5 = parse_index_list_if::<types::Field>(
        ClassFlags { bits: f1 }.has_overrides(),
        bytes,
        n4,
    );
    let (f5, n5) = r5->Ok_0;
    if r0 is Err {
        Err(r0->Err_0)
    } else if r1 is Err {
        Err(r1->Err_0)
    } else if r2 is Err {
        Err(r2->Err_0)
    } else if r3 is Err {
        Err(r3->Err_0)
    } else if r4 is Err {
        Err(r4->Err_0)
    } else if r5 is Err {
        Err(r5->Err_0)
    } else {
        Ok(
            (
                ClassView {
                    name,
                    visibility: f0,
                    flags: ClassFlags { bits: f1 },
                    base: f2,
                    functions: f3,
                    fields: f4,
                    overrides: f5,
                },
                n5,
            ),
        )
    }
}

/// Decodes a class at `pos`; hands back the value and the position after it.
pub fn take_class(name: CNameIndex, bytes: &[u8], pos: usize) -> (r: Result<(Class, usize), Error>)
    ensures
        decoded(parse_class(name, bytes@, pos as int), r),
{
    let (f0, n0) = take_visibility(bytes, pos)?;
    let (f1, n1) = take_u16(bytes, n0)?;
    let (f2, n2) = take_opt_nz::<types::Class>(bytes, n1)?;
    let (f3, n3) = take_index_list_if::<types::Function>(
        ClassFlags { bits: f1 }.has_functions(),
        bytes,
        n2,
    )?;
    let (f4, n4) = take_index_list_if::<types::Field>(
        ClassFlags { bits: f1 }.has_fields(),
        bytes,
        n3,
    )?;
    let (f5, n5) = take_index_list_if::<types::Field>(
        ClassFlags { bits: f1 }.has_overrides(),
        bytes,
        n4,
    )?;
    Ok(
        (
            Class {
                name,
                visibility: f0,
                flags: ClassFlags { bits: f1 },
                base: f2,
                functions: f3,
                fields: f4,
                overrides: f5,
            },
            n5,
        ),
    )
}

/// Lays a class over the buffer at `pos`, where there is room for it.
pub(crate) fn put_class(bytes: &mut [u8], pos: usize, v: &Class) -> (r: Result<usize, Error>)
    requires
        class_encodable(v@),
        pos + class_wire(v@).len() <= old(bytes)@.len(),
    ensures
        laid(old(bytes)@, pos as int, class_wire(v@), r, final(bytes)@),
{
    proof {
        lemma_le_len();
    }
    let ghost w0 = visibility_wire(v@.visibility);
    let ghost w1 = le16(v@.flags.bits);
    let ghost w2 = le32(opt_index_bits(v@.base));
    let ghost w3 = index_list_if_wire(v@.flags.has_functions(), v@.functions);
    let ghost w4 = index_list_if_wire(v@.flags.has_fields(), v@.fields);
    let ghost w5 = index_list_if_wire(v@.flags.has_overrides(), v@.overrides);
    let n0 = put_visibility(bytes, pos, &v.visibility)?;
    let n1 = put_u16(bytes, n0, v.flags.bits)?;
    let ghost a1 = w0 + w1;
    assert(bytes@ == overlay(old(bytes)@, pos as int, a1) && n1 == pos + a1.len()) by {
        lemma_overlay_concat(old(bytes)@, pos as int, w0, w1);
    }
    let n2 = put_u32(bytes, n1, opt_index_value(v.base))?;
    let ghost a2 = a1 + w2;
    assert(bytes@ == overlay(old(bytes)@, pos as int, a2) && n2 == pos + a2.len()) by {
        lemma_overlay_concat(old(bytes)@, pos as int, a1, w2);
    }
    let n3 = put_index_list_if(bytes, n2, v.flags.has_functions(), &v.functions)?;
    let ghost a3 = a2 + w3;
    assert(bytes@ == overlay(old(bytes)@, pos as int, a3) && n3 == pos + a3.len()) by {
        lemma_overlay_concat(old(bytes)@, pos as int, a2, w3);
    }
    let n4 = put_index_list_if(bytes, n3, v.flags.has_fields(), &v.fields)?;
    let ghost a4 = a3 + w4;
    assert(bytes@ == overlay(old(bytes)@, pos as int, a4) && n4 == pos + a4.len()) by {
        lemma_overlay_concat(old(bytes)@, pos as int, a3, w4);
    }
    let n5 = put_index_list_if(bytes, n4, v.flags.has_overrides(), &v.overrides)?;
    let ghost a5 = a4 + w5;
    assert(bytes@ == overlay(old(bytes)@, pos as int, a5) && n5 == pos + a5.len()) by {
        lemma_overlay_concat(old(bytes)@, pos as int, a4, w5);
    }
    Ok(n5)
}

/// The number of bytes that a class takes, if it is encodable and that
/// number fits in 32 bits.
pub fn measure_class(v: &Class) -> (r: Option<u32>)
    ensures
        r == measured(class_encodable(v@), class_wire(v@).len()),
{
    proof {
        lemma_le_len();
    }
    let mut total: u64 = 7;
    match measure_index_list_if(v.flags.has_functions(), &v.functions) {
        Some(n) => {
            total = total + n as u64;
        },
        None => {
            return None;
        },
    }
    match measure_index_list_if(v.flags.has_fields(), &v.fields) {
        Some(n) => {
            total = total + n as u64;
        },
        None => {
            return None;
        },
    }
    match measure_index_list_if(v.flags.has_overrides(), &v.overrides) {
        Some(n) => {
            total = total + n as u64;
        },
        None => {
            return None;
        },
    }
    if total > 0xFFFF_FFFF {
        None
    } else {
        Some(total as u32)
    }
}

/// A class that the buffer holds is read back.
pub proof fn lemma_parse_class_at(bytes: Seq<u8>, pos: int, v: ClassView)
    requires
        holds_at(bytes, pos, class_wire(v)),
        class_wf(v),
    ensures
        parse_class(v.name, bytes, pos) == Ok::<(ClassView, int), Error>(
            (v, pos + class_wire(v).len()),
        ),
{
    broadcast use group_index;

    lemma_le_len();
    let w0 = visibility_wire(v.visibility);
    let w1 = le16(v.flags.bits);
    let w2 = le32(opt_index_bits(v.base));
    let w3 = index_list_if_wire(v.flags.has_functions(), v.functions);
    let w4 = index_list_if_wire(v.flags.has_fields(), v.fields);
    let w5 = index_list_if_wire(v.flags.has_overrides(), v.overrides);
    let a0 = w0;
    let a1 = a0 + w1;
    let a2 = a1 + w2;
    let a3 = a2 + w3;
    let a4 = a3 + w4;
    let a5 = a4 + w5;
    let q0 = pos;
    let q1 = pos + a0.len();
    let q2 = pos + a1.len();
    let q3 = pos + a2.len();
    let q4 = pos + a3.len();
    let q5 = pos + a4.len();
    let q6 = pos + a5.len();
    assert(class_wire(v) =~= a5);
    assert(holds_at(bytes, pos, a4) && holds_at(bytes, q5, w5)) by {
        lemma_holds_at_concat(bytes, pos, a4, w5);
    }
    assert(holds_at(bytes, pos, a3) && holds_at(bytes, q4, w4)) by {
        lemma_holds_at_concat(bytes, pos, a3, w4);
    }
    assert(holds_at(bytes, pos, a2) && holds_at(bytes, q3, w3)) by {
        lemma_holds_at_concat(bytes, pos, a2, w3);
    }
    assert(holds_at(bytes, pos, a1) && holds_at(bytes, q2, w2)) by {
        lemma_holds_at_concat(bytes, pos, a1, w2);
    }
    assert(holds_at(bytes, pos, a0) && holds_at(bytes, q1, w1)) by {
        lemma_holds_at_concat(bytes, pos, a0, w1);
    }
    assert(({
        let r = parse_visibility(bytes, q0);
        r is Ok && r->Ok_0.0 == v.visibility && r->Ok_0.1 == q1
    })) by {
        lemma_parse_visibility_at(bytes, q0, v.visibility);
    }
    assert(({
        let r = parse_u16(bytes, q1);
        r is Ok && r->Ok_0.0 == v.flags.bits && r->Ok_0.1 == q2
    })) by {
        lemma_parse_u16_at(bytes, q1, v.flags.bits);
    }
    assert(({
        let r = parse_opt_nz::<types::Class>(bytes, q2);
        r is Ok && r->Ok_0.0 == v.base && r->Ok_0.1 == q3
    })) by {
        lemma_parse_u32_at(bytes, q2, opt_index_bits(v.base));
    }
    assert(({
        let r = parse_index_list_if::<types::Function>(v.flags.has_functions(), bytes, q3);
        r is Ok && r->Ok_0.0 == v.functions && r->Ok_0.1 == q4
    })) by {
        lemma_parse_index_list_if_at(bytes, q3, v.flags.has_functions(), v.functions);
    }
    assert(({
        let r = parse_index_list_if::<types::Field>(v.flags.has_fields(), bytes, q4);
        r is Ok && r->Ok_0.0 == v.fields && r->Ok_0.1 == q5
    })) by {
        lemma_parse_index_list_if_at(bytes, q4, v.flags.has_fields(), v.fields);
    }
    assert(({
        let r = parse_index_list_if::<types::Field>(v.flags.has_overrides(), bytes, q5);
        r is Ok && r->Ok_0.0 == v.overrides && r->Ok_0.1 == q6
    })) by {
        lemma_parse_index_list_if_at(bytes, q5, v.flags.has_overrides(), v.overrides);
    }
}

/// What is decoded as a class is well formed.
pub proof fn lemma_parse_class_wf(name: CNameIndex, bytes: Seq<u8>, pos: int)
    requires
        parse_class(name, bytes, pos) is Ok,
    ensures
        class_wf(parse_class(name, bytes, pos)->Ok_0.0),
{
    broadcast use group_index;

    lemma_le_len();
    let (f0, n0) = parse_visibility(bytes, pos)->Ok_0;
    let (f1, n1) = parse_u16(bytes, n0)->Ok_0;
    let (f2, n2) = parse_opt_nz::<types::Class>(bytes, n1)->Ok_0;
    lemma_parse_index_list_if_wf::<types::Function>(
        ClassFlags { bits: f1 }.has_functions(),
        bytes,
        n2,
    );
    let (f3, n3) = parse_index_list_if::<types::Function>(
        ClassFlags { bits: f1 }.has_functions(),
        bytes,
        n2,
    )->Ok_0;
    lemma_parse_index_list_if_wf::<types::Field>(ClassFlags { bits: f1 }.has_fields(), bytes, n3);
    let (f4, n4) = parse_index_list_if::<types::Field>(
        ClassFlags { bits: f1 }.has_fields(),
        bytes,
        n3,
    )->Ok_0;
    lemma_parse_index_list_if_wf::<types::Field>(
        ClassFlags { bits: f1 }.has_overrides(),
        bytes,
        n4,
    );
    let (f5, n5) = parse_index_list_if::<types::Field>(
        ClassFlags { bits: f1 }.has_overrides(),
        bytes,
        n4,
    )->Ok_0;
}

/// A member of an enum, as bytes.
pub open spec fn enum_member_wire(v: EnumMember) -> Seq<u8> {
    le64(i64_bits(v.value))
}

/// Whether a member of an enum is one that decoding can give: it names no
/// definition by zero.
pub open spec fn enum_member_wf(v: EnumMember) -> bool {
    &&& v.enum_@ != 0
}

/// A member of an enum at `pos`, and the position after it.
pub open spec fn parse_enum_member(
    name: CNameIndex,
    enum_: EnumIndex,
    bytes: Seq<u8>,
    pos: int,
) -> Result<(EnumMember, int), Error> {
    let r0 = parse_i64(bytes, pos);
    let (f0, n0) = r0->Ok_0;
    if r0 is Err {
        Err(r0->Err_0)
    } else {
        Ok((EnumMember { name, enum_, value: f0 }, n0))
    }
}

/// Decodes a member of an enum at `pos`; hands back the value and the
/// position after it.
pub fn take_enum_member(
    name: CNameIndex,
    enum_: EnumIndex,
    bytes: &[u8],
    pos: usize,
) -> (r: Result<(EnumMember, usize), Error>)
    ensures
        decoded(parse_enum_member(name, enum_, bytes@, pos as int), r),
{
    let (f0, n0) = take_i64(bytes, pos)?;
    Ok((EnumMember { name, enum_, value: f0 }, n0))
}

/// Lays a member of an enum over the buffer at `pos`, where there is room for
/// it.
pub(crate) fn put_enum_member(
    bytes: &mut [u8],
    pos: usize,
    v: &EnumMember,
) -> (r: Result<usize, Error>)
    requires
        pos + enum_member_wire(v@).len() <= old(bytes)@.len(),
    ensures
        laid(old(bytes)@, pos as int, enum_member_wire(v@), r, final(bytes)@),
{
    proof {
        lemma_le_len();
    }
    let n0 = put_i64(bytes, pos, v.value)?;
    Ok(n0)
}

/// The number of bytes that a member of an enum takes, if it is encodable and
/// that number fits in 32 bits.
pub fn measure_enum_member(v: &EnumMember) -> (r: Option<u32>)
    ensures
        r == measured(true, enum_member_wire(v@).len()),
{
    proof {
        lemma_le_len();
    }
    Some(8)
}

/// A member of an enum that the buffer holds is read back.
pub proof fn lemma_parse_enum_member_at(bytes: Seq<u8>, pos: int, v: EnumMember)
    requires
        holds_at(bytes, pos, enum_member_wire(v)),
        enum_member_wf(v),
    ensures
        parse_enum_member(v.name, v.enum_, bytes, pos) == Ok::<(EnumMember, int), Error>(
            (v, pos + enum_member_wire(v).len()),
        ),
{
    broadcast use group_index;

    lemma_le_len();
    lemma_parse_i64_at(bytes, pos, v.value);
}

/// What is decoded as a member of an enum is well formed.
pub proof fn lemma_parse_enum_member_wf(
    name: CNameIndex,
    enum_: EnumIndex,
    bytes: Seq<u8>,
    pos: int,
)
    requires
        parse_enum_member(name, enum_, bytes, pos) is Ok,
        enum_@ != 0,
    ensures
        enum_member_wf(parse_enum_member(name, enum_, bytes, pos)->Ok_0.0),
{
    broadcast use group_index;

    lemma_le_len();
    let (f0, n0) = parse_i64(bytes, pos)->Ok_0;
}

/// An enum, as bytes.
pub open spec fn enum_wire(v: EnumView) -> Seq<u8> {
    le8(v.flags) + le8(v.size) + index_list_wire(v.members) + le8(bool_bits(v.is_native))
}

/// Whether the counts and lengths in an enum fit the widths they are written
/// in.
pub open spec fn enum_encodable(v: EnumView) -> bool {
    &&& index_list_encodable(v.members)
}

/// Whether an enum is one that decoding can give: it is encodable, names no
/// definition by zero, and holds what its flags announce.
pub open spec fn enum_wf(v: EnumView) -> bool {
    &&& enum_encodable(v)
    &&& index_list_wf(v.members)
}

/// An enum at `pos`, and the position after it.
pub open spec fn parse_enum(
    name: CNameIndex,
    bytes: Seq<u8>,
    pos: int,
) -> Result<(EnumView, int), Error> {
    let r0 = parse_u8(bytes, pos);
    let (f0, n0) = r0->Ok_0;
    let r1 = parse_u8(bytes, n0);
    let (f1, n1) = r1->Ok_0;
    let r2 = parse_index_list::<types::EnumValue>(bytes, n1);
    let (f2, n2) = r2->Ok_0;
    let r3 = parse_bool(bytes, n2);
    let (f3, n3) = r3->Ok_0;
    if r0 is Err {
        Err(r0->Err_0)
    } else if r1 is Err {
        Err(r1->Err_0)
    } else if r2 is Err {
        Err(r2->Err_0)
    } else if r3 is Err {
        Err(r3->Err_0)
    } else {
        Ok((EnumView { name, flags: f0, size: f1, members: f2, is_native: f3 }, n3))
    }
}

/// Decodes an enum at `pos`; hands back the value and the position after it.
pub fn take_enum(name: CNameIndex, bytes: &[u8], pos: usize) -> (r: Result<(Enum, usize), Error>)
    ensures
        decoded(parse_enum(name, bytes@, pos as int), r),
{
    let (f0, n0) = take_u8(bytes, pos)?;
    let (f1, n1) = take_u8(bytes, n0)?;
    let (f2, n2) = take_index_list::<types::EnumValue>(bytes, n1)?;
    let (f3, n3) = take_bool(bytes, n2)?;
    Ok((Enum { name, flags: f0, size: f1, members: f2, is_native: f3 }, n3))
}

/// Lays an enum over the buffer at `pos`, where there is room for it.
pub(crate) fn put_enum(bytes: &mut [u8], pos: usize, v: &Enum) -> (r: Result<usize, Error>)
    requires
        enum_encodable(v@),
        pos + enum_wire(v@).len() <= old(bytes)@.len(),
    ensures
        laid(old(bytes)@, pos as int, enum_wire(v@), r, final(bytes)@),
{
    proof {
        lemma_le_len();
    }
    let ghost w0 = le8(v@.flags);
    let ghost w1 = le8(v@.size);
    let ghost w2 = index_list_wire(v@.members);
    let ghost w3 = le8(bool_bits(v@.is_native));
    let n0 = put_u8(bytes, pos, v.flags)?;
    let n1 = put_u8(bytes, n0, v.size)?;
    let ghost a1 = w0 + w1;
    assert(bytes@ == overlay(old(bytes)@, pos as int, a1) && n1 == pos + a1.len()) by {
        lemma_overlay_concat(old(bytes)@, pos as int, w0, w1);
    }
    let n2 = put_index_list(bytes, n1, &v.members)?;
    let ghost a2 = a1 + w2;
    assert(bytes@ == overlay(old(bytes)@, pos as int, a2) && n2 == pos + a2.len()) by {
        lemma_overlay_concat(old(bytes)@, pos as int, a1, w2);
    }
    let n3 = put_bool(bytes, n2, v.is_native)?;
    let ghost a3 = a2 + w3;
    assert(bytes@ == overlay(old(bytes)@, pos as int, a3) && n3 == pos + a3.len()) by {
        lemma_overlay_concat(old(bytes)@, pos as int, a2, w3);
    }
    Ok(n3)
}

/// The number of bytes that an enum takes, if it is encodable and that
/// number fits in 32 bits.
pub fn measure_enum(v: &Enum) -> (r: Option<u32>)
    ensures
        r == measured(enum_encodable(v@), enum_wire(v@).len()),
{
    proof {
        lemma_le_len();
    }
    let mut total: u64 = 3;
    match measure_index_list(&v.members) {
        Some(n) => {
            total = total + n as u64;
        },
        None => {
            return None;
        },
    }
    if total > 0xFFFF_FFFF {
        None
    } else {
        Some(total as u32)
    }
}

/// An enum that the buffer holds is read back.
pub proof fn lemma_parse_enum_at(bytes: Seq<u8>, pos: int, v: EnumView)
    requires
        holds_at(bytes, pos, enum_wire(v)),
        enum_wf(v),
    ensures
        parse_enum(v.name, bytes, pos) == Ok::<(EnumView, int), Error>(
            (v, pos + enum_wire(v).len()),
        ),
{
    broadcast use group_index;

    lemma_le_len();
    lemma_holds_at_concat(
        bytes,
        pos,
        le8(v.flags) + le8(v.size) + index_list_wire(v.members),
        le8(bool_bits(v.is_native)),
    );
    lemma_holds_at_concat(bytes, pos, le8(v.flags) + le8(v.size), index_list_wire(v.members));
    lemma_holds_at_concat(bytes, pos, le8(v.flags), le8(v.size));
    lemma_parse_u8_at(bytes, pos, v.flags);
    lemma_parse_u8_at(bytes, pos + (le8(v.flags)).len(), v.size);
    lemma_parse_index_list_at(bytes, pos + (le8(v.flags) + le8(v.size)).len(), v.members);
    lemma_parse_bool_at(
        bytes,
        pos + (le8(v.flags) + le8(v.size) + index_list_wire(v.members)).len(),
        v.is_native,
    );
}

/// What is decoded as an enum is well formed.
pub proof fn lemma_parse_enum_wf(name: CNameIndex, bytes: Seq<u8>, pos: int)
    requires
        parse_enum(name, bytes, pos) is Ok,
    ensures
        enum_wf(parse_enum(name, bytes, pos)->Ok_0.0),
{
    broadcast use group_index;

    lemma_le_len();
    let (f0, n0) = parse_u8(bytes, pos)->Ok_0;
    let (f1, n1) = parse_u8(bytes, n0)->Ok_0;
    lemma_parse_index_list_wf::<types::EnumValue>(bytes, n1);
    let (f2, n2) = parse_index_list::<types::EnumValue>(bytes, n1)->Ok_0;
    let (f3, n3) = parse_bool(bytes, n2)->Ok_0;
}

/// What follows the first parts of a function, as bytes.
pub open spec fn function_rest_wire(v: FunctionView) -> Seq<u8> {
    index_list_if_wire(v.flags.has_parameters(), v.parameters)
        + index_list_if_wire(v.flags.has_locals(), v.locals)
        + opt_u32_wire(v.operator)
        + opt_u8_wire(v.cast)
        + body_wire(v.flags.has_body(), v.body)
}

/// A function, as bytes.
pub open spec fn function_wire(v: FunctionView) -> Seq<u8> {
    visibility_wire(v.visibility)
        + le32(v.flags.bits)
        + opt_source_wire(v.source)
        + opt_type_wire(v.return_type)
        + opt_function_wire(v.base_method)
        + function_rest_wire(v)
}

/// Whether the counts and lengths in a function fit the widths they are
/// written in.
pub open spec fn function_encodable(v: FunctionView) -> bool {
    &&& index_list_if_encodable(v.flags.has_parameters(), v.parameters)
    &&& index_list_if_encodable(v.flags.has_locals(), v.locals)
    &&& body_encodable(v.flags.has_body(), v.body)
}

/// Whether a function is one that decoding can give: it is encodable, names
/// no definition by zero, and holds what its flags announce.
pub open spec fn function_wf(v: FunctionView) -> bool {
    &&& function_encodable(v)
    &&& opt_source_wf(!v.flags.is_native(), v.source)
    &&& opt_type_wf(v.flags.has_return_value(), v.return_type)
    &&& opt_function_wf(v.flags.has_base_method(), v.base_method)
    &&& index_list_if_wf(v.flags.has_parameters(), v.parameters)
    &&& index_list_if_wf(v.flags.has_locals(), v.locals)
    &&& opt_u32_wf(v.flags.is_operator(), v.operator)
    &&& opt_u8_wf(v.flags.is_cast(), v.cast)
    &&& body_wf(v.flags.has_body(), v.body)
    &&& opt_index_wf(v.class)
}

/// A function at `pos`, and the position after it.
pub open spec fn parse_function(
    name: CNameIndex,
    class: Option<ClassIndex>,
    bytes: Seq<u8>,
    pos: int,
) -> Result<(FunctionView, int), Error> {
    let r0 = parse_visibility(bytes, pos);
    let (f0, n0) = r0->Ok_0;
    let r1 = parse_u32(bytes, n0);
    let (f1, n1) = r1->Ok_0;
    let r2 = parse_opt_source(!FunctionFlags { bits: f1 }.is_native(), bytes, n1);
    let (f2, n2) = r2->Ok_0;
    let r3 = parse_opt_type(FunctionFlags { bits: f1 }.has_return_value(), bytes, n2);
    let (f3, n3) = r3->Ok_0;
    let r4 = parse_opt_function(FunctionFlags { bits: f1 }.has_base_method(), bytes, n3);
    let (f4, n4) = r4->Ok_0;
    if r0 is Err {
        Err(r0->Err_0)
    } else if r1 is Err {
        Err(r1->Err_0)
    } else if r2 is Err {
        Err(r2->Err_0)
    } else if r3 is Err {
        Err(r3->Err_0)
    } else if r4 is Err {
        Err(r4->Err_0)
    } else {
        parse_function_rest(name, class, f0, f1, f2, f3, f4, bytes, n4)
    }
}

/// What follows the first parts of a function at `pos`, put together with
/// them, and the position after it.
pub open spec fn parse_function_rest(
    name: CNameIndex,
    class: Option<ClassIndex>,
    f0: Visibility,
    f1: u32,
    f2: Option<SourceReference>,
    f3: Option<TypeIndex>,
    f4: Option<FunctionIndex>,
    bytes: Seq<u8>,
    pos: int,
) -> Result<(FunctionView, int), Error> {
    let r5 = parse_index_list_if::<types::Parameter>(
        FunctionFlags { bits: f1 }.has_parameters(),
        bytes,
        pos,
    );
    let (f5, n5) = r5->Ok_0;
    let r6 = parse_index_list_if::<types::Local>(
        FunctionFlags { bits: f1 }.has_locals(),
        bytes,
        n5,
    );
    let (f6, n6) = r6->Ok_0;
    let r7 = parse_opt_u32(FunctionFlags { bits: f1 }.is_operator(), bytes, n6);
    let (f7, n7) = r7->Ok_0;
    let r8 = parse_opt_u8(FunctionFlags { bits: f1 }.is_cast(), bytes, n7);
    let (f8, n8) = r8->Ok_0;
    let r9 = parse_body(FunctionFlags { bits: f1 }.has_body(), bytes, n8);
    let (f9, n9) = r9->Ok_0;
    if r5 is Err {
        Err(r5->Err_0)
    } else if r6 is Err {
        Err(r6->Err_0)
    } else if r7 is Err {
        Err(r7->Err_0)
    } else if r8 is Err {
        Err(r8->Err_0)
    } else if r9 is Err {
        Err(r9->Err_0)
    } else {
        Ok(
            (
                FunctionView {
                    name,
                    class,
                    visibility: f0,
                    flags: FunctionFlags { bits: f1 },
                    source: f2,
                    return_type: f3,
                    base_method: f4,
                    parameters: f5,
                    locals: f6,
                    operator: f7,
                    cast: f8,
                    body: f9,
                },
                n9,
            ),
        )
    }
}

/// Decodes a function at `pos`; hands back the value and the position after it.
pub fn take_function(
    name: CNameIndex,
    class: Option<ClassIndex>,
    bytes: &[u8],
    pos: usize,
) -> (r: Result<(Function, usize), Error>)
    ensures
        decoded(parse_function(name, class, bytes@, pos as int), r),
{
    let (f0, n0) = take_visibility(bytes, pos)?;
    let (f1, n1) = take_u32(bytes, n0)?;
    let (f2, n2) = take_opt_source(!FunctionFlags { bits: f1 }.is_native(), bytes, n1)?;
    let (f3, n3) = take_opt_type(FunctionFlags { bits: f1 }.has_return_value(), bytes, n2)?;
    let (f4, n4) = take_opt_function(FunctionFlags { bits: f1 }.has_base_method(), bytes, n3)?;
    take_function_rest(name, class, f0, f1, f2, f3, f4, bytes, n4)
}

/// Decodes what follows the first parts of a function at `pos`, and puts it
/// together with them.
fn take_function_rest(
    name: CNameIndex,
    class: Option<ClassIndex>,
    f0: Visibility,
    f1: u32,
    f2: Option<SourceReference>,
    f3: Option<TypeIndex>,
    f4: Option<FunctionIndex>,
    bytes: &[u8],
    pos: usize,
) -> (r: Result<(Function, usize), Error>)
    ensures
        decoded(parse_function_rest(name, class, f0, f1, f2, f3, f4, bytes@, pos as int), r),
{
    let (f5, n5) = take_index_list_if::<types::Parameter>(
        FunctionFlags { bits: f1 }.has_parameters(),
        bytes,
        pos,
    )?;
    let (f6, n6) = take_index_list_if::<types::Local>(
        FunctionFlags { bits: f1 }.has_locals(),
        bytes,
        n5,
    )?;
    let (f7, n7) = take_opt_u32(FunctionFlags { bits: f1 }.is_operator(), bytes, n6)?;
    let (f8, n8) = take_opt_u8(FunctionFlags { bits: f1 }.is_cast(), bytes, n7)?;
    let (f9, n9) = take_body(FunctionFlags { bits: f1 }.has_body(), bytes, n8)?;
    Ok(
        (
            Function {
                name,
                class,
                visibility: f0,
                flags: FunctionFlags { bits: f1 },
                source: f2,
                return_type: f3,
                base_method: f4,
                parameters: f5,
                locals: f6,
                operator: f7,
                cast: f8,
                body: f9,
            },
            n9,
        ),
    )
}

/// Lays what follows the first parts of a function over the buffer at `pos`.
pub(crate) fn put_function_rest(
    bytes: &mut [u8],
    pos: usize,
    v: &Function,
) -> (r: Result<usize, Error>)
    requires
        function_encodable(v@),
        pos + function_rest_wire(v@).len() <= old(bytes)@.len(),
    ensures
        laid(old(bytes)@, pos as int, function_rest_wire(v@), r, final(bytes)@),
{
    proof {
        lemma_le_len();
    }
    let ghost w0 = index_list_if_wire(v@.flags.has_parameters(), v@.parameters);
    let ghost w1 = index_list_if_wire(v@.flags.has_locals(), v@.locals);
    let ghost w2 = opt_u32_wire(v@.operator);
    let ghost w3 = opt_u8_wire(v@.cast);
    let ghost w4 = body_wire(v@.flags.has_body(), v@.body);
    let n0 = put_index_list_if(bytes, pos, v.flags.has_parameters(), &v.parameters)?;
    let n1 = put_index_list_if(bytes, n0, v.flags.has_locals(), &v.locals)?;
    let ghost a1 = w0 + w1;
    assert(bytes@ == overlay(old(bytes)@, pos as int, a1) && n1 == pos + a1.len()) by {
        lemma_overlay_concat(old(bytes)@, pos as int, w0, w1);
    }
    let n2 = put_opt_u32(bytes, n1, &v.operator)?;
    let ghost a2 = a1 + w2;
    assert(bytes@ == overlay(old(bytes)@, pos as int, a2) && n2 == pos + a2.len()) by {
        lemma_overlay_concat(old(bytes)@, pos as int, a1, w2);
    }
    let n3 = put_opt_u8(bytes, n2, &v.cast)?;
    let ghost a3 = a2 + w3;
    assert(bytes@ == overlay(old(bytes)@, pos as int, a3) && n3 == pos + a3.len()) by {
        lemma_overlay_concat(old(bytes)@, pos as int, a2, w3);
    }
    let n4 = put_body(bytes, n3, v.flags.has_body(), &v.body)?;
    let ghost a4 = a3 + w4;
    assert(bytes@ == overlay(old(bytes)@, pos as int, a4) && n4 == pos + a4.len()) by {
        lemma_overlay_concat(old(bytes)@, pos as int, a3, w4);
    }
    Ok(n4)
}

/// Lays a function over the buffer at `pos`, where there is room for it.
pub(crate) fn put_function(bytes: &mut [u8], pos: usize, v: &Function) -> (r: Result<usize, Error>)
    requires
        function_encodable(v@),
        pos + function_wire(v@).len() <= old(bytes)@.len(),
    ensures
        laid(old(bytes)@, pos as int, function_wire(v@), r, final(bytes)@),
{
    proof {
        lemma_le_len();
    }
    let ghost w0 = visibility_wire(v@.visibility);
    let ghost w1 = le32(v@.flags.bits);
    let ghost w2 = opt_source_wire(v@.source);
    let ghost w3 = opt_type_wire(v@.return_type);
    let ghost w4 = opt_function_wire(v@.base_method);
    let ghost w5 = function_rest_wire(v@);
    let n0 = put_visibility(bytes, pos, &v.visibility)?;
    let n1 = put_u32(bytes, n0, v.flags.bits)?;
    let ghost a1 = w0 + w1;
    assert(bytes@ == overlay(old(bytes)@, pos as int, a1) && n1 == pos + a1.len()) by {
        lemma_overlay_concat(old(bytes)@, pos as int, w0, w1);
    }
    let n2 = put_opt_source(bytes, n1, &v.source)?;
    let ghost a2 = a1 + w2;
    assert(bytes@ == overlay(old(bytes)@, pos as int, a2) && n2 == pos + a2.len()) by {
        lemma_overlay_concat(old(bytes)@, pos as int, a1, w2);
    }
    let n3 = put_opt_type(bytes, n2, &v.return_type)?;
    let ghost a3 = a2 + w3;
    assert(bytes@ == overlay(old(bytes)@, pos as int, a3) && n3 == pos + a3.len()) by {
        lemma_overlay_concat(old(bytes)@, pos as int, a2, w3);
    }
    let n4 = put_opt_function(bytes, n3, &v.base_method)?;
    let ghost a4 = a3 + w4;
    assert(bytes@ == overlay(old(bytes)@, pos as int, a4) && n4 == pos + a4.len()) by {
        lemma_overlay_concat(old(bytes)@, pos as int, a3, w4);
    }
    let n5 = put_function_rest(bytes, n4, v)?;
    let ghost a5 = a4 + w5;
    assert(bytes@ == overlay(old(bytes)@, pos as int, a5) && n5 == pos + a5.len()) by {
        lemma_overlay_concat(old(bytes)@, pos as int, a4, w5);
    }
    Ok(n5)
}

/// The number of bytes that a function takes, if it is encodable and that
/// number fits in 32 bits.
pub fn measure_function(v: &Function) -> (r: Option<u32>)
    ensures
        r == measured(function_encodable(v@), function_wire(v@).len()),
{
    proof {
        lemma_le_len();
    }
    let mut total: u64 = 5;
    match measure_opt_source(&v.source) {
        Some(n) => {
            total = total + n as u64;
        },
        None => {
            return None;
        },
    }
    match measure_opt_type(&v.return_type) {
        Some(n) => {
            total = total + n as u64;
        },
        None => {
            return None;
        },
    }
    match measure_opt_function(&v.base_method) {
        Some(n) => {
            total = total + n as u64;
        },
        None => {
            return None;
        },
    }
    match measure_index_list_if(v.flags.has_parameters(), &v.parameters) {
        Some(n) => {
            total = total + n as u64;
        },
        None => {
            return None;
        },
    }
    match measure_index_list_if(v.flags.has_locals(), &v.locals) {
        Some(n) => {
            total = total + n as u64;
        },
        None => {
            return None;
        },
    }
    match measure_opt_u32(&v.operator) {
        Some(n) => {
            total = total + n as u64;
        },
        None => {
            return None;
        },
    }
    match measure_opt_u8(&v.cast) {
        Some(n) => {
            total = total + n as u64;
        },
        None => {
            return None;
        },
    }
    match measure_body(v.flags.has_body(), &v.body) {
        Some(n) => {
            total = total + n as u64;
        },
        None => {
            return None;
        },
    }
    if total > 0xFFFF_FFFF {
        None
    } else {
        Some(total as u32)
    }
}

/// What follows the first parts of a function is read back from a buffer that
/// holds it, and put together with them.
pub proof fn lemma_parse_function_rest_at(bytes: Seq<u8>, pos: int, v: FunctionView)
    requires
        holds_at(bytes, pos, function_rest_wire(v)),
        function_wf(v),
    ensures
        parse_function_rest(
            v.name,
            v.class,
            v.visibility,
            v.flags.bits,
            v.source,
            v.return_type,
            v.base_method,
            bytes,
            pos,
        ) == Ok::<(FunctionView, int), Error>((v, pos + function_rest_wire(v).len())),
{
    broadcast use group_index;

    lemma_le_len();
    let w0 = index_list_if_wire(v.flags.has_parameters(), v.parameters);
    let w1 = index_list_if_wire(v.flags.has_locals(), v.locals);
    let w2 = opt_u32_wire(v.operator);
    let w3 = opt_u8_wire(v.cast);
    let w4 = body_wire(v.flags.has_body(), v.body);
    let a0 = w0;
    let a1 = a0 + w1;
    let a2 = a1 + w2;
    let a3 = a2 + w3;
    let a4 = a3 + w4;
    let q0 = pos;
    let q1 = pos + a0.len();
    let q2 = pos + a1.len();
    let q3 = pos + a2.len();
    let q4 = pos + a3.len();
    let q5 = pos + a4.len();
    assert(function_rest_wire(v) =~= a4);
    assert(holds_at(bytes, pos, a3) && holds_at(bytes, q4, w4)) by {
        lemma_holds_at_concat(bytes, pos, a3, w4);
    }
    assert(holds_at(bytes, pos, a2) && holds_at(bytes, q3, w3)) by {
        lemma_holds_at_concat(bytes, pos, a2, w3);
    }
    assert(holds_at(bytes, pos, a1) && holds_at(bytes, q2, w2)) by {
        lemma_holds_at_concat(bytes, pos, a1, w2);
    }
    assert(holds_at(bytes, pos, a0) && holds_at(bytes, q1, w1)) by {
        lemma_holds_at_concat(bytes, pos, a0, w1);
    }
    assert(({
        let r = parse_index_list_if::<types::Parameter>(v.flags.has_parameters(), bytes, q0);
        r is Ok && r->Ok_0.0 == v.parameters && r->Ok_0.1 == q1
    })) by {
        lemma_parse_index_list_if_at(bytes, q0, v.flags.has_parameters(), v.parameters);
    }
    assert(({
        let r = parse_index_list_if::<types::Local>(v.flags.has_locals(), bytes, q1);
        r is Ok && r->Ok_0.0 == v.locals && r->Ok_0.1 == q2
    })) by {
        lemma_parse_index_list_if_at(bytes, q1, v.flags.has_locals(), v.locals);
    }
    assert(({
        let r = parse_opt_u32(v.flags.is_operator(), bytes, q2);
        r is Ok && r->Ok_0.0 == v.operator && r->Ok_0.1 == q3
    })) by {
        lemma_parse_opt_u32_at(bytes, q2, v.flags.is_operator(), v.operator);
    }
    assert(({
        let r = parse_opt_u8(v.flags.is_cast(), bytes, q3);
        r is Ok && r->Ok_0.0 == v.cast && r->Ok_0.1 == q4
    })) by {
        lemma_parse_opt_u8_at(bytes, q3, v.flags.is_cast(), v.cast);
    }
    assert(({
        let r = parse_body(v.flags.has_body(), bytes, q4);
        r is Ok && r->Ok_0.0 == v.body && r->Ok_0.1 == q5
    })) by {
        lemma_parse_body_at(bytes, q4, v.flags.has_body(), v.body);
    }
}

/// A function that the buffer holds is read back.
pub proof fn lemma_parse_function_at(bytes: Seq<u8>, pos: int, v: FunctionView)
    requires
        holds_at(bytes, pos, function_wire(v)),
        function_wf(v),
    ensures
        parse_function(v.name, v.class, bytes, pos) == Ok::<(FunctionView, int), Error>(
            (v, pos + function_wire(v).len()),
        ),
{
    broadcast use group_index;

    lemma_le_len();
    let w0 = visibility_wire(v.visibility);
    let w1 = le32(v.flags.bits);
    let w2 = opt_source_wire(v.source);
    let w3 = opt_type_wire(v.return_type);
    let w4 = opt_function_wire(v.base_method);
    let w5 = function_rest_wire(v);
    let a0 = w0;
    let a1 = a0 + w1;
    let a2 = a1 + w2;
    let a3 = a2 + w3;
    let a4 = a3 + w4;
    let a5 = a4 + w5;
    let q0 = pos;
    let q1 = pos + a0.len();
    let q2 = pos + a1.len();
    let q3 = pos + a2.len();
    let q4 = pos + a3.len();
    let q5 = pos + a4.len();
    let q6 = pos + a5.len();
    assert(function_wire(v) == a5);
    assert(holds_at(bytes, pos, a4) && holds_at(bytes, q5, w5)) by {
        lemma_holds_at_concat(bytes, pos, a4, w5);
    }
    assert(holds_at(bytes, pos, a3) && holds_at(bytes, q4, w4)) by {
        lemma_holds_at_concat(bytes, pos, a3, w4);
    }
    assert(holds_at(bytes, pos, a2) && holds_at(bytes, q3, w3)) by {
        lemma_holds_at_concat(bytes, pos, a2, w3);
    }
    assert(holds_at(bytes, pos, a1) && holds_at(bytes, q2, w2)) by {
        lemma_holds_at_concat(bytes, pos, a1, w2);
    }
    assert(holds_at(bytes, pos, a0) && holds_at(bytes, q1, w1)) by {
        lemma_holds_at_concat(bytes, pos, a0, w1);
    }
    assert(({
        let r = parse_visibility(bytes, q0);
        r is Ok && r->Ok_0.0 == v.visibility && r->Ok_0.1 == q1
    })) by {
        lemma_parse_visibility_at(bytes, q0, v.visibility);
    }
    assert(({
        let r = parse_u32(bytes, q1);
        r is Ok && r->Ok_0.0 == v.flags.bits && r->Ok_0.1 == q2
    })) by {
        lemma_parse_u32_at(bytes, q1, v.flags.bits);
    }
    assert(({
        let r = parse_opt_source(!v.flags.is_native(), bytes, q2);
        r is Ok && r->Ok_0.0 == v.source && r->Ok_0.1 == q3
    })) by {
        lemma_parse_opt_source_at(bytes, q2, !v.flags.is_native(), v.source);
    }
    assert(({
        let r = parse_opt_type(v.flags.has_return_value(), bytes, q3);
        r is Ok && r->Ok_0.0 == v.return_type && r->Ok_0.1 == q4
    })) by {
        lemma_parse_opt_type_at(bytes, q3, v.flags.has_return_value(), v.return_type);
    }
    assert(({
        let r = parse_opt_function(v.flags.has_base_method(), bytes, q4);
        r is Ok && r->Ok_0.0 == v.base_method && r->Ok_0.1 == q5
    })) by {
        lemma_parse_opt_function_at(bytes, q4, v.flags.has_base_method(), v.base_method);
    }
    assert(({
        let r = parse_function_rest(
            v.name,
            v.class,
            v.visibility,
            v.flags.bits,
            v.source,
            v.return_type,
            v.base_method,
            bytes,
            q5,
        );
        r is Ok && r->Ok_0.0 == v && r->Ok_0.1 == q6
    })) by {
        lemma_parse_function_rest_at(bytes, q5, v);
    }
}

/// What is decoded as a function is well formed.
pub proof fn lemma_parse_function_wf(
    name: CNameIndex,
    class: Option<ClassIndex>,
    bytes: Seq<u8>,
    pos: int,
)
    requires
        parse_function(name, class, bytes, pos) is Ok,
        opt_index_wf(class),
    ensures
        function_wf(parse_function(name, class, bytes, pos)->Ok_0.0),
{
    broadcast use group_index;

    lemma_le_len();
    let (f0, n0) = parse_visibility(bytes, pos)->Ok_0;
    let (f1, n1) = parse_u32(bytes, n0)->Ok_0;
    lemma_parse_opt_source_wf(!FunctionFlags { bits: f1 }.is_native(), bytes, n1);
    let (f2, n2) = parse_opt_source(!FunctionFlags { bits: f1 }.is_native(), bytes, n1)->Ok_0;
    lemma_parse_opt_type_wf(FunctionFlags { bits: f1 }.has_return_value(), bytes, n2);
    let (f3, n3) = parse_opt_type(FunctionFlags { bits: f1 }.has_return_value(), bytes, n2)->Ok_0;
    lemma_parse_opt_function_wf(FunctionFlags { bits: f1 }.has_base_method(), bytes, n3);
    let (f4, n4) = parse_opt_function(
        FunctionFlags { bits: f1 }.has_base_method(),
        bytes,
        n3,
    )->Ok_0;
    lemma_parse_index_list_if_wf::<types::Parameter>(
        FunctionFlags { bits: f1 }.has_parameters(),
        bytes,
        n4,
    );
    let (f5, n5) = parse_index_list_if::<types::Parameter>(
        FunctionFlags { bits: f1 }.has_parameters(),
        bytes,
        n4,
    )->Ok_0;
    lemma_parse_index_list_if_wf::<types::Local>(
        FunctionFlags { bits: f1 }.has_locals(),
        bytes,
        n5,
    );
    let (f6, n6) = parse_index_list_if::<types::Local>(
        FunctionFlags { bits: f1 }.has_locals(),
        bytes,
        n5,
    )->Ok_0;
    lemma_parse_opt_u32_wf(FunctionFlags { bits: f1 }.is_operator(), bytes, n6);
    let (f7, n7) = parse_opt_u32(FunctionFlags { bits: f1 }.is_operator(), bytes, n6)->Ok_0;
    lemma_parse_opt_u8_wf(FunctionFlags { bits: f1 }.is_cast(), bytes, n7);
    let (f8, n8) = parse_opt_u8(FunctionFlags { bits: f1 }.is_cast(), bytes, n7)->Ok_0;
    lemma_parse_body_wf(FunctionFlags { bits: f1 }.has_body(), bytes, n8);
    let (f9, n9) = parse_body(FunctionFlags { bits: f1 }.has_body(), bytes, n8)->Ok_0;
}

/// A parameter, as bytes.
pub open spec fn parameter_wire(v: Parameter) -> Seq<u8> {
    le32(v.type_@) + le8(v.flags.bits)
}

/// Whether a parameter is one that decoding can give: it names no definition
/// by zero.
pub open spec fn parameter_wf(v: Parameter) -> bool {
    &&& v.type_@ != 0
    &&& v.function@ != 0
}

/// A parameter at `pos`, and the position after it.
pub open spec fn parse_parameter(
    name: CNameIndex,
    function: FunctionIndex,
    bytes: Seq<u8>,
    pos: int,
) -> Result<(Parameter, int), Error> {
    let r0 = parse_nz::<types::Type>(bytes, pos);
    let (f0, n0) = r0->Ok_0;
    let r1 = parse_u8(bytes, n0);
    let (f1, n1) = r1->Ok_0;
    if r0 is Err {
        Err(r0->Err_0)
    } else if r1 is Err {
        Err(r1->Err_0)
    } else {
        Ok((Parameter { name, function, type_: f0, flags: ParameterFlags { bits: f1 } }, n1))
    }
}

/// Decodes a parameter at `pos`; hands back the value and the position after
/// it.
pub fn take_parameter(
    name: CNameIndex,
    function: FunctionIndex,
    bytes: &[u8],
    pos: usize,
) -> (r: Result<(Parameter, usize), Error>)
    ensures
        decoded(parse_parameter(name, function, bytes@, pos as int), r),
{
    let (f0, n0) = take_nz::<types::Type>(bytes, pos)?;
    let (f1, n1) = take_u8(bytes, n0)?;
    Ok((Parameter { name, function, type_: f0, flags: ParameterFlags { bits: f1 } }, n1))
}

/// Lays a parameter over the buffer at `pos`, where there is room for it.
pub(crate) fn put_parameter(
    bytes: &mut [u8],
    pos: usize,
    v: &Parameter,
) -> (r: Result<usize, Error>)
    requires
        pos + parameter_wire(v@).len() <= old(bytes)@.len(),
    ensures
        laid(old(bytes)@, pos as int, parameter_wire(v@), r, final(bytes)@),
{
    proof {
        lemma_le_len();
    }
    let n0 = put_u32(bytes, pos, v.type_.value())?;
    let n1 = put_u8(bytes, n0, v.flags.bits)?;
    proof {
        lemma_overlay_concat(old(bytes)@, pos as int, le32(v@.type_@), le8(v@.flags.bits));
    }
    Ok(n1)
}

/// The number of bytes that a parameter takes, if it is encodable and that
/// number fits in 32 bits.
pub fn measure_parameter(v: &Parameter) -> (r: Option<u32>)
    ensures
        r == measured(true, parameter_wire(v@).len()),
{
    proof {
        lemma_le_len();
    }
    Some(5)
}

/// A parameter that the buffer holds is read back.
pub proof fn lemma_parse_parameter_at(bytes: Seq<u8>, pos: int, v: Parameter)
    requires
        holds_at(bytes, pos, parameter_wire(v)),
        parameter_wf(v),
    ensures
        parse_parameter(v.name, v.function, bytes, pos) == Ok::<(Parameter, int), Error>(
            (v, pos + parameter_wire(v).len()),
        ),
{
    broadcast use group_index;

    lemma_le_len();
    lemma_holds_at_concat(bytes, pos, le32(v.type_@), le8(v.flags.bits));
    lemma_parse_u32_at(bytes, pos, v.type_@);
    lemma_parse_u8_at(bytes, pos + (le32(v.type_@)).len(), v.flags.bits);
}

/// What is decoded as a parameter is well formed.
pub proof fn lemma_parse_parameter_wf(
    name: CNameIndex,
    function: FunctionIndex,
    bytes: Seq<u8>,
    pos: int,
)
    requires
        parse_parameter(name, function, bytes, pos) is Ok,
        function@ != 0,
    ensures
        parameter_wf(parse_parameter(name, function, bytes, pos)->Ok_0.0),
{
    broadcast use group_index;

    lemma_le_len();
    let (f0, n0) = parse_nz::<types::Type>(bytes, pos)->Ok_0;
    let (f1, n1) = parse_u8(bytes, n0)->Ok_0;
}

/// A local, as bytes.
pub open spec fn local_wire(v: Local) -> Seq<u8> {
    le32(v.type_@) + le8(v.flags.bits)
}

/// Whether a local is one that decoding can give: it names no definition by
/// zero.
pub open spec fn local_wf(v: Local) -> bool {
    &&& v.type_@ != 0
    &&& v.function@ != 0
}

/// A local at `pos`, and the position after it.
pub open spec fn parse_local(
    name: CNameIndex,
    function: FunctionIndex,
    bytes: Seq<u8>,
    pos: int,
) -> Result<(Local, int), Error> {
    let r0 = parse_nz::<types::Type>(bytes, pos);
    let (f0, n0) = r0->Ok_0;
    let r1 = parse_u8(bytes, n0);
    let (f1, n1) = r1->Ok_0;
    if r0 is Err {
        Err(r0->Err_0)
    } else if r1 is Err {
        Err(r1->Err_0)
    } else {
        Ok((Local { name, function, type_: f0, flags: LocalFlags { bits: f1 } }, n1))
    }
}

/// Decodes a local at `pos`; hands back the value and the position after it.
pub fn take_local(
    name: CNameIndex,
    function: FunctionIndex,
    bytes: &[u8],
    pos: usize,
) -> (r: Result<(Local, usize), Error>)
    ensures
        decoded(parse_local(name, function, bytes@, pos as int), r),
{
    let (f0, n0) = take_nz::<types::Type>(bytes, pos)?;
    let (f1, n1) = take_u8(bytes, n0)?;
    Ok((Local { name, function, type_: f0, flags: LocalFlags { bits: f1 } }, n1))
}

/// Lays a local over the buffer at `pos`, where there is room for it.
pub(crate) fn put_local(bytes: &mut [u8], pos: usize, v: &Local) -> (r: Result<usize, Error>)
    requires
        pos + local_wire(v@).len() <= old(bytes)@.len(),
    ensures
        laid(old(bytes)@, pos as int, local_wire(v@), r, final(bytes)@),
{
    proof {
        lemma_le_len();
    }
    let n0 = put_u32(bytes, pos, v.type_.value())?;
    let n1 = put_u8(bytes, n0, v.flags.bits)?;
    proof {
        lemma_overlay_concat(old(bytes)@, pos as int, le32(v@.type_@), le8(v@.flags.bits));
    }
    Ok(n1)
}

/// The number of bytes that a local takes, if it is encodable and that
/// number fits in 32 bits.
pub fn measure_local(v: &Local) -> (r: Option<u32>)
    ensures
        r == measured(true, local_wire(v@).len()),
{
    proof {
        lemma_le_len();
    }
    Some(5)
}

/// A local that the buffer holds is read back.
pub proof fn lemma_parse_local_at(bytes: Seq<u8>, pos: int, v: Local)
    requires
        holds_at(bytes, pos, local_wire(v)),
        local_wf(v),
    ensures
        parse_local(
            v.name,
            v.function,
            bytes,
            pos,
        ) == Ok::<(Local, int), Error>((v, pos + local_wire(v).len())),
{
    broadcast use group_index;

    lemma_le_len();
    lemma_holds_at_concat(bytes, pos, le32(v.type_@), le8(v.flags.bits));
    lemma_parse_u32_at(bytes, pos, v.type_@);
    lemma_parse_u8_at(bytes, pos + (le32(v.type_@)).len(), v.flags.bits);
}

/// What is decoded as a local is well formed.
pub proof fn lemma_parse_local_wf(
    name: CNameIndex,
    function: FunctionIndex,
    bytes: Seq<u8>,
    pos: int,
)
    requires
        parse_local(name, function, bytes, pos) is Ok,
        function@ != 0,
    ensures
        local_wf(parse_local(name, function, bytes, pos)->Ok_0.0),
{
    broadcast use group_index;

    lemma_le_len();
    let (f0, n0) = parse_nz::<types::Type>(bytes, pos)->Ok_0;
    let (f1, n1) = parse_u8(bytes, n0)->Ok_0;
}

/// A field, as bytes.
pub open spec fn field_wire(v: FieldView) -> Seq<u8> {
    visibility_wire(v.visibility)
        + le32(v.type_@)
        + le16(v.flags.bits)
        + hint_wire(v.flags.has_hint(), v.hint)
        + property_list_wire(v.attributes)
        + property_list_wire(v.defaults)
}

/// Whether the counts and lengths in a field fit the widths they are written
/// in.
pub open spec fn field_encodable(v: FieldView) -> bool {
    &&& hint_encodable(v.flags.has_hint(), v.hint)
    &&& property_list_encodable(v.attributes)
    &&& property_list_encodable(v.defaults)
}

/// Whether a field is one that decoding can give: it is encodable, names no
/// definition by zero, and holds what its flags announce.
pub open spec fn field_wf(v: FieldView) -> bool {
    &&& field_encodable(v)
    &&& v.type_@ != 0
    &&& hint_wf(v.flags.has_hint(), v.hint)
    &&& property_list_wf(v.attributes)
    &&& property_list_wf(v.defaults)
    &&& v.class@ != 0
}

/// A field at `pos`, and the position after it.
pub open spec fn parse_field(
    name: CNameIndex,
    class: ClassIndex,
    bytes: Seq<u8>,
    pos: int,
) -> Result<(FieldView, int), Error> {
    let r0 = parse_visibility(bytes, pos);
    let (f0, n0) = r0->Ok_0;
    let r1 = parse_nz::<types::Type>(bytes, n0);
    let (f1, n1) = r1->Ok_0;
    let r2 = parse_u16(bytes, n1);
    let (f2, n2) = r2->Ok_0;
    let r3 = parse_hint(FieldFlags { bits: f2 }.has_hint(), bytes, n2);
    let (f3, n3) = r3->Ok_0;
    let r4 = parse_property_list(bytes, n3);
    let (f4, n4) = r4->Ok_0;
    let r5 = parse_property_list(bytes, n4);
    let (f5, n5) = r5->Ok_0;
    if r0 is Err {
        Err(r0->Err_0)
    } else if r1 is Err {
        Err(r1->Err_0)
    } else if r2 is Err {
        Err(r2->Err_0)
    } else if r3 is Err {
        Err(r3->Err_0)
    } else if r4 is Err {
        Err(r4->Err_0)
    } else if r5 is Err {
        Err(r5->Err_0)
    } else {
        Ok(
            (
                FieldView {
                    name,
                    class,
                    visibility: f0,
                    type_: f1,
                    flags: FieldFlags { bits: f2 },
                    hint: f3,
                    attributes: f4,
                    defaults: f5,
                },
                n5,
            ),
        )
    }
}

/// Decodes a field at `pos`; hands back the value and the position after it.
pub fn take_field(
    name: CNameIndex,
    class: ClassIndex,
    bytes: &[u8],
    pos: usize,
) -> (r: Result<(Field, usize), Error>)
    ensures
        decoded(parse_field(name, class, bytes@, pos as int), r),
{
    let (f0, n0) = take_visibility(bytes, pos)?;
    let (f1, n1) = take_nz::<types::Type>(bytes, n0)?;
    let (f2, n2) = take_u16(bytes, n1)?;
    let (f3, n3) = take_hint(FieldFlags { bits: f2 }.has_hint(), bytes, n2)?;
    let (f4, n4) = take_property_list(bytes, n3)?;
    let (f5, n5) = take_property_list(bytes, n4)?;
    Ok(
        (
            Field {
                name,
                class,
                visibility: f0,
                type_: f1,
                flags: FieldFlags { bits: f2 },
                hint: f3,
                attributes: f4,
                defaults: f5,
            },
            n5,
        ),
    )
}

/// Lays a field over the buffer at `pos`, where there is room for it.
pub(crate) fn put_field(bytes: &mut [u8], pos: usize, v: &Field) -> (r: Result<usize, Error>)
    requires
        field_encodable(v@),
        pos + field_wire(v@).len() <= old(bytes)@.len(),
    ensures
        laid(old(bytes)@, pos as int, field_wire(v@), r, final(bytes)@),
{
    proof {
        lemma_le_len();
    }
    let ghost w0 = visibility_wire(v@.visibility);
    let ghost w1 = le32(v@.type_@);
    let ghost w2 = le16(v@.flags.bits);
    let ghost w3 = hint_wire(v@.flags.has_hint(), v@.hint);
    let ghost w4 = property_list_wire(v@.attributes);
    let ghost w5 = property_list_wire(v@.defaults);
    let n0 = put_visibility(bytes, pos, &v.visibility)?;
    let n1 = put_u32(bytes, n0, v.type_.value())?;
    let ghost a1 = w0 + w1;
    assert(bytes@ == overlay(old(bytes)@, pos as int, a1) && n1 == pos + a1.len()) by {
        lemma_overlay_concat(old(bytes)@, pos as int, w0, w1);
    }
    let n2 = put_u16(bytes, n1, v.flags.bits)?;
    let ghost a2 = a1 + w2;
    assert(bytes@ == overlay(old(bytes)@, pos as int, a2) && n2 == pos + a2.len()) by {
        lemma_overlay_concat(old(bytes)@, pos as int, a1, w2);
    }
    let n3 = put_hint(bytes, n2, v.flags.has_hint(), &v.hint)?;
    let ghost a3 = a2 + w3;
    assert(bytes@ == overlay(old(bytes)@, pos as int, a3) && n3 == pos + a3.len()) by {
        lemma_overlay_concat(old(bytes)@, pos as int, a2, w3);
    }
    let n4 = put_property_list(bytes, n3, &v.attributes)?;
    let ghost a4 = a3 + w4;
    assert(bytes@ == overlay(old(bytes)@, pos as int, a4) && n4 == pos + a4.len()) by {
        lemma_overlay_concat(old(bytes)@, pos as int, a3, w4);
    }
    let n5 = put_property_list(bytes, n4, &v.defaults)?;
    let ghost a5 = a4 + w5;
    assert(bytes@ == overlay(old(bytes)@, pos as int, a5) && n5 == pos + a5.len()) by {
        lemma_overlay_concat(old(bytes)@, pos as int, a4, w5);
    }
    Ok(n5)
}

/// The number of bytes that a field takes, if it is encodable and that
/// number fits in 32 bits.
pub fn measure_field(v: &Field) -> (r: Option<u32>)
    ensures
        r == measured(field_encodable(v@), field_wire(v@).len()),
{
    proof {
        lemma_le_len();
    }
    let mut total: u64 = 7;
    match measure_hint(v.flags.has_hint(), &v.hint) {
        Some(n) => {
            total = total + n as u64;
        },
        None => {
            return None;
        },
    }
    match measure_property_list(&v.attributes) {
        Some(n) => {
            total = total + n as u64;
        },
        None => {
            return None;
        },
    }
    match measure_property_list(&v.defaults) {
        Some(n) => {
            total = total + n as u64;
        },
        None => {
            return None;
        },
    }
    if total > 0xFFFF_FFFF {
        None
    } else {
        Some(total as u32)
    }
}

/// A field that the buffer holds is read back.
pub proof fn lemma_parse_field_at(bytes: Seq<u8>, pos: int, v: FieldView)
    requires
        holds_at(bytes, pos, field_wire(v)),
        field_wf(v),
    ensures
        parse_field(v.name, v.class, bytes, pos) == Ok::<(FieldView, int), Error>(
            (v, pos + field_wire(v).len()),
        ),
{
    broadcast use group_index;

    lemma_le_len();
    let w0 = visibility_wire(v.visibility);
    let w1 = le32(v.type_@);
    let w2 = le16(v.flags.bits);
    let w3 = hint_wire(v.flags.has_hint(), v.hint);
    let w4 = property_list_wire(v.attributes);
    let w5 = property_list_wire(v.defaults);
    let a0 = w0;
    let a1 = a0 + w1;
    let a2 = a1 + w2;
    let a3 = a2 + w3;
    let a4 = a3 + w4;
    let a5 = a4 + w5;
    let q0 = pos;
    let q1 = pos + a0.len();
    let q2 = pos + a1.len();
    let q3 = pos + a2.len();
    let q4 = pos + a3.len();
    let q5 = pos + a4.len();
    let q6 = pos + a5.len();
    assert(field_wire(v) =~= a5);
    assert(holds_at(bytes, pos, a4) && holds_at(bytes, q5, w5)) by {
        lemma_holds_at_concat(bytes, pos, a4, w5);
    }
    assert(holds_at(bytes, pos, a3) && holds_at(bytes, q4, w4)) by {
        lemma_holds_at_concat(bytes, pos, a3, w4);
    }
    assert(holds_at(bytes, pos, a2) && holds_at(bytes, q3, w3)) by {
        lemma_holds_at_concat(bytes, pos, a2, w3);
    }
    assert(holds_at(bytes, pos, a1) && holds_at(bytes, q2, w2)) by {
        lemma_holds_at_concat(bytes, pos, a1, w2);
    }
    assert(holds_at(bytes, pos, a0) && holds_at(bytes, q1, w1)) by {
        lemma_holds_at_concat(bytes, pos, a0, w1);
    }
    assert(({
        let r = parse_visibility(bytes, q0);
        r is Ok && r->Ok_0.0 == v.visibility && r->Ok_0.1 == q1
    })) by {
        lemma_parse_visibility_at(bytes, q0, v.visibility);
    }
    assert(({
        let r = parse_nz::<types::Type>(bytes, q1);
        r is Ok && r->Ok_0.0 == v.type_ && r->Ok_0.1 == q2
    })) by {
        lemma_parse_u32_at(bytes, q1, v.type_@);
    }
    assert(({
        let r = parse_u16(bytes, q2);
        r is Ok && r->Ok_0.0 == v.flags.bits && r->Ok_0.1 == q3
    })) by {
        lemma_parse_u16_at(bytes, q2, v.flags.bits);
    }
    assert(({
        let r = parse_hint(v.flags.has_hint(), bytes, q3);
        r is Ok && r->Ok_0.0 == v.hint && r->Ok_0.1 == q4
    })) by {
        lemma_parse_hint_at(bytes, q3, v.flags.has_hint(), v.hint);
    }
    assert(({
        let r = parse_property_list(bytes, q4);
        r is Ok && r->Ok_0.0 == v.attributes && r->Ok_0.1 == q5
    })) by {
        lemma_parse_property_list_at(bytes, q4, v.attributes);
    }
    assert(({
        let r = parse_property_list(bytes, q5);
        r is Ok && r->Ok_0.0 == v.defaults && r->Ok_0.1 == q6
    })) by {
        lemma_parse_property_list_at(bytes, q5, v.defaults);
    }
}

/// What is decoded as a field is well formed.
pub proof fn lemma_parse_field_wf(name: CNameIndex, class: ClassIndex, bytes: Seq<u8>, pos: int)
    requires
        parse_field(name, class, bytes, pos) is Ok,
        class@ != 0,
    ensures
        field_wf(parse_field(name, class, bytes, pos)->Ok_0.0),
{
    broadcast use group_index;

    lemma_le_len();
    let (f0, n0) = parse_visibility(bytes, pos)->Ok_0;
    let (f1, n1) = parse_nz::<types::Type>(bytes, n0)->Ok_0;
    let (f2, n2) = parse_u16(bytes, n1)->Ok_0;
    lemma_parse_hint_wf(FieldFlags { bits: f2 }.has_hint(), bytes, n2);
    let (f3, n3) = parse_hint(FieldFlags { bits: f2 }.has_hint(), bytes, n2)->Ok_0;
    lemma_parse_property_list_wf(bytes, n3);
    let (f4, n4) = parse_property_list(bytes, n3)->Ok_0;
    lemma_parse_property_list_wf(bytes, n4);
    let (f5, n5) = parse_property_list(bytes, n4)->Ok_0;
}

/// A source file, as bytes.
pub open spec fn source_file_wire(v: SourceFileView) -> Seq<u8> {
    le32(v.id) + le64(v.path_hash) + str16_wire(v.path)
}

/// Whether the counts and lengths in a source file fit the widths they are
/// written in.
pub open spec fn source_file_encodable(v: SourceFileView) -> bool {
    &&& str16_encodable(v.path)
}

/// Whether a source file is one that decoding can give: it is encodable,
/// names no definition by zero, and holds what its flags announce.
pub open spec fn source_file_wf(v: SourceFileView) -> bool {
    &&& source_file_encodable(v)
    &&& str16_wf(v.path)
}

/// A source file at `pos`, and the position after it.
pub open spec fn parse_source_file(
    bytes: Seq<u8>,
    pos: int,
) -> Result<(SourceFileView, int), Error> {
    let r0 = parse_u32(bytes, pos);
    let (f0, n0) = r0->Ok_0;
    let r1 = parse_u64(bytes, n0);
    let (f1, n1) = r1->Ok_0;
    let r2 = parse_str16(bytes, n1);
    let (f2, n2) = r2->Ok_0;
    if r0 is Err {
        Err(r0->Err_0)
    } else if r1 is Err {
        Err(r1->Err_0)
    } else if r2 is Err {
        Err(r2->Err_0)
    } else {
        Ok((SourceFileView { id: f0, path_hash: f1, path: f2 }, n2))
    }
}

/// Decodes a source file at `pos`; hands back the value and the position
/// after it.
pub fn take_source_file(bytes: &[u8], pos: usize) -> (r: Result<(SourceFile, usize), Error>)
    ensures
        decoded(parse_source_file(bytes@, pos as int), r),
{
    let (f0, n0) = take_u32(bytes, pos)?;
    let (f1, n1) = take_u64(bytes, n0)?;
    let (f2, n2) = take_str16(bytes, n1)?;
    Ok((SourceFile { id: f0, path_hash: f1, path: f2 }, n2))
}

/// Lays a source file over the buffer at `pos`, where there is room for it.
pub(crate) fn put_source_file(
    bytes: &mut [u8],
    pos: usize,
    v: &SourceFile,
) -> (r: Result<usize, Error>)
    requires
        source_file_encodable(v@),
        pos + source_file_wire(v@).len() <= old(bytes)@.len(),
    ensures
        laid(old(bytes)@, pos as int, source_file_wire(v@), r, final(bytes)@),
{
    proof {
        lemma_le_len();
    }
    let ghost w0 = le32(v@.id);
    let ghost w1 = le64(v@.path_hash);
    let ghost w2 = str16_wire(v@.path);
    let n0 = put_u32(bytes, pos, v.id)?;
    let n1 = put_u64(bytes, n0, v.path_hash)?;
    let ghost a1 = w0 + w1;
    assert(bytes@ == overlay(old(bytes)@, pos as int, a1) && n1 == pos + a1.len()) by {
        lemma_overlay_concat(old(bytes)@, pos as int, w0, w1);
    }
    let n2 = put_str16(bytes, n1, &v.path)?;
    let ghost a2 = a1 + w2;
    assert(bytes@ == overlay(old(bytes)@, pos as int, a2) && n2 == pos + a2.len()) by {
        lemma_overlay_concat(old(bytes)@, pos as int, a1, w2);
    }
    Ok(n2)
}

/// The number of bytes that a source file takes, if it is encodable and that
/// number fits in 32 bits.
pub fn measure_source_file(v: &SourceFile) -> (r: Option<u32>)
    ensures
        r == measured(source_file_encodable(v@), source_file_wire(v@).len()),
{
    proof {
        lemma_le_len();
    }
    let mut total: u64 = 12;
    match measure_str16(&v.path) {
        Some(n) => {
            total = total + n as u64;
        },
        None => {
            return None;
        },
    }
    if total > 0xFFFF_FFFF {
        None
    } else {
        Some(total as u32)
    }
}

/// A source file that the buffer holds is read back.
pub proof fn lemma_parse_source_file_at(bytes: Seq<u8>, pos: int, v: SourceFileView)
    requires
        holds_at(bytes, pos, source_file_wire(v)),
        source_file_wf(v),
    ensures
        parse_source_file(bytes, pos) == Ok::<(SourceFileView, int), Error>(
            (v, pos + source_file_wire(v).len()),
        ),
{
    broadcast use group_index;

    lemma_le_len();
    lemma_holds_at_concat(bytes, pos, le32(v.id) + le64(v.path_hash), str16_wire(v.path));
    lemma_holds_at_concat(bytes, pos, le32(v.id), le64(v.path_hash));
    lemma_parse_u32_at(bytes, pos, v.id);
    lemma_parse_u64_at(bytes, pos + (le32(v.id)).len(), v.path_hash);
    lemma_parse_str16_at(bytes, pos + (le32(v.id) + le64(v.path_hash)).len(), v.path);
}

/// What is decoded as a source file is well formed.
pub proof fn lemma_parse_source_file_wf(bytes: Seq<u8>, pos: int)
    requires
        parse_source_file(bytes, pos) is Ok,
    ensures
        source_file_wf(parse_source_file(bytes, pos)->Ok_0.0),
{
    broadcast use group_index;

    lemma_le_len();
    let (f0, n0) = parse_u32(bytes, pos)->Ok_0;
    let (f1, n1) = parse_u64(bytes, n0)->Ok_0;
    lemma_parse_str16_wf(bytes, n1);
    let (f2, n2) = parse_str16(bytes, n1)->Ok_0;
}


/// A definition. `Undefined` is what slot zero of the table holds, and
/// nothing else.
#[derive(Debug, Clone, PartialEq)]
pub enum Definition {
    Undefined,
    Type(Type),
    Class(Class),
    EnumMember(EnumMember),
    Enum(Enum),
    Function(Function),
    Parameter(Parameter),
    Local(Local),
    Field(Field),
    SourceFile(SourceFile),
}

/// What stands for a `Definition` in contracts.
pub enum DefinitionView {
    Undefined,
    Type(Type),
    Class(ClassView),
    EnumMember(EnumMember),
    Enum(EnumView),
    Function(FunctionView),
    Parameter(Parameter),
    Local(Local),
    Field(FieldView),
    SourceFile(SourceFileView),
}

impl View for Definition {
    type V = DefinitionView;

    open spec fn view(&self) -> DefinitionView {
        match self {
            Definition::Undefined => DefinitionView::Undefined,
            Definition::Type(v) => DefinitionView::Type(v@),
            Definition::Class(v) => DefinitionView::Class(v@),
            Definition::EnumMember(v) => DefinitionView::EnumMember(v@),
            Definition::Enum(v) => DefinitionView::Enum(v@),
            Definition::Function(v) => DefinitionView::Function(v@),
            Definition::Parameter(v) => DefinitionView::Parameter(v@),
            Definition::Local(v) => DefinitionView::Local(v@),
            Definition::Field(v) => DefinitionView::Field(v@),
            Definition::SourceFile(v) => DefinitionView::SourceFile(v@),
        }
    }
}

/// The header that slot zero of the table holds: all zero.
pub open spec fn undefined_header() -> DefinitionHeader {
    DefinitionHeader { name: PoolIndex::spec_new(0), parent: 0, size: 0, offset: 0, kind: 0 }
}

/// The error that a definition which cannot be encoded is answered with.
pub open spec fn unencodable_error() -> Error {
    Error::BadInput { err: "definition does not fit the format" }
}

/// The error that a kind which no definition has is answered with.
pub open spec fn kind_error() -> Error {
    Error::BadInput { err: "unknown definition kind" }
}

impl DefinitionView {
    /// The payload of the definition, as bytes.
    pub open spec fn payload(self) -> Seq<u8> {
        match self {
            DefinitionView::Undefined => Seq::empty(),
            DefinitionView::Type(v) => type_wire(v),
            DefinitionView::Class(v) => class_wire(v),
            DefinitionView::EnumMember(v) => enum_member_wire(v),
            DefinitionView::Enum(v) => enum_wire(v),
            DefinitionView::Function(v) => function_wire(v),
            DefinitionView::Parameter(v) => parameter_wire(v),
            DefinitionView::Local(v) => local_wire(v),
            DefinitionView::Field(v) => field_wire(v),
            DefinitionView::SourceFile(v) => source_file_wire(v),
        }
    }

    /// Whether the counts and lengths in the definition fit the widths they
    /// are written in.
    pub open spec fn encodable(self) -> bool {
        match self {
            DefinitionView::Undefined => true,
            DefinitionView::Type(v) => true,
            DefinitionView::Class(v) => class_encodable(v),
            DefinitionView::EnumMember(v) => true,
            DefinitionView::Enum(v) => enum_encodable(v),
            DefinitionView::Function(v) => function_encodable(v),
            DefinitionView::Parameter(v) => true,
            DefinitionView::Local(v) => true,
            DefinitionView::Field(v) => field_encodable(v),
            DefinitionView::SourceFile(v) => source_file_encodable(v),
        }
    }

    /// Whether the definition is one that decoding can give: it is not
    /// `Undefined`, it is encodable, it names no definition by zero, and it
    /// holds what its flags announce.
    pub open spec fn wf(self) -> bool {
        match self {
            DefinitionView::Undefined => false,
            DefinitionView::Type(v) => type_wf(v),
            DefinitionView::Class(v) => class_wf(v),
            DefinitionView::EnumMember(v) => enum_member_wf(v),
            DefinitionView::Enum(v) => enum_wf(v),
            DefinitionView::Function(v) => function_wf(v),
            DefinitionView::Parameter(v) => parameter_wf(v),
            DefinitionView::Local(v) => local_wf(v),
            DefinitionView::Field(v) => field_wf(v),
            DefinitionView::SourceFile(v) => source_file_wf(v),
        }
    }

    /// The header of the definition, for a payload of `size` bytes at
    /// `offset`. `Undefined` has the header that is all zero.
    pub open spec fn header(self, size: u32, offset: u32) -> DefinitionHeader {
        match self {
            DefinitionView::Undefined => undefined_header(),
            DefinitionView::Type(v) => DefinitionHeader {
                name: v.name,
                parent: 0,
                size,
                offset,
                kind: KIND_TYPE,
            },
            DefinitionView::Class(v) => DefinitionHeader {
                name: v.name,
                parent: 0,
                size,
                offset,
                kind: KIND_CLASS,
            },
            DefinitionView::EnumMember(v) => DefinitionHeader {
                name: v.name,
                parent: v.enum_@,
                size,
                offset,
                kind: KIND_ENUM_MEMBER,
            },
            DefinitionView::Enum(v) => DefinitionHeader {
                name: v.name,
                parent: 0,
                size,
                offset,
                kind: KIND_ENUM,
            },
            DefinitionView::Function(v) => DefinitionHeader {
                name: v.name,
                parent: opt_index_bits(v.class),
                size,
                offset,
                kind: KIND_FUNCTION,
            },
            DefinitionView::Parameter(v) => DefinitionHeader {
                name: v.name,
                parent: v.function@,
                size,
                offset,
                kind: KIND_PARAMETER,
            },
            DefinitionView::Local(v) => DefinitionHeader {
                name: v.name,
                parent: v.function@,
                size,
                offset,
                kind: KIND_LOCAL,
            },
            DefinitionView::Field(v) => DefinitionHeader {
                name: v.name,
                parent: v.class@,
                size,
                offset,
                kind: KIND_FIELD,
            },
            DefinitionView::SourceFile(v) => DefinitionHeader {
                name: PoolIndex::spec_new(0),
                parent: 0,
                size,
                offset,
                kind: KIND_SOURCE_FILE,
            },
        }
    }
}

/// Hands a decoded payload on as a definition.
pub open spec fn as_definition<T>(
    r: Result<(T, int), Error>,
    wrap: spec_fn(T) -> DefinitionView,
) -> Result<(DefinitionView, int), Error> {
    match r {
        Ok((v, to)) => Ok((wrap(v), to)),
        Err(e) => Err(e),
    }
}

/// The definition that the header announces, decoded from where the header
/// says its payload lies, and the position after the payload. The name and
/// the parent come from the header. A parent of zero is refused where the
/// kind must have a parent.
pub open spec fn parse_payload(h: DefinitionHeader, bytes: Seq<u8>) -> Result<
    (DefinitionView, int),
    Error,
> {
    let pos = h.offset as int;
    if h.kind == KIND_TYPE {
        as_definition(parse_type(h.name, bytes, pos), |v: Type| DefinitionView::Type(v))
    } else if h.kind == KIND_CLASS {
        as_definition(parse_class(h.name, bytes, pos), |v: ClassView| DefinitionView::Class(v))
    } else if h.kind == KIND_ENUM_MEMBER {
        if h.parent == 0 {
            Err(zero_index_error())
        } else {
            as_definition(
                parse_enum_member(h.name, NzPoolIndex::spec_of(h.parent), bytes, pos),
                |v: EnumMember| DefinitionView::EnumMember(v),
            )
        }
    } else if h.kind == KIND_ENUM {
        as_definition(parse_enum(h.name, bytes, pos), |v: EnumView| DefinitionView::Enum(v))
    } else if h.kind == KIND_FUNCTION {
        as_definition(
            parse_function(h.name, opt_index_of(h.parent), bytes, pos),
            |v: FunctionView| DefinitionView::Function(v),
        )
    } else if h.kind == KIND_PARAMETER {
        if h.parent == 0 {
            Err(zero_index_error())
        } else {
            as_definition(
                parse_parameter(h.name, NzPoolIndex::spec_of(h.parent), bytes, pos),
                |v: Parameter| DefinitionView::Parameter(v),
            )
        }
    } else if h.kind == KIND_LOCAL {
        if h.parent == 0 {
            Err(zero_index_error())
        } else {
            as_definition(
                parse_local(h.name, NzPoolIndex::spec_of(h.parent), bytes, pos),
                |v: Local| DefinitionView::Local(v),
            )
        }
    } else if h.kind == KIND_FIELD {
        if h.parent == 0 {
            Err(zero_index_error())
        } else {
            as_definition(
                parse_field(h.name, NzPoolIndex::spec_of(h.parent), bytes, pos),
                |v: FieldView| DefinitionView::Field(v),
            )
        }
    } else if h.kind == KIND_SOURCE_FILE {
        as_definition(
            parse_source_file(bytes, pos),
            |v: SourceFileView| DefinitionView::SourceFile(v),
        )
    } else {
        Err(kind_error())
    }
}

impl DefinitionHeader {
    /// The header of `def`, for a payload of `size` bytes at `offset`.
    pub fn from_definition(def: &Definition, size: u32, offset: u32) -> (h: DefinitionHeader)
        ensures
            h == def@.header(size, offset),
    {
        match def {
            Definition::Undefined => DefinitionHeader {
                name: PoolIndex::new(0),
                parent: 0,
                size: 0,
                offset: 0,
                kind: 0,
            },
            Definition::Type(v) => DefinitionHeader {
                name: v.name,
                parent: 0,
                size,
                offset,
                kind: KIND_TYPE,
            },
            Definition::Class(v) => DefinitionHeader {
                name: v.name,
                parent: 0,
                size,
                offset,
                kind: KIND_CLASS,
            },
            Definition::EnumMember(v) => DefinitionHeader {
                name: v.name,
                parent: v.enum_.value(),
                size,
                offset,
                kind: KIND_ENUM_MEMBER,
            },
            Definition::Enum(v) => DefinitionHeader {
                name: v.name,
                parent: 0,
                size,
                offset,
                kind: KIND_ENUM,
            },
            Definition::Function(v) => DefinitionHeader {
                name: v.name,
                parent: opt_index_value(v.class),
                size,
                offset,
                kind: KIND_FUNCTION,
            },
            Definition::Parameter(v) => DefinitionHeader {
                name: v.name,
                parent: v.function.value(),
                size,
                offset,
                kind: KIND_PARAMETER,
            },
            Definition::Local(v) => DefinitionHeader {
                name: v.name,
                parent: v.function.value(),
                size,
                offset,
                kind: KIND_LOCAL,
            },
            Definition::Field(v) => DefinitionHeader {
                name: v.name,
                parent: v.class.value(),
                size,
                offset,
                kind: KIND_FIELD,
            },
            Definition::SourceFile(v) => DefinitionHeader {
                name: PoolIndex::new(0),
                parent: 0,
                size,
                offset,
                kind: KIND_SOURCE_FILE,
            },
        }
    }
}

impl Definition {
    /// Decodes the definition that `header` announces from where the header
    /// says its payload lies; hands back the definition and the position
    /// after the payload.
    pub fn read_payload(bytes: &[u8], header: &DefinitionHeader) -> (r: Result<
        (Definition, usize),
        Error,
    >)
        ensures
            decoded(parse_payload(*header, bytes@), r),
    {
        let pos: usize = header.offset as usize;
        let kind: u8 = header.kind;
        if kind == KIND_TYPE {
            let (v, to) = take_type(header.name, bytes, pos)?;
            Ok((Definition::Type(v), to))
        } else if kind == KIND_CLASS {
            let (v, to) = take_class(header.name, bytes, pos)?;
            Ok((Definition::Class(v), to))
        } else if kind == KIND_ENUM_MEMBER {
            match NzPoolIndex::new(header.parent) {
                Some(parent) => {
                    let (v, to) = take_enum_member(header.name, parent, bytes, pos)?;
                    Ok((Definition::EnumMember(v), to))
                },
                None => Err(Error::BadInput { err: "index must not be zero" }),
            }
        } else if kind == KIND_ENUM {
            let (v, to) = take_enum(header.name, bytes, pos)?;
            Ok((Definition::Enum(v), to))
        } else if kind == KIND_FUNCTION {
            let (v, to) = take_function(header.name, NzPoolIndex::new(header.parent), bytes, pos)?;
            Ok((Definition::Function(v), to))
        } else if kind == KIND_PARAMETER {
            match NzPoolIndex::new(header.parent) {
                Some(parent) => {
                    let (v, to) = take_parameter(header.name, parent, bytes, pos)?;
                    Ok((Definition::Parameter(v), to))
                },
                None => Err(Error::BadInput { err: "index must not be zero" }),
            }
        } else if kind == KIND_LOCAL {
            match NzPoolIndex::new(header.parent) {
                Some(parent) => {
                    let (v, to) = take_local(header.name, parent, bytes, pos)?;
                    Ok((Definition::Local(v), to))
                },
                None => Err(Error::BadInput { err: "index must not be zero" }),
            }
        } else if kind == KIND_FIELD {
            match NzPoolIndex::new(header.parent) {
                Some(parent) => {
                    let (v, to) = take_field(header.name, parent, bytes, pos)?;
                    Ok((Definition::Field(v), to))
                },
                None => Err(Error::BadInput { err: "index must not be zero" }),
            }
        } else if kind == KIND_SOURCE_FILE {
            let (v, to) = take_source_file(bytes, pos)?;
            Ok((Definition::SourceFile(v), to))
        } else {
            Err(Error::BadInput { err: "unknown definition kind" })
        }
    }

    /// The number of bytes that the payload takes, if the definition is
    /// encodable and that number fits in 32 bits.
    pub fn measure(&self) -> (r: Option<u32>)
        ensures
            r == measured(self@.encodable(), self@.payload().len()),
    {
        match self {
            Definition::Undefined => Some(0),
            Definition::Type(v) => measure_type(v),
            Definition::Class(v) => measure_class(v),
            Definition::EnumMember(v) => measure_enum_member(v),
            Definition::Enum(v) => measure_enum(v),
            Definition::Function(v) => measure_function(v),
            Definition::Parameter(v) => measure_parameter(v),
            Definition::Local(v) => measure_local(v),
            Definition::Field(v) => measure_field(v),
            Definition::SourceFile(v) => measure_source_file(v),
        }
    }

    /// Encodes the payload into the buffer at `pos`; hands back the position
    /// after it. A definition that is not encodable, or whose payload is
    /// longer than 32 bits can say, is refused; so is a payload that does
    /// not fit into the buffer. Where the payload is refused, the buffer is
    /// left as it was.
    pub fn write_at(&self, bytes: &mut [u8], pos: usize) -> (r: Result<usize, Error>)
        ensures
            match measured(self@.encodable(), self@.payload().len()) {
                Some(_) => encoded(old(bytes)@, pos as int, self@.payload(), r, final(bytes)@),
                None => r == Err::<usize, Error>(
                    unencodable_error(),
                ) && final(bytes)@ == old(bytes)@,
            },
    {
        let size: usize = match self.measure() {
            Some(size) => size as usize,
            None => {
                return Err(Error::BadInput { err: "definition does not fit the format" });
            },
        };
        let len: usize = bytes.len();
        if pos > len {
            return Err(Error::BadOffset(pos));
        }
        if len - pos < size {
            return Err(Error::Incomplete);
        }
        self.put(bytes, pos)
    }

    /// Lays the payload over the buffer at `pos`, where there is room for
    /// it; hands back the position after it.
    pub(crate) fn put(&self, bytes: &mut [u8], pos: usize) -> (r: Result<usize, Error>)
        requires
            self@.encodable(),
            pos + self@.payload().len() <= old(bytes)@.len(),
        ensures
            laid(old(bytes)@, pos as int, self@.payload(), r, final(bytes)@),
    {
        match self {
            Definition::Undefined => {
                proof {
                    assert(overlay(bytes@, pos as int, Seq::<u8>::empty()) =~= bytes@);
                }
                Ok(pos)
            },
            Definition::Type(v) => put_type(bytes, pos, v),
            Definition::Class(v) => put_class(bytes, pos, v),
            Definition::EnumMember(v) => put_enum_member(bytes, pos, v),
            Definition::Enum(v) => put_enum(bytes, pos, v),
            Definition::Function(v) => put_function(bytes, pos, v),
            Definition::Parameter(v) => put_parameter(bytes, pos, v),
            Definition::Local(v) => put_local(bytes, pos, v),
            Definition::Field(v) => put_field(bytes, pos, v),
            Definition::SourceFile(v) => put_source_file(bytes, pos, v),
        }
    }
}

/// A well-formed definition whose payload the buffer holds at `offset` is
/// decoded from its header to itself.
pub proof fn lemma_parse_payload_at(bytes: Seq<u8>, d: DefinitionView, size: u32, offset: u32)
    requires
        d.wf(),
        holds_at(bytes, offset as int, d.payload()),
    ensures
        parse_payload(d.header(size, offset), bytes) == Ok::<(DefinitionView, int), Error>(
            (d, offset + d.payload().len()),
        ),
{
    broadcast use group_index;

    let pos = offset as int;
    match d {
        DefinitionView::Undefined => {},
        DefinitionView::Type(v) => {
            lemma_parse_type_at(bytes, pos, v);
        },
        DefinitionView::Class(v) => {
            lemma_parse_class_at(bytes, pos, v);
        },
        DefinitionView::EnumMember(v) => {
            lemma_parse_enum_member_at(bytes, pos, v);
        },
        DefinitionView::Enum(v) => {
            lemma_parse_enum_at(bytes, pos, v);
        },
        DefinitionView::Function(v) => {
            lemma_parse_function_at(bytes, pos, v);
        },
        DefinitionView::Parameter(v) => {
            lemma_parse_parameter_at(bytes, pos, v);
        },
        DefinitionView::Local(v) => {
            lemma_parse_local_at(bytes, pos, v);
        },
        DefinitionView::Field(v) => {
            lemma_parse_field_at(bytes, pos, v);
        },
        DefinitionView::SourceFile(v) => {
            lemma_parse_source_file_at(bytes, pos, v);
        },
    }
}

/// What is decoded from a header is a well-formed definition.
pub proof fn lemma_parse_payload_wf(h: DefinitionHeader, bytes: Seq<u8>)
    requires
        parse_payload(h, bytes) is Ok,
    ensures
        parse_payload(h, bytes)->Ok_0.0.wf(),
{
    broadcast use group_index;

    let pos = h.offset as int;
    if h.kind == KIND_TYPE {
        lemma_parse_type_wf(h.name, bytes, pos);
    } else if h.kind == KIND_CLASS {
        lemma_parse_class_wf(h.name, bytes, pos);
    } else if h.kind == KIND_ENUM_MEMBER {
        lemma_parse_enum_member_wf(h.name, NzPoolIndex::spec_of(h.parent), bytes, pos);
    } else if h.kind == KIND_ENUM {
        lemma_parse_enum_wf(h.name, bytes, pos);
    } else if h.kind == KIND_FUNCTION {
        lemma_parse_function_wf(h.name, opt_index_of(h.parent), bytes, pos);
    } else if h.kind == KIND_PARAMETER {
        lemma_parse_parameter_wf(h.name, NzPoolIndex::spec_of(h.parent), bytes, pos);
    } else if h.kind == KIND_LOCAL {
        lemma_parse_local_wf(h.name, NzPoolIndex::spec_of(h.parent), bytes, pos);
    } else if h.kind == KIND_FIELD {
        lemma_parse_field_wf(h.name, NzPoolIndex::spec_of(h.parent), bytes, pos);
    } else if h.kind == KIND_SOURCE_FILE {
        lemma_parse_source_file_wf(bytes, pos);
    }
}

} // verus!
