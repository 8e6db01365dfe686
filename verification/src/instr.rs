//! The instructions that function bodies are made of, and their encoding.
//!
//! An instruction is a one-byte tag followed by its operands. The operands of
//! each instruction have a fixed width, but for `Profile`, which carries a
//! byte string behind a length. `Target` is a marker that stands for a place
//! in the code: it takes no room and is never written.

use vstd::prelude::*;
use vstd::slice::slice_to_vec;
use vstd::std_specs::convert::FromSpecImpl;
use vstd::std_specs::ops::{AddSpecImpl, SubSpecImpl};
use crate::codec::{
    bool_bits, decoded, encoded, holds_at, i16_bits, i32_bits, i64_bits, i8_bits, laid, le16, le32,
    le64, le8, lemma_holds_at_concat, lemma_le_len, lemma_overlay_concat, lemma_parse_bool_at,
    lemma_parse_bytes_at, lemma_parse_i16_at, lemma_parse_i32_at, lemma_parse_i64_at,
    lemma_parse_i8_at, lemma_parse_padded_at, lemma_parse_u16_at, lemma_parse_u32_at,
    lemma_parse_u64_at, lemma_parse_u8_at, overlay, padded, parse_bool, parse_bytes, parse_i16,
    parse_i32, parse_i64, parse_i8, parse_nz_padded, parse_pool, parse_pool_padded, parse_u16,
    parse_u32, parse_u64, parse_u8, parsed, put_bool, put_bytes, put_i16, put_i32, put_i64, put_i8,
    put_padded, put_u16, put_u32, put_u64, put_u8, take_bool, take_bytes, take_i16, take_i32,
    take_i64, take_i8, take_nz_padded, take_pool, take_pool_padded, take_u16, take_u32, take_u64,
    take_u8,
};
use crate::error::Error;
use crate::index::{
    ClassIndex, CNameIndex, EnumIndex, EnumValueIndex, FieldIndex, FunctionIndex, group_index,
    LocalIndex, NzPoolIndex, ParameterIndex, ResourceIndex, StringIndex, TweakDbIndex, TypeIndex,
    types,
};

verus! {

/// A signed 16-bit displacement within a function's code.
#[derive(Debug, Clone, Copy, PartialEq, Eq, PartialOrd, Ord, Hash)]
pub struct Offset {
    pub value: i16,
}

impl From<Offset> for i16 {
    fn from(offset: Offset) -> (r: i16) {
        offset.value
    }
}

impl FromSpecImpl<Offset> for i16 {
    open spec fn obeys_from_spec() -> bool {
        true
    }

    open spec fn from_spec(offset: Offset) -> i16 {
        offset.value
    }
}

impl From<i16> for Offset {
    fn from(value: i16) -> (r: Offset) {
        Offset { value }
    }
}

impl FromSpecImpl<i16> for Offset {
    open spec fn obeys_from_spec() -> bool {
        true
    }

    open spec fn from_spec(value: i16) -> Offset {
        Offset { value }
    }
}

impl core::ops::Add<i16> for Offset {
    type Output = Offset;

    fn add(self, rhs: i16) -> (r: Offset) {
        Offset { value: self.value + rhs }
    }
}

impl AddSpecImpl<i16> for Offset {
    open spec fn obeys_add_spec() -> bool {
        true
    }

    open spec fn add_req(self, rhs: i16) -> bool {
        i16::MIN <= self.value + rhs <= i16::MAX
    }

    open spec fn add_spec(self, rhs: i16) -> Offset {
        Offset { value: (self.value + rhs) as i16 }
    }
}

impl core::ops::Sub<i16> for Offset {
    type Output = Offset;

    fn sub(self, rhs: i16) -> (r: Offset) {
        Offset { value: self.value - rhs }
    }
}

impl SubSpecImpl<i16> for Offset {
    open spec fn obeys_sub_spec() -> bool {
        true
    }

    open spec fn sub_req(self, rhs: i16) -> bool {
        i16::MIN <= self.value - rhs <= i16::MAX
    }

    open spec fn sub_spec(self, rhs: i16) -> Offset {
        Offset { value: (self.value - rhs) as i16 }
    }
}

/// How far the stored displacement of a jump lies below its target.
pub const JUMP_BIAS: i16 = 3;

/// How far the stored exit of a conditional lies below the exit.
pub const EXIT_BIAS: i16 = 5;

/// How far the stored first case of a switch lies below the first case.
pub const SWITCH_BIAS: i16 = 11;

/// The operand of a jump. What it holds is the displacement as stored, which
/// lies `JUMP_BIAS` below the target.
#[derive(Debug, Clone, PartialEq, Eq)]
pub struct Jump<Loc> {
    target: Loc,
}

impl Jump<Offset> {
    /// The displacement as stored.
    pub closed spec fn stored(self) -> i16 {
        self.target.value
    }

    /// The jump that is stored as `stored`.
    pub closed spec fn from_stored(stored: i16) -> Self {
        Jump { target: Offset { value: stored } }
    }

    /// Where the jump leads.
    pub open spec fn spec_target(self) -> int {
        self.stored() + JUMP_BIAS
    }

    /// A jump made from a displacement stores it.
    pub broadcast proof fn lemma_stored(stored: i16)
        ensures
            (#[trigger] Self::from_stored(stored)).stored() == stored,
    {
    }

    /// A jump is determined by what is stored.
    pub broadcast proof fn lemma_from_stored(self)
        ensures
            #[trigger] Self::from_stored(self.stored()) == self,
    {
    }

    /// The jump to `target`.
    pub fn new(target: Offset) -> (r: Self)
        requires
            target.value - JUMP_BIAS >= i16::MIN,
        ensures
            r == Self::from_stored((target.value - JUMP_BIAS) as i16),
            r.spec_target() == target.value,
    {
        Jump { target: target - JUMP_BIAS }
    }

    /// Where the jump leads.
    pub fn target(&self) -> (t: Offset)
        requires
            self.spec_target() <= i16::MAX,
        ensures
            t.value == self.spec_target(),
    {
        self.target + JUMP_BIAS
    }

    /// The jump to `target`, unless what would be stored lies below what 16
    /// bits can hold.
    pub fn checked_new(target: Offset) -> (r: Option<Self>)
        ensures
            r == if target.value - JUMP_BIAS >= i16::MIN {
                Some(Self::from_stored((target.value - JUMP_BIAS) as i16))
            } else {
                None
            },
    {
        if target.value >= i16::MIN + JUMP_BIAS {
            Some(Jump::new(target))
        } else {
            None
        }
    }

    /// Where the jump leads, unless that lies above what 16 bits can hold.
    pub fn checked_target(&self) -> (t: Option<Offset>)
        ensures
            t == if self.spec_target() <= i16::MAX {
                Some(Offset { value: self.spec_target() as i16 })
            } else {
                None
            },
    {
        if self.target.value <= i16::MAX - JUMP_BIAS {
            Some(self.target())
        } else {
            None
        }
    }

    /// The jump that is stored as `stored`.
    pub(crate) fn of_stored(stored: i16) -> (r: Self)
        ensures
            r == Self::from_stored(stored),
    {
        Jump { target: Offset { value: stored } }
    }

    /// The displacement as stored.
    pub(crate) fn raw(&self) -> (v: i16)
        ensures
            v == self.stored(),
    {
        self.target.value
    }
}

/// The operands of a conditional: where to go if the condition is false, and
/// where the whole expression ends. Both are held as stored.
#[derive(Debug, Clone, PartialEq, Eq)]
pub struct Conditional<Loc> {
    false_label: Loc,
    exit: Loc,
}

impl Conditional<Offset> {
    /// The two displacements as stored.
    pub closed spec fn stored(self) -> (i16, i16) {
        (self.false_label.value, self.exit.value)
    }

    /// The conditional that is stored as the two displacements.
    pub closed spec fn from_stored(false_label: i16, exit: i16) -> Self {
        Conditional { false_label: Offset { value: false_label }, exit: Offset { value: exit } }
    }

    /// Where to go if the condition is false.
    pub open spec fn spec_false_label(self) -> int {
        self.stored().0 + JUMP_BIAS
    }

    /// Where the whole expression ends.
    pub open spec fn spec_exit(self) -> int {
        self.stored().1 + EXIT_BIAS
    }

    /// A conditional made from two displacements stores them.
    pub broadcast proof fn lemma_stored(false_label: i16, exit: i16)
        ensures
            (#[trigger] Self::from_stored(false_label, exit)).stored() == (false_label, exit),
    {
    }

    /// A conditional is determined by what is stored.
    pub broadcast proof fn lemma_from_stored(self)
        ensures
            #[trigger] Self::from_stored(self.stored().0, self.stored().1) == self,
    {
    }

    /// The conditional with the given false label and exit.
    pub fn new(false_label: Offset, exit: Offset) -> (r: Self)
        requires
            false_label.value - JUMP_BIAS >= i16::MIN,
            exit.value - EXIT_BIAS >= i16::MIN,
        ensures
            r == Self::from_stored(
                (false_label.value - JUMP_BIAS) as i16,
                (exit.value - EXIT_BIAS) as i16,
            ),
            r.spec_false_label() == false_label.value,
            r.spec_exit() == exit.value,
    {
        Conditional { false_label: false_label - JUMP_BIAS, exit: exit - EXIT_BIAS }
    }

    /// Where to go if the condition is false.
    pub fn false_label(&self) -> (t: Offset)
        requires
            self.spec_false_label() <= i16::MAX,
        ensures
            t.value == self.spec_false_label(),
    {
        self.false_label + JUMP_BIAS
    }

    /// Where the whole expression ends.
    pub fn exit(&self) -> (t: Offset)
        requires
            self.spec_exit() <= i16::MAX,
        ensures
            t.value == self.spec_exit(),
    {
        self.exit + EXIT_BIAS
    }

    /// The conditional with the given false label and exit, unless what
    /// would be stored lies below what 16 bits can hold.
    pub fn checked_new(false_label: Offset, exit: Offset) -> (r: Option<Self>)
        ensures
            r == if false_label.value - JUMP_BIAS >= i16::MIN
                && exit.value - EXIT_BIAS >= i16::MIN {
                Some(
                    Self::from_stored(
                        (false_label.value - JUMP_BIAS) as i16,
                        (exit.value - EXIT_BIAS) as i16,
                    ),
                )
            } else {
                None
            },
    {
        if false_label.value >= i16::MIN + JUMP_BIAS && exit.value >= i16::MIN + EXIT_BIAS {
            Some(Conditional::new(false_label, exit))
        } else {
            None
        }
    }

    /// Where to go if the condition is false, unless that lies above what
    /// 16 bits can hold.
    pub fn checked_false_label(&self) -> (t: Option<Offset>)
        ensures
            t == if self.spec_false_label() <= i16::MAX {
                Some(Offset { value: self.spec_false_label() as i16 })
            } else {
                None
            },
    {
        if self.false_label.value <= i16::MAX - JUMP_BIAS {
            Some(self.false_label())
        } else {
            None
        }
    }

    /// Where the whole expression ends, unless that lies above what 16 bits
    /// can hold.
    pub fn checked_exit(&self) -> (t: Option<Offset>)
        ensures
            t == if self.spec_exit() <= i16::MAX {
                Some(Offset { value: self.spec_exit() as i16 })
            } else {
                None
            },
    {
        if self.exit.value <= i16::MAX - EXIT_BIAS {
            Some(self.exit())
        } else {
            None
        }
    }

    /// The conditional that is stored as the two displacements.
    pub(crate) fn of_stored(false_label: i16, exit: i16) -> (r: Self)
        ensures
            r == Self::from_stored(false_label, exit),
    {
        Conditional { false_label: Offset { value: false_label }, exit: Offset { value: exit } }
    }

    /// The two displacements as stored.
    pub(crate) fn raw(&self) -> (v: (i16, i16))
        ensures
            v == self.stored(),
    {
        (self.false_label.value, self.exit.value)
    }
}

/// The operands of a switch: the type of the expression switched on, and
/// where the first case is, held as stored.
#[derive(Debug, Clone, PartialEq, Eq)]
pub struct Switch<Loc> {
    expr_type: TypeIndex,
    first_case: Loc,
}

impl Switch<Offset> {
    /// The type of the expression switched on.
    pub closed spec fn spec_expr_type(self) -> TypeIndex {
        self.expr_type
    }

    /// The displacement of the first case as stored.
    pub closed spec fn stored(self) -> i16 {
        self.first_case.value
    }

    /// The switch on a type that is stored with the given displacement.
    pub closed spec fn from_stored(expr_type: TypeIndex, first_case: i16) -> Self {
        Switch { expr_type, first_case: Offset { value: first_case } }
    }

    /// Where the first case is.
    pub open spec fn spec_first_case(self) -> int {
        self.stored() + SWITCH_BIAS
    }

    /// A switch made from a type and a displacement stores them.
    pub broadcast proof fn lemma_stored(expr_type: TypeIndex, first_case: i16)
        ensures
            (#[trigger] Self::from_stored(expr_type, first_case)).stored() == first_case,
            Self::from_stored(expr_type, first_case).spec_expr_type() == expr_type,
    {
    }

    /// A switch is determined by what is stored.
    pub broadcast proof fn lemma_from_stored(self)
        ensures
            #[trigger] Self::from_stored(self.spec_expr_type(), self.stored()) == self,
    {
    }

    /// The switch on an expression of the given type whose first case is at
    /// `first_case`.
    pub fn new(expr_type: TypeIndex, first_case: Offset) -> (r: Self)
        requires
            first_case.value - SWITCH_BIAS >= i16::MIN,
        ensures
            r == Self::from_stored(expr_type, (first_case.value - SWITCH_BIAS) as i16),
            r.spec_first_case() == first_case.value,
            r.spec_expr_type() == expr_type,
    {
        Switch { expr_type, first_case: first_case - SWITCH_BIAS }
    }

    /// The type of the expression switched on.
    pub fn expr_type(&self) -> (t: TypeIndex)
        ensures
            t == self.spec_expr_type(),
    {
        self.expr_type
    }

    /// Where the first case is.
    pub fn first_case(&self) -> (t: Offset)
        requires
            self.spec_first_case() <= i16::MAX,
        ensures
            t.value == self.spec_first_case(),
    {
        self.first_case + SWITCH_BIAS
    }

    /// The switch with the given first case, unless what would be stored
    /// lies below what 16 bits can hold.
    pub fn checked_new(expr_type: TypeIndex, first_case: Offset) -> (r: Option<Self>)
        ensures
            r == if first_case.value - SWITCH_BIAS >= i16::MIN {
                Some(Self::from_stored(expr_type, (first_case.value - SWITCH_BIAS) as i16))
            } else {
                None
            },
    {
        if first_case.value >= i16::MIN + SWITCH_BIAS {
            Some(Switch::new(expr_type, first_case))
        } else {
            None
        }
    }

    /// Where the first case is, unless that lies above what 16 bits can
    /// hold.
    pub fn checked_first_case(&self) -> (t: Option<Offset>)
        ensures
            t == if self.spec_first_case() <= i16::MAX {
                Some(Offset { value: self.spec_first_case() as i16 })
            } else {
                None
            },
    {
        if self.first_case.value <= i16::MAX - SWITCH_BIAS {
            Some(self.first_case())
        } else {
            None
        }
    }

    /// The switch on a type that is stored with the given displacement.
    pub(crate) fn of_stored(expr_type: TypeIndex, first_case: i16) -> (r: Self)
        ensures
            r == Self::from_stored(expr_type, first_case),
    {
        Switch { expr_type, first_case: Offset { value: first_case } }
    }

    /// The displacement of the first case as stored.
    pub(crate) fn raw(&self) -> (v: i16)
        ensures
            v == self.stored(),
    {
        self.first_case.value
    }
}

/// The operands of a case label: where the next case is, and where the body
/// of this one is. Both are held as stored.
#[derive(Debug, Clone, PartialEq, Eq)]
pub struct SwitchLabel<Loc> {
    next_case: Loc,
    body: Loc,
}

impl SwitchLabel<Offset> {
    /// The two displacements as stored.
    pub closed spec fn stored(self) -> (i16, i16) {
        (self.next_case.value, self.body.value)
    }

    /// The label that is stored as the two displacements.
    pub closed spec fn from_stored(next_case: i16, body: i16) -> Self {
        SwitchLabel { next_case: Offset { value: next_case }, body: Offset { value: body } }
    }

    /// Where the next case is.
    pub open spec fn spec_next_case(self) -> int {
        self.stored().0 + JUMP_BIAS
    }

    /// Where the body of this case is.
    pub open spec fn spec_body(self) -> int {
        self.stored().1 + EXIT_BIAS
    }

    /// A case label made from two displacements stores them.
    pub broadcast proof fn lemma_stored(next_case: i16, body: i16)
        ensures
            (#[trigger] Self::from_stored(next_case, body)).stored() == (next_case, body),
    {
    }

    /// A case label is determined by what is stored.
    pub broadcast proof fn lemma_from_stored(self)
        ensures
            #[trigger] Self::from_stored(self.stored().0, self.stored().1) == self,
    {
    }

    /// The label with the given next case and body.
    pub fn new(next_case: Offset, body: Offset) -> (r: Self)
        requires
            next_case.value - JUMP_BIAS >= i16::MIN,
            body.value - EXIT_BIAS >= i16::MIN,
        ensures
            r == Self::from_stored(
                (next_case.value - JUMP_BIAS) as i16,
                (body.value - EXIT_BIAS) as i16,
            ),
            r.spec_next_case() == next_case.value,
            r.spec_body() == body.value,
    {
        SwitchLabel { next_case: next_case - JUMP_BIAS, body: body - EXIT_BIAS }
    }

    /// Where the next case is.
    pub fn next_case(&self) -> (t: Offset)
        requires
            self.spec_next_case() <= i16::MAX,
        ensures
            t.value == self.spec_next_case(),
    {
        self.next_case + JUMP_BIAS
    }

    /// Where the body of this case is.
    pub fn body(&self) -> (t: Offset)
        requires
            self.spec_body() <= i16::MAX,
        ensures
            t.value == self.spec_body(),
    {
        self.body + EXIT_BIAS
    }

    /// The label with the given next case and body, unless what would be
    /// stored lies below what 16 bits can hold.
    pub fn checked_new(next_case: Offset, body: Offset) -> (r: Option<Self>)
        ensures
            r == if next_case.value - JUMP_BIAS >= i16::MIN && body.value - EXIT_BIAS >= i16::MIN {
                Some(
                    Self::from_stored(
                        (next_case.value - JUMP_BIAS) as i16,
                        (body.value - EXIT_BIAS) as i16,
                    ),
                )
            } else {
                None
            },
    {
        if next_case.value >= i16::MIN + JUMP_BIAS && body.value >= i16::MIN + EXIT_BIAS {
            Some(SwitchLabel::new(next_case, body))
        } else {
            None
        }
    }

    /// Where the next case is, unless that lies above what 16 bits can
    /// hold.
    pub fn checked_next_case(&self) -> (t: Option<Offset>)
        ensures
            t == if self.spec_next_case() <= i16::MAX {
                Some(Offset { value: self.spec_next_case() as i16 })
            } else {
                None
            },
    {
        if self.next_case.value <= i16::MAX - JUMP_BIAS {
            Some(self.next_case())
        } else {
            None
        }
    }

    /// Where the body of this case is, unless that lies above what 16 bits
    /// can hold.
    pub fn checked_body(&self) -> (t: Option<Offset>)
        ensures
            t == if self.spec_body() <= i16::MAX {
                Some(Offset { value: self.spec_body() as i16 })
            } else {
                None
            },
    {
        if self.body.value <= i16::MAX - EXIT_BIAS {
            Some(self.body())
        } else {
            None
        }
    }

    /// The label that is stored as the two displacements.
    pub(crate) fn of_stored(next_case: i16, body: i16) -> (r: Self)
        ensures
            r == Self::from_stored(next_case, body),
    {
        SwitchLabel { next_case: Offset { value: next_case }, body: Offset { value: body } }
    }

    /// The two displacements as stored.
    pub(crate) fn raw(&self) -> (v: (i16, i16))
        ensures
            v == self.stored(),
    {
        (self.next_case.value, self.body.value)
    }
}

/// The operands of a breakpoint. The padding is kept as the little-endian
/// number that its eight bytes make.
#[derive(Debug, Clone, Copy, PartialEq, Eq)]
pub struct Breakpoint {
    pub line: u16,
    pub line_start: u32,
    pub col: u16,
    pub length: u16,
    pub enabled: bool,
    pub padding: u64,
}

/// The operands of a profiling marker: the name of a function, as bytes, and
/// whether the marker is switched on.
#[derive(Debug, PartialEq, Eq)]
pub struct Profile {
    function: Vec<u8>,
    enabled: bool,
}

/// The longest name that a profiling marker can carry: with it the
/// instruction is as long as a 16-bit size can say.
pub const PROFILE_NAME_MAX: usize = 65529;

impl Clone for Profile {
    fn clone(&self) -> (r: Self)
        ensures
            r.spec_function() == self.spec_function(),
            r.spec_enabled() == self.spec_enabled(),
    {
        proof {
            use_type_invariant(self);
        }
        Profile { function: self.function.clone(), enabled: self.enabled }
    }
}

impl Profile {
    #[verifier::type_invariant]
    closed spec fn name_fits(self) -> bool {
        self.function@.len() <= PROFILE_NAME_MAX
    }

    /// The name.
    pub closed spec fn spec_function(self) -> Seq<u8> {
        self.function@
    }

    /// Whether the marker is switched on.
    pub closed spec fn spec_enabled(self) -> bool {
        self.enabled
    }

    /// The marker with the given name, unless the name is longer than
    /// `PROFILE_NAME_MAX`.
    pub fn new(function: Vec<u8>, enabled: bool) -> (r: Option<Self>)
        ensures
            r is Some <==> function@.len() <= PROFILE_NAME_MAX,
            r matches Some(p) ==> p.spec_function() == function@ && p.spec_enabled() == enabled,
    {
        if function.len() <= PROFILE_NAME_MAX {
            Some(Profile { function, enabled })
        } else {
            None
        }
    }

    /// The name.
    pub fn function(&self) -> (r: &Vec<u8>)
        ensures
            r@ == self.spec_function(),
            r@.len() <= PROFILE_NAME_MAX,
    {
        proof {
            use_type_invariant(self);
        }
        &self.function
    }

    /// Whether the marker is switched on.
    pub fn enabled(&self) -> (r: bool)
        ensures
            r == self.spec_enabled(),
    {
        self.enabled
    }
}

/// An instruction. `Loc` is how places in the code are named: by `Offset` in
/// what is read and written.
#[derive(Debug, Clone, PartialEq)]
#[allow(inconsistent_fields)]
pub enum Instr<Loc = Offset> {
    Nop,
    Null,
    I32One,
    I32Zero,
    I8Const(i8),
    I16Const(i16),
    I32Const(i32),
    I64Const(i64),
    U8Const(u8),
    U16Const(u16),
    U32Const(u32),
    U64Const(u64),
    F32Const(u32),
    F64Const(u64),
    CNameConst(CNameIndex),
    EnumConst { enum_: EnumIndex, value: EnumValueIndex },
    StringConst(StringIndex),
    TweakDbIdConst(TweakDbIndex),
    ResourceConst(ResourceIndex),
    TrueConst,
    FalseConst,
    Breakpoint(Box<Breakpoint>),
    Assign,
    Target(Loc),
    Local(LocalIndex),
    Param(ParameterIndex),
    ObjectField(FieldIndex),
    ExternalVar,
    Switch(Switch<Loc>),
    SwitchLabel(SwitchLabel<Loc>),
    SwitchDefault,
    Jump(Jump<Loc>),
    JumpIfFalse(Jump<Loc>),
    Skip(Jump<Loc>),
    Conditional(Conditional<Loc>),
    Construct { arg_count: u8, type_: TypeIndex },
    InvokeStatic { exit: Jump<Loc>, line: u16, function: FunctionIndex, flags: u16 },
    InvokeVirtual { exit: Jump<Loc>, line: u16, function: CNameIndex, flags: u16 },
    ParamEnd,
    Return,
    StructField(FieldIndex),
    Context(Jump<Loc>),
    Equals(TypeIndex),
    RefStringEqualsString(TypeIndex),
    StringEqualsRefString(TypeIndex),
    NotEquals(TypeIndex),
    RefStringNotEqualsString(TypeIndex),
    StringNotEqualsRefString(TypeIndex),
    New(ClassIndex),
    Delete,
    This,
    Profile(Box<Profile>),
    ArrayClear(TypeIndex),
    ArraySize(TypeIndex),
    ArrayResize(TypeIndex),
    ArrayFindFirst(TypeIndex),
    ArrayFindFirstFast(TypeIndex),
    ArrayFindLast(TypeIndex),
    ArrayFindLastFast(TypeIndex),
    ArrayContains(TypeIndex),
    ArrayContainsFast(TypeIndex),
    ArrayCount(TypeIndex),
    ArrayCountFast(TypeIndex),
    ArrayPush(TypeIndex),
    ArrayPop(TypeIndex),
    ArrayInsert(TypeIndex),
    ArrayRemove(TypeIndex),
    ArrayRemoveFast(TypeIndex),
    ArrayGrow(TypeIndex),
    ArrayErase(TypeIndex),
    ArrayEraseFast(TypeIndex),
    ArrayLast(TypeIndex),
    ArrayElement(TypeIndex),
    ArraySort(TypeIndex),
    ArraySortByPredicate(TypeIndex),
    StaticArraySize(TypeIndex),
    StaticArrayFindFirst(TypeIndex),
    StaticArrayFindFirstFast(TypeIndex),
    StaticArrayFindLast(TypeIndex),
    StaticArrayFindLastFast(TypeIndex),
    StaticArrayContains(TypeIndex),
    StaticArrayContainsFast(TypeIndex),
    StaticArrayCount(TypeIndex),
    StaticArrayCountFast(TypeIndex),
    StaticArrayLast(TypeIndex),
    StaticArrayElement(TypeIndex),
    RefToBool,
    WeakRefToBool,
    EnumToI32 { enum_type: TypeIndex, size: u8 },
    I32ToEnum { enum_type: TypeIndex, size: u8 },
    DynamicCast { class: ClassIndex, flags: u8 },
    ToString(TypeIndex),
    ToVariant(TypeIndex),
    FromVariant(TypeIndex),
    VariantIsDefined,
    VariantIsRef,
    VariantIsArray,
    VariantTypeName,
    VariantToString,
    WeakRefToRef,
    RefToWeakRef,
    WeakRefNull,
    AsRef(TypeIndex),
    Deref(TypeIndex),
}

impl<Loc> Instr<Loc> {
    /// The instruction's tag.
    pub open spec fn spec_tag(self) -> u8 {
        match self {
            Instr::Nop => 0x00,
            Instr::Null => 0x01,
            Instr::I32One => 0x02,
            Instr::I32Zero => 0x03,
            Instr::I8Const(_) => 0x04,
            Instr::I16Const(_) => 0x05,
            Instr::I32Const(_) => 0x06,
            Instr::I64Const(_) => 0x07,
            Instr::U8Const(_) => 0x08,
            Instr::U16Const(_) => 0x09,
            Instr::U32Const(_) => 0x0A,
            Instr::U64Const(_) => 0x0B,
            Instr::F32Const(_) => 0x0C,
            Instr::F64Const(_) => 0x0D,
            Instr::CNameConst(_) => 0x0E,
            Instr::EnumConst { .. } => 0x0F,
            Instr::StringConst(_) => 0x10,
            Instr::TweakDbIdConst(_) => 0x11,
            Instr::ResourceConst(_) => 0x12,
            Instr::TrueConst => 0x13,
            Instr::FalseConst => 0x14,
            Instr::Breakpoint(_) => 0x15,
            Instr::Assign => 0x16,
            Instr::Target(_) => 0x17,
            Instr::Local(_) => 0x18,
            Instr::Param(_) => 0x19,
            Instr::ObjectField(_) => 0x1A,
            Instr::ExternalVar => 0x1B,
            Instr::Switch(_) => 0x1C,
            Instr::SwitchLabel(_) => 0x1D,
            Instr::SwitchDefault => 0x1E,
            Instr::Jump(_) => 0x1F,
            Instr::JumpIfFalse(_) => 0x20,
            Instr::Skip(_) => 0x21,
            Instr::Conditional(_) => 0x22,
            Instr::Construct { .. } => 0x23,
            Instr::InvokeStatic { .. } => 0x24,
            Instr::InvokeVirtual { .. } => 0x25,
            Instr::ParamEnd => 0x26,
            Instr::Return => 0x27,
            Instr::StructField(_) => 0x28,
            Instr::Context(_) => 0x29,
            Instr::Equals(_) => 0x2A,
            Instr::RefStringEqualsString(_) => 0x2B,
            Instr::StringEqualsRefString(_) => 0x2C,
            Instr::NotEquals(_) => 0x2D,
            Instr::RefStringNotEqualsString(_) => 0x2E,
            Instr::StringNotEqualsRefString(_) => 0x2F,
            Instr::New(_) => 0x30,
            Instr::Delete => 0x31,
            Instr::This => 0x32,
            Instr::Profile(_) => 0x33,
            Instr::ArrayClear(_) => 0x34,
            Instr::ArraySize(_) => 0x35,
            Instr::ArrayResize(_) => 0x36,
            Instr::ArrayFindFirst(_) => 0x37,
            Instr::ArrayFindFirstFast(_) => 0x38,
            Instr::ArrayFindLast(_) => 0x39,
            Instr::ArrayFindLastFast(_) => 0x3A,
            Instr::ArrayContains(_) => 0x3B,
            Instr::ArrayContainsFast(_) => 0x3C,
            Instr::ArrayCount(_) => 0x3D,
            Instr::ArrayCountFast(_) => 0x3E,
            Instr::ArrayPush(_) => 0x3F,
            Instr::ArrayPop(_) => 0x40,
            Instr::ArrayInsert(_) => 0x41,
            Instr::ArrayRemove(_) => 0x42,
            Instr::ArrayRemoveFast(_) => 0x43,
            Instr::ArrayGrow(_) => 0x44,
            Instr::ArrayErase(_) => 0x45,
            Instr::ArrayEraseFast(_) => 0x46,
            Instr::ArrayLast(_) => 0x47,
            Instr::ArrayElement(_) => 0x48,
            Instr::ArraySort(_) => 0x49,
            Instr::ArraySortByPredicate(_) => 0x4A,
            Instr::StaticArraySize(_) => 0x4B,
            Instr::StaticArrayFindFirst(_) => 0x4C,
            Instr::StaticArrayFindFirstFast(_) => 0x4D,
            Instr::StaticArrayFindLast(_) => 0x4E,
            Instr::StaticArrayFindLastFast(_) => 0x4F,
            Instr::StaticArrayContains(_) => 0x50,
            Instr::StaticArrayContainsFast(_) => 0x51,
            Instr::StaticArrayCount(_) => 0x52,
            Instr::StaticArrayCountFast(_) => 0x53,
            Instr::StaticArrayLast(_) => 0x54,
            Instr::StaticArrayElement(_) => 0x55,
            Instr::RefToBool => 0x56,
            Instr::WeakRefToBool => 0x57,
            Instr::EnumToI32 { .. } => 0x58,
            Instr::I32ToEnum { .. } => 0x59,
            Instr::DynamicCast { .. } => 0x5A,
            Instr::ToString(_) => 0x5B,
            Instr::ToVariant(_) => 0x5C,
            Instr::FromVariant(_) => 0x5D,
            Instr::VariantIsDefined => 0x5E,
            Instr::VariantIsRef => 0x5F,
            Instr::VariantIsArray => 0x60,
            Instr::VariantTypeName => 0x61,
            Instr::VariantToString => 0x62,
            Instr::WeakRefToRef => 0x63,
            Instr::RefToWeakRef => 0x64,
            Instr::WeakRefNull => 0x65,
            Instr::AsRef(_) => 0x66,
            Instr::Deref(_) => 0x67,
        }
    }

    /// The instruction's tag.
    pub fn tag(&self) -> (t: u8)
        ensures
            t == self.spec_tag(),
    {
        match self {
            Instr::Nop => 0x00,
            Instr::Null => 0x01,
            Instr::I32One => 0x02,
            Instr::I32Zero => 0x03,
            Instr::I8Const(_) => 0x04,
            Instr::I16Const(_) => 0x05,
            Instr::I32Const(_) => 0x06,
            Instr::I64Const(_) => 0x07,
            Instr::U8Const(_) => 0x08,
            Instr::U16Const(_) => 0x09,
            Instr::U32Const(_) => 0x0A,
            Instr::U64Const(_) => 0x0B,
            Instr::F32Const(_) => 0x0C,
            Instr::F64Const(_) => 0x0D,
            Instr::CNameConst(_) => 0x0E,
            Instr::EnumConst { .. } => 0x0F,
            Instr::StringConst(_) => 0x10,
            Instr::TweakDbIdConst(_) => 0x11,
            Instr::ResourceConst(_) => 0x12,
            Instr::TrueConst => 0x13,
            Instr::FalseConst => 0x14,
            Instr::Breakpoint(_) => 0x15,
            Instr::Assign => 0x16,
            Instr::Target(_) => 0x17,
            Instr::Local(_) => 0x18,
            Instr::Param(_) => 0x19,
            Instr::ObjectField(_) => 0x1A,
            Instr::ExternalVar => 0x1B,
            Instr::Switch(_) => 0x1C,
            Instr::SwitchLabel(_) => 0x1D,
            Instr::SwitchDefault => 0x1E,
            Instr::Jump(_) => 0x1F,
            Instr::JumpIfFalse(_) => 0x20,
            Instr::Skip(_) => 0x21,
            Instr::Conditional(_) => 0x22,
            Instr::Construct { .. } => 0x23,
            Instr::InvokeStatic { .. } => 0x24,
            Instr::InvokeVirtual { .. } => 0x25,
            Instr::ParamEnd => 0x26,
            Instr::Return => 0x27,
            Instr::StructField(_) => 0x28,
            Instr::Context(_) => 0x29,
            Instr::Equals(_) => 0x2A,
            Instr::RefStringEqualsString(_) => 0x2B,
            Instr::StringEqualsRefString(_) => 0x2C,
            Instr::NotEquals(_) => 0x2D,
            Instr::RefStringNotEqualsString(_) => 0x2E,
            Instr::StringNotEqualsRefString(_) => 0x2F,
            Instr::New(_) => 0x30,
            Instr::Delete => 0x31,
            Instr::This => 0x32,
            Instr::Profile(_) => 0x33,
            Instr::ArrayClear(_) => 0x34,
            Instr::ArraySize(_) => 0x35,
            Instr::ArrayResize(_) => 0x36,
            Instr::ArrayFindFirst(_) => 0x37,
            Instr::ArrayFindFirstFast(_) => 0x38,
            Instr::ArrayFindLast(_) => 0x39,
            Instr::ArrayFindLastFast(_) => 0x3A,
            Instr::ArrayContains(_) => 0x3B,
            Instr::ArrayContainsFast(_) => 0x3C,
            Instr::ArrayCount(_) => 0x3D,
            Instr::ArrayCountFast(_) => 0x3E,
            Instr::ArrayPush(_) => 0x3F,
            Instr::ArrayPop(_) => 0x40,
            Instr::ArrayInsert(_) => 0x41,
            Instr::ArrayRemove(_) => 0x42,
            Instr::ArrayRemoveFast(_) => 0x43,
            Instr::ArrayGrow(_) => 0x44,
            Instr::ArrayErase(_) => 0x45,
            Instr::ArrayEraseFast(_) => 0x46,
            Instr::ArrayLast(_) => 0x47,
            Instr::ArrayElement(_) => 0x48,
            Instr::ArraySort(_) => 0x49,
            Instr::ArraySortByPredicate(_) => 0x4A,
            Instr::StaticArraySize(_) => 0x4B,
            Instr::StaticArrayFindFirst(_) => 0x4C,
            Instr::StaticArrayFindFirstFast(_) => 0x4D,
            Instr::StaticArrayFindLast(_) => 0x4E,
            Instr::StaticArrayFindLastFast(_) => 0x4F,
            Instr::StaticArrayContains(_) => 0x50,
            Instr::StaticArrayContainsFast(_) => 0x51,
            Instr::StaticArrayCount(_) => 0x52,
            Instr::StaticArrayCountFast(_) => 0x53,
            Instr::StaticArrayLast(_) => 0x54,
            Instr::StaticArrayElement(_) => 0x55,
            Instr::RefToBool => 0x56,
            Instr::WeakRefToBool => 0x57,
            Instr::EnumToI32 { .. } => 0x58,
            Instr::I32ToEnum { .. } => 0x59,
            Instr::DynamicCast { .. } => 0x5A,
            Instr::ToString(_) => 0x5B,
            Instr::ToVariant(_) => 0x5C,
            Instr::FromVariant(_) => 0x5D,
            Instr::VariantIsDefined => 0x5E,
            Instr::VariantIsRef => 0x5F,
            Instr::VariantIsArray => 0x60,
            Instr::VariantTypeName => 0x61,
            Instr::VariantToString => 0x62,
            Instr::WeakRefToRef => 0x63,
            Instr::RefToWeakRef => 0x64,
            Instr::WeakRefNull => 0x65,
            Instr::AsRef(_) => 0x66,
            Instr::Deref(_) => 0x67,
        }
    }

    /// The number of bytes that the instruction's operands take.
    pub open spec fn operand_size(self) -> int {
        match self {
            Instr::Breakpoint(_) => 19,
            Instr::EnumConst { .. } => 16,
            Instr::InvokeStatic { .. }
            | Instr::InvokeVirtual { .. } => 14,
            Instr::Switch(_) => 10,
            Instr::Construct { .. }
            | Instr::EnumToI32 { .. }
            | Instr::I32ToEnum { .. }
            | Instr::DynamicCast { .. } => 9,
            Instr::I64Const(_)
            | Instr::U64Const(_)
            | Instr::F64Const(_)
            | Instr::CNameConst(_)
            | Instr::TweakDbIdConst(_)
            | Instr::ResourceConst(_)
            | Instr::Local(_)
            | Instr::Param(_)
            | Instr::ObjectField(_)
            | Instr::StructField(_)
            | Instr::New(_)
            | Instr::Equals(_)
            | Instr::RefStringEqualsString(_)
            | Instr::StringEqualsRefString(_)
            | Instr::NotEquals(_)
            | Instr::RefStringNotEqualsString(_)
            | Instr::StringNotEqualsRefString(_)
            | Instr::ArrayClear(_)
            | Instr::ArraySize(_)
            | Instr::ArrayResize(_)
            | Instr::ArrayFindFirst(_)
            | Instr::ArrayFindFirstFast(_)
            | Instr::ArrayFindLast(_)
            | Instr::ArrayFindLastFast(_)
            | Instr::ArrayContains(_)
            | Instr::ArrayContainsFast(_)
            | Instr::ArrayCount(_)
            | Instr::ArrayCountFast(_)
            | Instr::ArrayPush(_)
            | Instr::ArrayPop(_)
            | Instr::ArrayInsert(_)
            | Instr::ArrayRemove(_)
            | Instr::ArrayRemoveFast(_)
            | Instr::ArrayGrow(_)
            | Instr::ArrayErase(_)
            | Instr::ArrayEraseFast(_)
            | Instr::ArrayLast(_)
            | Instr::ArrayElement(_)
            | Instr::ArraySort(_)
            | Instr::ArraySortByPredicate(_)
            | Instr::StaticArraySize(_)
            | Instr::StaticArrayFindFirst(_)
            | Instr::StaticArrayFindFirstFast(_)
            | Instr::StaticArrayFindLast(_)
            | Instr::StaticArrayFindLastFast(_)
            | Instr::StaticArrayContains(_)
            | Instr::StaticArrayContainsFast(_)
            | Instr::StaticArrayCount(_)
            | Instr::StaticArrayCountFast(_)
            | Instr::StaticArrayLast(_)
            | Instr::StaticArrayElement(_)
            | Instr::ToString(_)
            | Instr::ToVariant(_)
            | Instr::FromVariant(_)
            | Instr::AsRef(_)
            | Instr::Deref(_) => 8,
            Instr::I32Const(_)
            | Instr::U32Const(_)
            | Instr::F32Const(_)
            | Instr::StringConst(_)
            | Instr::SwitchLabel(_)
            | Instr::Conditional(_) => 4,
            Instr::I16Const(_)
            | Instr::U16Const(_)
            | Instr::Jump(_)
            | Instr::JumpIfFalse(_)
            | Instr::Skip(_)
            | Instr::Context(_) => 2,
            Instr::I8Const(_)
            | Instr::U8Const(_) => 1,
            Instr::Nop
            | Instr::Null
            | Instr::I32One
            | Instr::I32Zero
            | Instr::TrueConst
            | Instr::FalseConst
            | Instr::Assign
            | Instr::ExternalVar
            | Instr::SwitchDefault
            | Instr::ParamEnd
            | Instr::Return
            | Instr::Delete
            | Instr::This
            | Instr::RefToBool
            | Instr::WeakRefToBool
            | Instr::VariantIsDefined
            | Instr::VariantIsRef
            | Instr::VariantIsArray
            | Instr::VariantTypeName
            | Instr::VariantToString
            | Instr::WeakRefToRef
            | Instr::RefToWeakRef
            | Instr::WeakRefNull => 0,
            Instr::Profile(p) => 5 + p.spec_function().len() as int,
            Instr::Target(_) => 0,
        }
    }

    /// The number of bytes that the instruction takes: its tag and its
    /// operands, and nothing for `Target`.
    pub open spec fn spec_size(self) -> int {
        if self is Target {
            0
        } else {
            1 + self.operand_size()
        }
    }

    /// The number of bytes that the instruction takes.
    pub fn size(&self) -> (n: u16)
        ensures
            n == self.spec_size(),
    {
        let op_size: u16 = match self {
            Instr::Breakpoint(_) => 19,
            Instr::EnumConst { .. } => 16,
            Instr::InvokeStatic { .. }
            | Instr::InvokeVirtual { .. } => 14,
            Instr::Switch(_) => 10,
            Instr::Construct { .. }
            | Instr::EnumToI32 { .. }
            | Instr::I32ToEnum { .. }
            | Instr::DynamicCast { .. } => 9,
            Instr::I64Const(_)
            | Instr::U64Const(_)
            | Instr::F64Const(_)
            | Instr::CNameConst(_)
            | Instr::TweakDbIdConst(_)
            | Instr::ResourceConst(_)
            | Instr::Local(_)
            | Instr::Param(_)
            | Instr::ObjectField(_)
            | Instr::StructField(_)
            | Instr::New(_)
            | Instr::Equals(_)
            | Instr::RefStringEqualsString(_)
            | Instr::StringEqualsRefString(_)
            | Instr::NotEquals(_)
            | Instr::RefStringNotEqualsString(_)
            | Instr::StringNotEqualsRefString(_)
            | Instr::ArrayClear(_)
            | Instr::ArraySize(_)
            | Instr::ArrayResize(_)
            | Instr::ArrayFindFirst(_)
            | Instr::ArrayFindFirstFast(_)
            | Instr::ArrayFindLast(_)
            | Instr::ArrayFindLastFast(_)
            | Instr::ArrayContains(_)
            | Instr::ArrayContainsFast(_)
            | Instr::ArrayCount(_)
            | Instr::ArrayCountFast(_)
            | Instr::ArrayPush(_)
            | Instr::ArrayPop(_)
            | Instr::ArrayInsert(_)
            | Instr::ArrayRemove(_)
            | Instr::ArrayRemoveFast(_)
            | Instr::ArrayGrow(_)
            | Instr::ArrayErase(_)
            | Instr::ArrayEraseFast(_)
            | Instr::ArrayLast(_)
            | Instr::ArrayElement(_)
            | Instr::ArraySort(_)
            | Instr::ArraySortByPredicate(_)
            | Instr::StaticArraySize(_)
            | Instr::StaticArrayFindFirst(_)
            | Instr::StaticArrayFindFirstFast(_)
            | Instr::StaticArrayFindLast(_)
            | Instr::StaticArrayFindLastFast(_)
            | Instr::StaticArrayContains(_)
            | Instr::StaticArrayContainsFast(_)
            | Instr::StaticArrayCount(_)
            | Instr::StaticArrayCountFast(_)
            | Instr::StaticArrayLast(_)
            | Instr::StaticArrayElement(_)
            | Instr::ToString(_)
            | Instr::ToVariant(_)
            | Instr::FromVariant(_)
            | Instr::AsRef(_)
            | Instr::Deref(_) => 8,
            Instr::I32Const(_)
            | Instr::U32Const(_)
            | Instr::F32Const(_)
            | Instr::StringConst(_)
            | Instr::SwitchLabel(_)
            | Instr::Conditional(_) => 4,
            Instr::I16Const(_)
            | Instr::U16Const(_)
            | Instr::Jump(_)
            | Instr::JumpIfFalse(_)
            | Instr::Skip(_)
            | Instr::Context(_) => 2,
            Instr::I8Const(_)
            | Instr::U8Const(_) => 1,
            Instr::Nop
            | Instr::Null
            | Instr::I32One
            | Instr::I32Zero
            | Instr::TrueConst
            | Instr::FalseConst
            | Instr::Assign
            | Instr::ExternalVar
            | Instr::SwitchDefault
            | Instr::ParamEnd
            | Instr::Return
            | Instr::Delete
            | Instr::This
            | Instr::RefToBool
            | Instr::WeakRefToBool
            | Instr::VariantIsDefined
            | Instr::VariantIsRef
            | Instr::VariantIsArray
            | Instr::VariantTypeName
            | Instr::VariantToString
            | Instr::WeakRefToRef
            | Instr::RefToWeakRef
            | Instr::WeakRefNull => 0,
            // variable size
            Instr::Profile(p) => {
                let len: usize = p.function().len();
                5 + len as u16
            },
            // not present in bytecode
            Instr::Target(_) => {
                return 0;
            },
        };
        1 + op_size
    }
}

pub broadcast group group_operands {
    Jump::lemma_stored,
    Jump::lemma_from_stored,
    Conditional::lemma_stored,
    Conditional::lemma_from_stored,
    Switch::lemma_stored,
    Switch::lemma_from_stored,
    SwitchLabel::lemma_stored,
    SwitchLabel::lemma_from_stored,
}

/// The error that a tag no instruction has is answered with.
pub open spec fn unknown_tag_error() -> Error {
    Error::BadInput { err: "unknown instruction tag" }
}

/// The error that a profiling marker with too long a name is answered with.
pub open spec fn profile_error() -> Error {
    Error::BadInput { err: "profile name too long" }
}

/// A jump operand, as bytes.
pub open spec fn jump_wire(j: Jump<Offset>) -> Seq<u8> {
    le16(i16_bits(j.stored()))
}

/// The jump operand at `pos`, and the position after it.
pub open spec fn parse_jump(bytes: Seq<u8>, pos: int) -> Result<(Jump<Offset>, int), Error> {
    match parse_i16(bytes, pos) {
        Ok((v, to)) => Ok((Jump::from_stored(v), to)),
        Err(e) => Err(e),
    }
}

/// The jump operand at `pos` and the position after it.
pub fn take_jump(bytes: &[u8], pos: usize) -> (r: Result<(Jump<Offset>, usize), Error>)
    ensures
        parsed(parse_jump(bytes@, pos as int), r),
{
    let (v, to) = take_i16(bytes, pos)?;
    Ok((Jump::of_stored(v), to))
}

/// Lays a jump operand over the buffer at `pos`.
pub(crate) fn put_jump(bytes: &mut [u8], pos: usize, j: &Jump<Offset>) -> (r: Result<usize, Error>)
    requires
        pos + 2 <= old(bytes)@.len(),
    ensures
        laid(old(bytes)@, pos as int, jump_wire(*j), r, final(bytes)@),
{
    put_i16(bytes, pos, j.raw())
}

/// A jump operand that the buffer holds is read back.
pub proof fn lemma_parse_jump_at(bytes: Seq<u8>, pos: int, j: Jump<Offset>)
    requires
        holds_at(bytes, pos, jump_wire(j)),
    ensures
        parse_jump(bytes, pos) == Ok::<(Jump<Offset>, int), Error>((j, pos + 2)),
{
    broadcast use group_operands;

    lemma_parse_i16_at(bytes, pos, j.stored());
}

/// The operands of an enum constant, as bytes.
pub open spec fn enum_const_wire(enum_: EnumIndex, value: EnumValueIndex) -> Seq<u8> {
    padded(enum_@) + padded(value@)
}

/// The operands of an enum constant at `pos`, and the position after them.
pub open spec fn parse_enum_const(
    bytes: Seq<u8>,
    pos: int,
) -> Result<((EnumIndex, EnumValueIndex), int), Error> {
    let r0 = parse_nz_padded::<types::Enum>(bytes, pos);
    let (f0, n0) = r0->Ok_0;
    let r1 = parse_nz_padded::<types::EnumValue>(bytes, n0);
    let (f1, n1) = r1->Ok_0;
    if r0 is Err {
        Err(r0->Err_0)
    } else if r1 is Err {
        Err(r1->Err_0)
    } else {
        Ok(((f0, f1), n1))
    }
}

/// The operands of an enum constant at `pos` and the position after them.
pub fn take_enum_const(bytes: &[u8], pos: usize) -> (r: Result<
    ((EnumIndex, EnumValueIndex), usize),
    Error,
>)
    ensures
        parsed(parse_enum_const(bytes@, pos as int), r),
{
    let (f0, n0) = take_nz_padded::<types::Enum>(bytes, pos)?;
    let (f1, n1) = take_nz_padded::<types::EnumValue>(bytes, n0)?;
    Ok(((f0, f1), n1))
}

/// Lays the operands of an enum constant over the buffer at `pos`.
pub(crate) fn put_enum_const(
    bytes: &mut [u8],
    pos: usize,
    enum_: EnumIndex,
    value: EnumValueIndex,
) -> (r: Result<usize, Error>)
    requires
        pos + 16 <= old(bytes)@.len(),
    ensures
        laid(old(bytes)@, pos as int, enum_const_wire(enum_, value), r, final(bytes)@),
{
    proof {
        lemma_le_len();
    }
    let n0 = put_padded(bytes, pos, enum_.value())?;
    let n1 = put_padded(bytes, n0, value.value())?;
    proof {
        lemma_overlay_concat(old(bytes)@, pos as int, padded(enum_@), padded(value@));
    }
    Ok(n1)
}

/// The operands of an enum constant that the buffer holds are read back.
pub proof fn lemma_parse_enum_const_at(
    bytes: Seq<u8>,
    pos: int,
    enum_: EnumIndex,
    value: EnumValueIndex,
)
    requires
        holds_at(bytes, pos, enum_const_wire(enum_, value)),
        enum_@ != 0,
        value@ != 0,
    ensures
        parse_enum_const(bytes, pos) == Ok::<((EnumIndex, EnumValueIndex), int), Error>(
            ((enum_, value), pos + 16),
        ),
{
    broadcast use group_index, group_operands;

    lemma_le_len();
    lemma_holds_at_concat(bytes, pos, padded(enum_@), padded(value@));
    lemma_parse_padded_at(bytes, pos, enum_@);
    lemma_parse_padded_at(bytes, pos + 8, value@);
}

/// The operands of a breakpoint, as bytes.
pub open spec fn breakpoint_wire(b: Breakpoint) -> Seq<u8> {
    le16(b.line)
        + le32(b.line_start)
        + le16(b.col)
        + le16(b.length)
        + le8(bool_bits(b.enabled))
        + le64(b.padding)
}

/// The operands of a breakpoint at `pos`, and the position after them.
pub open spec fn parse_breakpoint(bytes: Seq<u8>, pos: int) -> Result<(Breakpoint, int), Error> {
    let r0 = parse_u16(bytes, pos);
    let (f0, n0) = r0->Ok_0;
    let r1 = parse_u32(bytes, n0);
    let (f1, n1) = r1->Ok_0;
    let r2 = parse_u16(bytes, n1);
    let (f2, n2) = r2->Ok_0;
    let r3 = parse_u16(bytes, n2);
    let (f3, n3) = r3->Ok_0;
    let r4 = parse_bool(bytes, n3);
    let (f4, n4) = r4->Ok_0;
    let r5 = parse_u64(bytes, n4);
    let (f5, n5) = r5->Ok_0;
    if r0 is Err {
        Err(r0->Err_0)
    } else if r1 is Err {
        Err(r1->Err_0)
    } else if r2 is Err {
        Err(r2->Err_0)
    } else if r3 is Err {
        Err(r3->Err_0)
    } else if r4 is Err {
        Err(r4->Err_0)
    } else if r5 is Err {
        Err(r5->Err_0)
    } else {
        Ok(
            (
                Breakpoint {
                    line: f0,
                    line_start: f1,
                    col: f2,
                    length: f3,
                    enabled: f4,
                    padding: f5,
                },
                n5,
            ),
        )
    }
}

/// The operands of a breakpoint at `pos` and the position after them.
pub fn take_breakpoint(bytes: &[u8], pos: usize) -> (r: Result<(Breakpoint, usize), Error>)
    ensures
        parsed(parse_breakpoint(bytes@, pos as int), r),
{
    let (f0, n0) = take_u16(bytes, pos)?;
    let (f1, n1) = take_u32(bytes, n0)?;
    let (f2, n2) = take_u16(bytes, n1)?;
    let (f3, n3) = take_u16(bytes, n2)?;
    let (f4, n4) = take_bool(bytes, n3)?;
    let (f5, n5) = take_u64(bytes, n4)?;
    Ok((Breakpoint { line: f0, line_start: f1, col: f2, length: f3, enabled: f4, padding: f5 }, n5))
}

/// Lays the operands of a breakpoint over the buffer at `pos`.
pub(crate) fn put_breakpoint(
    bytes: &mut [u8],
    pos: usize,
    b: &Breakpoint,
) -> (r: Result<usize, Error>)
    requires
        pos + 19 <= old(bytes)@.len(),
    ensures
        laid(old(bytes)@, pos as int, breakpoint_wire(*b), r, final(bytes)@),
{
    proof {
        lemma_le_len();
    }
    let n0 = put_u16(bytes, pos, b.line)?;
    let n1 = put_u32(bytes, n0, b.line_start)?;
    proof {
        lemma_overlay_concat(old(bytes)@, pos as int, le16(b.line), le32(b.line_start));
    }
    let n2 = put_u16(bytes, n1, b.col)?;
    proof {
        lemma_overlay_concat(
            old(bytes)@,
            pos as int,
            le16(b.line) + le32(b.line_start),
            le16(b.col),
        );
    }
    let n3 = put_u16(bytes, n2, b.length)?;
    proof {
        lemma_overlay_concat(
            old(bytes)@,
            pos as int,
            le16(b.line) + le32(b.line_start) + le16(b.col),
            le16(b.length),
        );
    }
    let n4 = put_bool(bytes, n3, b.enabled)?;
    proof {
        lemma_overlay_concat(
            old(bytes)@,
            pos as int,
            le16(b.line) + le32(b.line_start) + le16(b.col) + le16(b.length),
            le8(bool_bits(b.enabled)),
        );
    }
    let n5 = put_u64(bytes, n4, b.padding)?;
    proof {
        lemma_overlay_concat(
            old(bytes)@,
            pos as int,
            le16(b.line)
                + le32(b.line_start)
                + le16(b.col)
                + le16(b.length)
                + le8(bool_bits(b.enabled)),
            le64(b.padding),
        );
    }
    Ok(n5)
}

/// The operands of a breakpoint that the buffer holds are read back.
pub proof fn lemma_parse_breakpoint_at(bytes: Seq<u8>, pos: int, b: Breakpoint)
    requires
        holds_at(bytes, pos, breakpoint_wire(b)),
    ensures
        parse_breakpoint(bytes, pos) == Ok::<(Breakpoint, int), Error>((b, pos + 19)),
{
    broadcast use group_index, group_operands;

    lemma_le_len();
    lemma_holds_at_concat(
        bytes,
        pos,
        le16(b.line)
            + le32(b.line_start)
            + le16(b.col)
            + le16(b.length)
            + le8(bool_bits(b.enabled)),
        le64(b.padding),
    );
    lemma_holds_at_concat(
        bytes,
        pos,
        le16(b.line) + le32(b.line_start) + le16(b.col) + le16(b.length),
        le8(bool_bits(b.enabled)),
    );
    lemma_holds_at_concat(
        bytes,
        pos,
        le16(b.line) + le32(b.line_start) + le16(b.col),
        le16(b.length),
    );
    lemma_holds_at_concat(bytes, pos, le16(b.line) + le32(b.line_start), le16(b.col));
    lemma_holds_at_concat(bytes, pos, le16(b.line), le32(b.line_start));
    lemma_parse_u16_at(bytes, pos, b.line);
    lemma_parse_u32_at(bytes, pos + 2, b.line_start);
    lemma_parse_u16_at(bytes, pos + 6, b.col);
    lemma_parse_u16_at(bytes, pos + 8, b.length);
    lemma_parse_bool_at(bytes, pos + 10, b.enabled);
    lemma_parse_u64_at(bytes, pos + 11, b.padding);
}

/// The operands of a switch, as bytes.
pub open spec fn switch_wire(s: Switch<Offset>) -> Seq<u8> {
    padded(s.spec_expr_type()@) + le16(i16_bits(s.stored()))
}

/// The operands of a switch at `pos`, and the position after them.
pub open spec fn parse_switch(bytes: Seq<u8>, pos: int) -> Result<(Switch<Offset>, int), Error> {
    let r0 = parse_nz_padded::<types::Type>(bytes, pos);
    let (f0, n0) = r0->Ok_0;
    let r1 = parse_i16(bytes, n0);
    let (f1, n1) = r1->Ok_0;
    if r0 is Err {
        Err(r0->Err_0)
    } else if r1 is Err {
        Err(r1->Err_0)
    } else {
        Ok((Switch::from_stored(f0, f1), n1))
    }
}

/// The operands of a switch at `pos` and the position after them.
pub fn take_switch(bytes: &[u8], pos: usize) -> (r: Result<(Switch<Offset>, usize), Error>)
    ensures
        parsed(parse_switch(bytes@, pos as int), r),
{
    let (f0, n0) = take_nz_padded::<types::Type>(bytes, pos)?;
    let (f1, n1) = take_i16(bytes, n0)?;
    Ok((Switch::of_stored(f0, f1), n1))
}

/// Lays the operands of a switch over the buffer at `pos`.
pub(crate) fn put_switch(
    bytes: &mut [u8],
    pos: usize,
    s: &Switch<Offset>,
) -> (r: Result<usize, Error>)
    requires
        pos + 10 <= old(bytes)@.len(),
    ensures
        laid(old(bytes)@, pos as int, switch_wire(*s), r, final(bytes)@),
{
    proof {
        lemma_le_len();
    }
    let n0 = put_padded(bytes, pos, s.expr_type().value())?;
    let n1 = put_i16(bytes, n0, s.raw())?;
    proof {
        lemma_overlay_concat(
            old(bytes)@,
            pos as int,
            padded(s.spec_expr_type()@),
            le16(i16_bits(s.stored())),
        );
    }
    Ok(n1)
}

/// The operands of a switch that the buffer holds are read back.
pub proof fn lemma_parse_switch_at(bytes: Seq<u8>, pos: int, s: Switch<Offset>)
    requires
        holds_at(bytes, pos, switch_wire(s)),
        s.spec_expr_type()@ != 0,
    ensures
        parse_switch(bytes, pos) == Ok::<(Switch<Offset>, int), Error>((s, pos + 10)),
{
    broadcast use group_index, group_operands;

    lemma_le_len();
    lemma_holds_at_concat(bytes, pos, padded(s.spec_expr_type()@), le16(i16_bits(s.stored())));
    lemma_parse_padded_at(bytes, pos, s.spec_expr_type()@);
    lemma_parse_i16_at(bytes, pos + 8, s.stored());
}

/// The operands of a case label, as bytes.
pub open spec fn switch_label_wire(l: SwitchLabel<Offset>) -> Seq<u8> {
    le16(i16_bits(l.stored().0)) + le16(i16_bits(l.stored().1))
}

/// The operands of a case label at `pos`, and the position after them.
pub open spec fn parse_switch_label(
    bytes: Seq<u8>,
    pos: int,
) -> Result<(SwitchLabel<Offset>, int), Error> {
    let r0 = parse_i16(bytes, pos);
    let (f0, n0) = r0->Ok_0;
    let r1 = parse_i16(bytes, n0);
    let (f1, n1) = r1->Ok_0;
    if r0 is Err {
        Err(r0->Err_0)
    } else if r1 is Err {
        Err(r1->Err_0)
    } else {
        Ok((SwitchLabel::from_stored(f0, f1), n1))
    }
}

/// The operands of a case label at `pos` and the position after them.
pub fn take_switch_label(bytes: &[u8], pos: usize) -> (r: Result<
    (SwitchLabel<Offset>, usize),
    Error,
>)
    ensures
        parsed(parse_switch_label(bytes@, pos as int), r),
{
    let (f0, n0) = take_i16(bytes, pos)?;
    let (f1, n1) = take_i16(bytes, n0)?;
    Ok((SwitchLabel::of_stored(f0, f1), n1))
}

/// Lays the operands of a case label over the buffer at `pos`.
pub(crate) fn put_switch_label(
    bytes: &mut [u8],
    pos: usize,
    l: &SwitchLabel<Offset>,
) -> (r: Result<usize, Error>)
    requires
        pos + 4 <= old(bytes)@.len(),
    ensures
        laid(old(bytes)@, pos as int, switch_label_wire(*l), r, final(bytes)@),
{
    proof {
        lemma_le_len();
    }
    let n0 = put_i16(bytes, pos, l.raw().0)?;
    let n1 = put_i16(bytes, n0, l.raw().1)?;
    proof {
        lemma_overlay_concat(
            old(bytes)@,
            pos as int,
            le16(i16_bits(l.stored().0)),
            le16(i16_bits(l.stored().1)),
        );
    }
    Ok(n1)
}

/// The operands of a case label that the buffer holds are read back.
pub proof fn lemma_parse_switch_label_at(bytes: Seq<u8>, pos: int, l: SwitchLabel<Offset>)
    requires
        holds_at(bytes, pos, switch_label_wire(l)),
    ensures
        parse_switch_label(bytes, pos) == Ok::<(SwitchLabel<Offset>, int), Error>((l, pos + 4)),
{
    broadcast use group_index, group_operands;

    lemma_le_len();
    lemma_holds_at_concat(bytes, pos, le16(i16_bits(l.stored().0)), le16(i16_bits(l.stored().1)));
    lemma_parse_i16_at(bytes, pos, l.stored().0);
    lemma_parse_i16_at(bytes, pos + 2, l.stored().1);
}

/// The operands of a conditional, as bytes.
pub open spec fn conditional_wire(c: Conditional<Offset>) -> Seq<u8> {
    le16(i16_bits(c.stored().0)) + le16(i16_bits(c.stored().1))
}

/// The operands of a conditional at `pos`, and the position after them.
pub open spec fn parse_conditional(
    bytes: Seq<u8>,
    pos: int,
) -> Result<(Conditional<Offset>, int), Error> {
    let r0 = parse_i16(bytes, pos);
    let (f0, n0) = r0->Ok_0;
    let r1 = parse_i16(bytes, n0);
    let (f1, n1) = r1->Ok_0;
    if r0 is Err {
        Err(r0->Err_0)
    } else if r1 is Err {
        Err(r1->Err_0)
    } else {
        Ok((Conditional::from_stored(f0, f1), n1))
    }
}

/// The operands of a conditional at `pos` and the position after them.
pub fn take_conditional(bytes: &[u8], pos: usize) -> (r: Result<
    (Conditional<Offset>, usize),
    Error,
>)
    ensures
        parsed(parse_conditional(bytes@, pos as int), r),
{
    let (f0, n0) = take_i16(bytes, pos)?;
    let (f1, n1) = take_i16(bytes, n0)?;
    Ok((Conditional::of_stored(f0, f1), n1))
}

/// Lays the operands of a conditional over the buffer at `pos`.
pub(crate) fn put_conditional(
    bytes: &mut [u8],
    pos: usize,
    c: &Conditional<Offset>,
) -> (r: Result<usize, Error>)
    requires
        pos + 4 <= old(bytes)@.len(),
    ensures
        laid(old(bytes)@, pos as int, conditional_wire(*c), r, final(bytes)@),
{
    proof {
        lemma_le_len();
    }
    let n0 = put_i16(bytes, pos, c.raw().0)?;
    let n1 = put_i16(bytes, n0, c.raw().1)?;
    proof {
        lemma_overlay_concat(
            old(bytes)@,
            pos as int,
            le16(i16_bits(c.stored().0)),
            le16(i16_bits(c.stored().1)),
        );
    }
    Ok(n1)
}

/// The operands of a conditional that the buffer holds are read back.
pub proof fn lemma_parse_conditional_at(bytes: Seq<u8>, pos: int, c: Conditional<Offset>)
    requires
        holds_at(bytes, pos, conditional_wire(c)),
    ensures
        parse_conditional(bytes, pos) == Ok::<(Conditional<Offset>, int), Error>((c, pos + 4)),
{
    broadcast use group_index, group_operands;

    lemma_le_len();
    lemma_holds_at_concat(bytes, pos, le16(i16_bits(c.stored().0)), le16(i16_bits(c.stored().1)));
    lemma_parse_i16_at(bytes, pos, c.stored().0);
    lemma_parse_i16_at(bytes, pos + 2, c.stored().1);
}

/// The operands of a constructor call, as bytes.
pub open spec fn construct_wire(arg_count: u8, type_: TypeIndex) -> Seq<u8> {
    le8(arg_count) + padded(type_@)
}

/// The operands of a constructor call at `pos`, and the position after them.
pub open spec fn parse_construct(
    bytes: Seq<u8>,
    pos: int,
) -> Result<((u8, TypeIndex), int), Error> {
    let r0 = parse_u8(bytes, pos);
    let (f0, n0) = r0->Ok_0;
    let r1 = parse_nz_padded::<types::Type>(bytes, n0);
    let (f1, n1) = r1->Ok_0;
    if r0 is Err {
        Err(r0->Err_0)
    } else if r1 is Err {
        Err(r1->Err_0)
    } else {
        Ok(((f0, f1), n1))
    }
}

/// The operands of a constructor call at `pos` and the position after them.
pub fn take_construct(bytes: &[u8], pos: usize) -> (r: Result<((u8, TypeIndex), usize), Error>)
    ensures
        parsed(parse_construct(bytes@, pos as int), r),
{
    let (f0, n0) = take_u8(bytes, pos)?;
    let (f1, n1) = take_nz_padded::<types::Type>(bytes, n0)?;
    Ok(((f0, f1), n1))
}

/// Lays the operands of a constructor call over the buffer at `pos`.
pub(crate) fn put_construct(
    bytes: &mut [u8],
    pos: usize,
    arg_count: u8,
    type_: TypeIndex,
) -> (r: Result<usize, Error>)
    requires
        pos + 9 <= old(bytes)@.len(),
    ensures
        laid(old(bytes)@, pos as int, construct_wire(arg_count, type_), r, final(bytes)@),
{
    proof {
        lemma_le_len();
    }
    let n0 = put_u8(bytes, pos, arg_count)?;
    let n1 = put_padded(bytes, n0, type_.value())?;
    proof {
        lemma_overlay_concat(old(bytes)@, pos as int, le8(arg_count), padded(type_@));
    }
    Ok(n1)
}

/// The operands of a constructor call that the buffer holds are read back.
pub proof fn lemma_parse_construct_at(bytes: Seq<u8>, pos: int, arg_count: u8, type_: TypeIndex)
    requires
        holds_at(bytes, pos, construct_wire(arg_count, type_)),
        type_@ != 0,
    ensures
        parse_construct(bytes, pos) == Ok::<((u8, TypeIndex), int), Error>(
            ((arg_count, type_), pos + 9),
        ),
{
    broadcast use group_index, group_operands;

    lemma_le_len();
    lemma_holds_at_concat(bytes, pos, le8(arg_count), padded(type_@));
    lemma_parse_u8_at(bytes, pos, arg_count);
    lemma_parse_padded_at(bytes, pos + 1, type_@);
}

/// The operands of a static call, as bytes.
pub open spec fn invoke_static_wire(
    exit: Jump<Offset>,
    line: u16,
    function: FunctionIndex,
    flags: u16,
) -> Seq<u8> {
    jump_wire(exit) + le16(line) + padded(function@) + le16(flags)
}

/// The operands of a static call at `pos`, and the position after them.
pub open spec fn parse_invoke_static(
    bytes: Seq<u8>,
    pos: int,
) -> Result<((Jump<Offset>, u16, FunctionIndex, u16), int), Error> {
    let r0 = parse_jump(bytes, pos);
    let (f0, n0) = r0->Ok_0;
    let r1 = parse_u16(bytes, n0);
    let (f1, n1) = r1->Ok_0;
    let r2 = parse_nz_padded::<types::Function>(bytes, n1);
    let (f2, n2) = r2->Ok_0;
    let r3 = parse_u16(bytes, n2);
    let (f3, n3) = r3->Ok_0;
    if r0 is Err {
        Err(r0->Err_0)
    } else if r1 is Err {
        Err(r1->Err_0)
    } else if r2 is Err {
        Err(r2->Err_0)
    } else if r3 is Err {
        Err(r3->Err_0)
    } else {
        Ok(((f0, f1, f2, f3), n3))
    }
}

/// The operands of a static call at `pos` and the position after them.
pub fn take_invoke_static(bytes: &[u8], pos: usize) -> (r: Result<
    ((Jump<Offset>, u16, FunctionIndex, u16), usize),
    Error,
>)
    ensures
        parsed(parse_invoke_static(bytes@, pos as int), r),
{
    let (f0, n0) = take_jump(bytes, pos)?;
    let (f1, n1) = take_u16(bytes, n0)?;
    let (f2, n2) = take_nz_padded::<types::Function>(bytes, n1)?;
    let (f3, n3) = take_u16(bytes, n2)?;
    Ok(((f0, f1, f2, f3), n3))
}

/// Lays the operands of a static call over the buffer at `pos`.
pub(crate) fn put_invoke_static(
    bytes: &mut [u8],
    pos: usize,
    exit: &Jump<Offset>,
    line: u16,
    function: FunctionIndex,
    flags: u16,
) -> (r: Result<usize, Error>)
    requires
        pos + 14 <= old(bytes)@.len(),
    ensures
        laid(
            old(bytes)@,
            pos as int,
            invoke_static_wire(*exit, line, function, flags),
            r,
            final(bytes)@,
        ),
{
    proof {
        lemma_le_len();
    }
    let n0 = put_jump(bytes, pos, exit)?;
    let n1 = put_u16(bytes, n0, line)?;
    proof {
        lemma_overlay_concat(old(bytes)@, pos as int, jump_wire(*exit), le16(line));
    }
    let n2 = put_padded(bytes, n1, function.value())?;
    proof {
        lemma_overlay_concat(
            old(bytes)@,
            pos as int,
            jump_wire(*exit) + le16(line),
            padded(function@),
        );
    }
    let n3 = put_u16(bytes, n2, flags)?;
    proof {
        lemma_overlay_concat(
            old(bytes)@,
            pos as int,
            jump_wire(*exit) + le16(line) + padded(function@),
            le16(flags),
        );
    }
    Ok(n3)
}

/// The operands of a static call that the buffer holds are read back.
pub proof fn lemma_parse_invoke_static_at(
    bytes: Seq<u8>,
    pos: int,
    exit: Jump<Offset>,
    line: u16,
    function: FunctionIndex,
    flags: u16,
)
    requires
        holds_at(bytes, pos, invoke_static_wire(exit, line, function, flags)),
        function@ != 0,
    ensures
        parse_invoke_static(
            bytes,
            pos,
        ) == Ok::<((Jump<Offset>, u16, FunctionIndex, u16), int), Error>(
            ((exit, line, function, flags), pos + 14),
        ),
{
    broadcast use group_index, group_operands;

    lemma_le_len();
    lemma_holds_at_concat(
        bytes,
        pos,
        jump_wire(exit) + le16(line) + padded(function@),
        le16(flags),
    );
    lemma_holds_at_concat(bytes, pos, jump_wire(exit) + le16(line), padded(function@));
    lemma_holds_at_concat(bytes, pos, jump_wire(exit), le16(line));
    lemma_parse_jump_at(bytes, pos, exit);
    lemma_parse_u16_at(bytes, pos + 2, line);
    lemma_parse_padded_at(bytes, pos + 4, function@);
    lemma_parse_u16_at(bytes, pos + 12, flags);
}

/// The operands of a virtual call, as bytes.
pub open spec fn invoke_virtual_wire(
    exit: Jump<Offset>,
    line: u16,
    function: CNameIndex,
    flags: u16,
) -> Seq<u8> {
    jump_wire(exit) + le16(line) + padded(function@) + le16(flags)
}

/// The operands of a virtual call at `pos`, and the position after them.
pub open spec fn parse_invoke_virtual(
    bytes: Seq<u8>,
    pos: int,
) -> Result<((Jump<Offset>, u16, CNameIndex, u16), int), Error> {
    let r0 = parse_jump(bytes, pos);
    let (f0, n0) = r0->Ok_0;
    let r1 = parse_u16(bytes, n0);
    let (f1, n1) = r1->Ok_0;
    let r2 = parse_pool_padded::<types::CName>(bytes, n1);
    let (f2, n2) = r2->Ok_0;
    let r3 = parse_u16(bytes, n2);
    let (f3, n3) = r3->Ok_0;
    if r0 is Err {
        Err(r0->Err_0)
    } else if r1 is Err {
        Err(r1->Err_0)
    } else if r2 is Err {
        Err(r2->Err_0)
    } else if r3 is Err {
        Err(r3->Err_0)
    } else {
        Ok(((f0, f1, f2, f3), n3))
    }
}

/// The operands of a virtual call at `pos` and the position after them.
pub fn take_invoke_virtual(bytes: &[u8], pos: usize) -> (r: Result<
    ((Jump<Offset>, u16, CNameIndex, u16), usize),
    Error,
>)
    ensures
        parsed(parse_invoke_virtual(bytes@, pos as int), r),
{
    let (f0, n0) = take_jump(bytes, pos)?;
    let (f1, n1) = take_u16(bytes, n0)?;
    let (f2, n2) = take_pool_padded::<types::CName>(bytes, n1)?;
    let (f3, n3) = take_u16(bytes, n2)?;
    Ok(((f0, f1, f2, f3), n3))
}

/// Lays the operands of a virtual call over the buffer at `pos`.
pub(crate) fn put_invoke_virtual(
    bytes: &mut [u8],
    pos: usize,
    exit: &Jump<Offset>,
    line: u16,
    function: CNameIndex,
    flags: u16,
) -> (r: Result<usize, Error>)
    requires
        pos + 14 <= old(bytes)@.len(),
    ensures
        laid(
            old(bytes)@,
            pos as int,
            invoke_virtual_wire(*exit, line, function, flags),
            r,
            final(bytes)@,
        ),
{
    proof {
        lemma_le_len();
    }
    let n0 = put_jump(bytes, pos, exit)?;
    let n1 = put_u16(bytes, n0, line)?;
    proof {
        lemma_overlay_concat(old(bytes)@, pos as int, jump_wire(*exit), le16(line));
    }
    let n2 = put_padded(bytes, n1, function.value())?;
    proof {
        lemma_overlay_concat(
            old(bytes)@,
            pos as int,
            jump_wire(*exit) + le16(line),
            padded(function@),
        );
    }
    let n3 = put_u16(bytes, n2, flags)?;
    proof {
        lemma_overlay_concat(
            old(bytes)@,
            pos as int,
            jump_wire(*exit) + le16(line) + padded(function@),
            le16(flags),
        );
    }
    Ok(n3)
}

/// The operands of a virtual call that the buffer holds are read back.
pub proof fn lemma_parse_invoke_virtual_at(
    bytes: Seq<u8>,
    pos: int,
    exit: Jump<Offset>,
    line: u16,
    function: CNameIndex,
    flags: u16,
)
    requires
        holds_at(bytes, pos, invoke_virtual_wire(exit, line, function, flags)),
    ensures
        parse_invoke_virtual(
            bytes,
            pos,
        ) == Ok::<((Jump<Offset>, u16, CNameIndex, u16), int), Error>(
            ((exit, line, function, flags), pos + 14),
        ),
{
    broadcast use group_index, group_operands;

    lemma_le_len();
    lemma_holds_at_concat(
        bytes,
        pos,
        jump_wire(exit) + le16(line) + padded(function@),
        le16(flags),
    );
    lemma_holds_at_concat(bytes, pos, jump_wire(exit) + le16(line), padded(function@));
    lemma_holds_at_concat(bytes, pos, jump_wire(exit), le16(line));
    lemma_parse_jump_at(bytes, pos, exit);
    lemma_parse_u16_at(bytes, pos + 2, line);
    lemma_parse_padded_at(bytes, pos + 4, function@);
    lemma_parse_u16_at(bytes, pos + 12, flags);
}

/// The operands of an instruction that names a definition and carries a byte,
/// as bytes.
pub open spec fn index_byte_wire<A>(index: NzPoolIndex<A>, byte: u8) -> Seq<u8> {
    padded(index@) + le8(byte)
}

/// The operands of an instruction that names a definition and carries a byte
/// at `pos`, and the position after them.
pub open spec fn parse_index_byte<A>(
    bytes: Seq<u8>,
    pos: int,
) -> Result<((NzPoolIndex<A>, u8), int), Error> {
    let r0 = parse_nz_padded::<A>(bytes, pos);
    let (f0, n0) = r0->Ok_0;
    let r1 = parse_u8(bytes, n0);
    let (f1, n1) = r1->Ok_0;
    if r0 is Err {
        Err(r0->Err_0)
    } else if r1 is Err {
        Err(r1->Err_0)
    } else {
        Ok(((f0, f1), n1))
    }
}

/// The operands of an instruction that names a definition and carries a byte
/// at `pos` and the position after them.
pub fn take_index_byte<A>(bytes: &[u8], pos: usize) -> (r: Result<
    ((NzPoolIndex<A>, u8), usize),
    Error,
>)
    ensures
        parsed(parse_index_byte::<A>(bytes@, pos as int), r),
{
    let (f0, n0) = take_nz_padded::<A>(bytes, pos)?;
    let (f1, n1) = take_u8(bytes, n0)?;
    Ok(((f0, f1), n1))
}

/// Lays the operands of an instruction that names a definition and carries a
/// byte over the buffer at `pos`.
pub(crate) fn put_index_byte<A>(
    bytes: &mut [u8],
    pos: usize,
    index: NzPoolIndex<A>,
    byte: u8,
) -> (r: Result<usize, Error>)
    requires
        pos + 9 <= old(bytes)@.len(),
    ensures
        laid(old(bytes)@, pos as int, index_byte_wire(index, byte), r, final(bytes)@),
{
    proof {
        lemma_le_len();
    }
    let n0 = put_padded(bytes, pos, index.value())?;
    let n1 = put_u8(bytes, n0, byte)?;
    proof {
        lemma_overlay_concat(old(bytes)@, pos as int, padded(index@), le8(byte));
    }
    Ok(n1)
}

/// The operands of an instruction that names a definition and carries a byte
/// that the buffer holds are read back.
pub proof fn lemma_parse_index_byte_at<A>(bytes: Seq<u8>, pos: int, index: NzPoolIndex<A>, byte: u8)
    requires
        holds_at(bytes, pos, index_byte_wire(index, byte)),
        index@ != 0,
    ensures
        parse_index_byte::<A>(bytes, pos) == Ok::<((NzPoolIndex<A>, u8), int), Error>(
            ((index, byte), pos + 9),
        ),
{
    broadcast use group_index, group_operands;

    lemma_le_len();
    lemma_holds_at_concat(bytes, pos, padded(index@), le8(byte));
    lemma_parse_padded_at(bytes, pos, index@);
    lemma_parse_u8_at(bytes, pos + 8, byte);
}

/// The operands of a profiling marker, as bytes: the length of the name, the
/// name, and the switch.
pub open spec fn profile_wire(function: Seq<u8>, enabled: bool) -> Seq<u8> {
    le32(function.len() as u32) + function + le8(bool_bits(enabled))
}

/// The operands of a profiling marker at `pos`, and the position after them.
pub open spec fn parse_profile(bytes: Seq<u8>, pos: int) -> Result<((Seq<u8>, bool), int), Error> {
    match parse_u32(bytes, pos) {
        Ok((len, n0)) => if len > PROFILE_NAME_MAX {
            Err(profile_error())
        } else {
            match parse_bytes(bytes, n0, len as nat) {
                Ok((function, n1)) => match parse_bool(bytes, n1) {
                    Ok((enabled, n2)) => Ok(((function, enabled), n2)),
                    Err(e) => Err(e),
                },
                Err(e) => Err(e),
            }
        },
        Err(e) => Err(e),
    }
}

/// The profiling marker at `pos` and the position after it.
pub fn take_profile(bytes: &[u8], pos: usize) -> (r: Result<(Profile, usize), Error>)
    ensures
        match parse_profile(bytes@, pos as int) {
            Ok((v, to)) => r is Ok && r->Ok_0.0.spec_function() == v.0 && r->Ok_0.0.spec_enabled()
                == v.1 && r->Ok_0.1 == to,
            Err(e) => r == Err::<(Profile, usize), Error>(e),
        },
{
    let (len, n0) = take_u32(bytes, pos)?;
    if len as usize > PROFILE_NAME_MAX {
        return Err(Error::BadInput { err: "profile name too long" });
    }
    let (raw, n1) = take_bytes(bytes, n0, len as usize)?;
    let (enabled, n2) = take_bool(bytes, n1)?;
    match Profile::new(slice_to_vec(raw), enabled) {
        Some(profile) => Ok((profile, n2)),
        None => Err(Error::BadInput { err: "profile name too long" }),
    }
}

/// Lays the operands of a profiling marker over the buffer at `pos`.
pub(crate) fn put_profile(bytes: &mut [u8], pos: usize, p: &Profile) -> (r: Result<usize, Error>)
    requires
        pos + 5 + p.spec_function().len() <= old(bytes)@.len(),
    ensures
        laid(
            old(bytes)@,
            pos as int,
            profile_wire(p.spec_function(), p.spec_enabled()),
            r,
            final(bytes)@,
        ),
{
    proof {
        lemma_le_len();
    }
    let function = p.function();
    let n: usize = function.len();
    let n0 = put_u32(bytes, pos, n as u32)?;
    let n1 = put_bytes(bytes, n0, function.as_slice())?;
    proof {
        lemma_overlay_concat(old(bytes)@, pos as int, le32(n as u32), function@);
    }
    let n2 = put_bool(bytes, n1, p.enabled())?;
    proof {
        lemma_overlay_concat(
            old(bytes)@,
            pos as int,
            le32(n as u32) + function@,
            le8(bool_bits(p.spec_enabled())),
        );
    }
    Ok(n2)
}

/// The operands of a profiling marker that the buffer holds are read back.
pub proof fn lemma_parse_profile_at(bytes: Seq<u8>, pos: int, function: Seq<u8>, enabled: bool)
    requires
        holds_at(bytes, pos, profile_wire(function, enabled)),
        function.len() <= PROFILE_NAME_MAX,
    ensures
        parse_profile(bytes, pos) == Ok::<((Seq<u8>, bool), int), Error>(
            ((function, enabled), pos + 5 + function.len()),
        ),
{
    lemma_le_len();
    let n = function.len() as u32;
    lemma_holds_at_concat(bytes, pos, le32(n) + function, le8(bool_bits(enabled)));
    lemma_holds_at_concat(bytes, pos, le32(n), function);
    lemma_parse_u32_at(bytes, pos, n);
    lemma_parse_bytes_at(bytes, pos + 4, function);
    lemma_parse_bool_at(bytes, pos + 4 + function.len(), enabled);
}

/// What stands for an instruction in contracts: the instruction itself, or,
/// for a profiling marker, what it carries.
pub enum InstrView {
    Plain(Instr<Offset>),
    Profile { function: Seq<u8>, enabled: bool },
}

impl View for Instr<Offset> {
    type V = InstrView;

    open spec fn view(&self) -> InstrView {
        match self {
            Instr::Profile(p) => InstrView::Profile {
                function: p.spec_function(),
                enabled: p.spec_enabled(),
            },
            _ => InstrView::Plain(*self),
        }
    }
}

/// The operands of an instruction other than a profiling marker, as bytes.
pub open spec fn operands(i: Instr<Offset>) -> Seq<u8> {
    match i {
        Instr::Nop => Seq::empty(),
        Instr::Null => Seq::empty(),
        Instr::I32One => Seq::empty(),
        Instr::I32Zero => Seq::empty(),
        Instr::I8Const(x) => le8(i8_bits(x)),
        Instr::I16Const(x) => le16(i16_bits(x)),
        Instr::I32Const(x) => le32(i32_bits(x)),
        Instr::I64Const(x) => le64(i64_bits(x)),
        Instr::U8Const(x) => le8(x),
        Instr::U16Const(x) => le16(x),
        Instr::U32Const(x) => le32(x),
        Instr::U64Const(x) => le64(x),
        Instr::F32Const(x) => le32(x),
        Instr::F64Const(x) => le64(x),
        Instr::CNameConst(x) => padded(x@),
        Instr::EnumConst { enum_, value } => enum_const_wire(enum_, value),
        Instr::StringConst(x) => le32(x@),
        Instr::TweakDbIdConst(x) => padded(x@),
        Instr::ResourceConst(x) => padded(x@),
        Instr::TrueConst => Seq::empty(),
        Instr::FalseConst => Seq::empty(),
        Instr::Breakpoint(x) => breakpoint_wire(*x),
        Instr::Assign => Seq::empty(),
        Instr::Target(_) => Seq::empty(),
        Instr::Local(x) => padded(x@),
        Instr::Param(x) => padded(x@),
        Instr::ObjectField(x) => padded(x@),
        Instr::ExternalVar => Seq::empty(),
        Instr::Switch(x) => switch_wire(x),
        Instr::SwitchLabel(x) => switch_label_wire(x),
        Instr::SwitchDefault => Seq::empty(),
        Instr::Jump(x) => jump_wire(x),
        Instr::JumpIfFalse(x) => jump_wire(x),
        Instr::Skip(x) => jump_wire(x),
        Instr::Conditional(x) => conditional_wire(x),
        Instr::Construct { arg_count, type_ } => construct_wire(arg_count, type_),
        Instr::InvokeStatic {
            exit,
            line,
            function,
            flags,
        } => invoke_static_wire(exit, line, function, flags),
        Instr::InvokeVirtual {
            exit,
            line,
            function,
            flags,
        } => invoke_virtual_wire(exit, line, function, flags),
        Instr::ParamEnd => Seq::empty(),
        Instr::Return => Seq::empty(),
        Instr::StructField(x) => padded(x@),
        Instr::Context(x) => jump_wire(x),
        Instr::Equals(x) => padded(x@),
        Instr::RefStringEqualsString(x) => padded(x@),
        Instr::StringEqualsRefString(x) => padded(x@),
        Instr::NotEquals(x) => padded(x@),
        Instr::RefStringNotEqualsString(x) => padded(x@),
        Instr::StringNotEqualsRefString(x) => padded(x@),
        Instr::New(x) => padded(x@),
        Instr::Delete => Seq::empty(),
        Instr::This => Seq::empty(),
        Instr::Profile(_) => Seq::empty(),
        Instr::ArrayClear(x) => padded(x@),
        Instr::ArraySize(x) => padded(x@),
        Instr::ArrayResize(x) => padded(x@),
        Instr::ArrayFindFirst(x) => padded(x@),
        Instr::ArrayFindFirstFast(x) => padded(x@),
        Instr::ArrayFindLast(x) => padded(x@),
        Instr::ArrayFindLastFast(x) => padded(x@),
        Instr::ArrayContains(x) => padded(x@),
        Instr::ArrayContainsFast(x) => padded(x@),
        Instr::ArrayCount(x) => padded(x@),
        Instr::ArrayCountFast(x) => padded(x@),
        Instr::ArrayPush(x) => padded(x@),
        Instr::ArrayPop(x) => padded(x@),
        Instr::ArrayInsert(x) => padded(x@),
        Instr::ArrayRemove(x) => padded(x@),
        Instr::ArrayRemoveFast(x) => padded(x@),
        Instr::ArrayGrow(x) => padded(x@),
        Instr::ArrayErase(x) => padded(x@),
        Instr::ArrayEraseFast(x) => padded(x@),
        Instr::ArrayLast(x) => padded(x@),
        Instr::ArrayElement(x) => padded(x@),
        Instr::ArraySort(x) => padded(x@),
        Instr::ArraySortByPredicate(x) => padded(x@),
        Instr::StaticArraySize(x) => padded(x@),
        Instr::StaticArrayFindFirst(x) => padded(x@),
        Instr::StaticArrayFindFirstFast(x) => padded(x@),
        Instr::StaticArrayFindLast(x) => padded(x@),
        Instr::StaticArrayFindLastFast(x) => padded(x@),
        Instr::StaticArrayContains(x) => padded(x@),
        Instr::StaticArrayContainsFast(x) => padded(x@),
        Instr::StaticArrayCount(x) => padded(x@),
        Instr::StaticArrayCountFast(x) => padded(x@),
        Instr::StaticArrayLast(x) => padded(x@),
        Instr::StaticArrayElement(x) => padded(x@),
        Instr::RefToBool => Seq::empty(),
        Instr::WeakRefToBool => Seq::empty(),
        Instr::EnumToI32 { enum_type, size } => index_byte_wire(enum_type, size),
        Instr::I32ToEnum { enum_type, size } => index_byte_wire(enum_type, size),
        Instr::DynamicCast { class, flags } => index_byte_wire(class, flags),
        Instr::ToString(x) => padded(x@),
        Instr::ToVariant(x) => padded(x@),
        Instr::FromVariant(x) => padded(x@),
        Instr::VariantIsDefined => Seq::empty(),
        Instr::VariantIsRef => Seq::empty(),
        Instr::VariantIsArray => Seq::empty(),
        Instr::VariantTypeName => Seq::empty(),
        Instr::VariantToString => Seq::empty(),
        Instr::WeakRefToRef => Seq::empty(),
        Instr::RefToWeakRef => Seq::empty(),
        Instr::WeakRefNull => Seq::empty(),
        Instr::AsRef(x) => padded(x@),
        Instr::Deref(x) => padded(x@),
    }
}

impl InstrView {
    /// Whether executable code can hold such an instruction: no definition
    /// is named by zero, and the name of a profiling marker fits.
    pub open spec fn wf(self) -> bool {
        match self {
            InstrView::Profile { function, enabled } => function.len() <= PROFILE_NAME_MAX,
            InstrView::Plain(i) => match i {
            Instr::Nop => true,
            Instr::Null => true,
            Instr::I32One => true,
            Instr::I32Zero => true,
            Instr::I8Const(x) => true,
            Instr::I16Const(x) => true,
            Instr::I32Const(x) => true,
            Instr::I64Const(x) => true,
            Instr::U8Const(x) => true,
            Instr::U16Const(x) => true,
            Instr::U32Const(x) => true,
            Instr::U64Const(x) => true,
            Instr::F32Const(x) => true,
            Instr::F64Const(x) => true,
            Instr::CNameConst(x) => true,
            Instr::EnumConst { enum_, value } => enum_@ != 0 && value@ != 0,
            Instr::StringConst(x) => true,
            Instr::TweakDbIdConst(x) => true,
            Instr::ResourceConst(x) => true,
            Instr::TrueConst => true,
            Instr::FalseConst => true,
            Instr::Breakpoint(x) => true,
            Instr::Assign => true,
            Instr::Target(_) => true,
            Instr::Local(x) => x@ != 0,
            Instr::Param(x) => x@ != 0,
            Instr::ObjectField(x) => x@ != 0,
            Instr::ExternalVar => true,
            Instr::Switch(x) => x.spec_expr_type()@ != 0,
            Instr::SwitchLabel(x) => true,
            Instr::SwitchDefault => true,
            Instr::Jump(x) => true,
            Instr::JumpIfFalse(x) => true,
            Instr::Skip(x) => true,
            Instr::Conditional(x) => true,
            Instr::Construct { arg_count, type_ } => type_@ != 0,
            Instr::InvokeStatic { exit, line, function, flags } => function@ != 0,
            Instr::InvokeVirtual { exit, line, function, flags } => true,
            Instr::ParamEnd => true,
            Instr::Return => true,
            Instr::StructField(x) => x@ != 0,
            Instr::Context(x) => true,
            Instr::Equals(x) => x@ != 0,
            Instr::RefStringEqualsString(x) => x@ != 0,
            Instr::StringEqualsRefString(x) => x@ != 0,
            Instr::NotEquals(x) => x@ != 0,
            Instr::RefStringNotEqualsString(x) => x@ != 0,
            Instr::StringNotEqualsRefString(x) => x@ != 0,
            Instr::New(x) => x@ != 0,
            Instr::Delete => true,
            Instr::This => true,
            Instr::Profile(_) => false,
            Instr::ArrayClear(x) => x@ != 0,
            Instr::ArraySize(x) => x@ != 0,
            Instr::ArrayResize(x) => x@ != 0,
            Instr::ArrayFindFirst(x) => x@ != 0,
            Instr::ArrayFindFirstFast(x) => x@ != 0,
            Instr::ArrayFindLast(x) => x@ != 0,
            Instr::ArrayFindLastFast(x) => x@ != 0,
            Instr::ArrayContains(x) => x@ != 0,
            Instr::ArrayContainsFast(x) => x@ != 0,
            Instr::ArrayCount(x) => x@ != 0,
            Instr::ArrayCountFast(x) => x@ != 0,
            Instr::ArrayPush(x) => x@ != 0,
            Instr::ArrayPop(x) => x@ != 0,
            Instr::ArrayInsert(x) => x@ != 0,
            Instr::ArrayRemove(x) => x@ != 0,
            Instr::ArrayRemoveFast(x) => x@ != 0,
            Instr::ArrayGrow(x) => x@ != 0,
            Instr::ArrayErase(x) => x@ != 0,
            Instr::ArrayEraseFast(x) => x@ != 0,
            Instr::ArrayLast(x) => x@ != 0,
            Instr::ArrayElement(x) => x@ != 0,
            Instr::ArraySort(x) => x@ != 0,
            Instr::ArraySortByPredicate(x) => x@ != 0,
            Instr::StaticArraySize(x) => x@ != 0,
            Instr::StaticArrayFindFirst(x) => x@ != 0,
            Instr::StaticArrayFindFirstFast(x) => x@ != 0,
            Instr::StaticArrayFindLast(x) => x@ != 0,
            Instr::StaticArrayFindLastFast(x) => x@ != 0,
            Instr::StaticArrayContains(x) => x@ != 0,
            Instr::StaticArrayContainsFast(x) => x@ != 0,
            Instr::StaticArrayCount(x) => x@ != 0,
            Instr::StaticArrayCountFast(x) => x@ != 0,
            Instr::StaticArrayLast(x) => x@ != 0,
            Instr::StaticArrayElement(x) => x@ != 0,
            Instr::RefToBool => true,
            Instr::WeakRefToBool => true,
            Instr::EnumToI32 { enum_type, size } => enum_type@ != 0,
            Instr::I32ToEnum { enum_type, size } => enum_type@ != 0,
            Instr::DynamicCast { class, flags } => class@ != 0,
            Instr::ToString(x) => x@ != 0,
            Instr::ToVariant(x) => x@ != 0,
            Instr::FromVariant(x) => x@ != 0,
            Instr::VariantIsDefined => true,
            Instr::VariantIsRef => true,
            Instr::VariantIsArray => true,
            Instr::VariantTypeName => true,
            Instr::VariantToString => true,
            Instr::WeakRefToRef => true,
            Instr::RefToWeakRef => true,
            Instr::WeakRefNull => true,
            Instr::AsRef(x) => x@ != 0,
            Instr::Deref(x) => x@ != 0,
            },
        }
    }

    /// Whether this is the marker of a place, which is never written.
    pub open spec fn is_target(self) -> bool {
        self matches InstrView::Plain(i) && i is Target
    }

    /// The instruction's tag.
    pub open spec fn tag(self) -> u8 {
        match self {
            InstrView::Profile { .. } => 0x33,
            InstrView::Plain(i) => i.spec_tag(),
        }
    }

    /// The instruction's operands, as bytes.
    pub open spec fn operands(self) -> Seq<u8> {
        match self {
            InstrView::Profile { function, enabled } => profile_wire(function, enabled),
            InstrView::Plain(i) => self::operands(i),
        }
    }

    /// The instruction as bytes: its tag and its operands, and nothing for
    /// the marker of a place.
    pub open spec fn wire(self) -> Seq<u8> {
        if self.is_target() {
            Seq::empty()
        } else {
            le8(self.tag()) + self.operands()
        }
    }
}

/// The instruction with the given tag whose operands are at `pos`, and the
/// position after them.
pub open spec fn parse_operands(
    tag: u8,
    bytes: Seq<u8>,
    pos: int,
) -> Result<(InstrView, int), Error> {
    match tag {
        0x00 => Ok((InstrView::Plain(Instr::Nop), pos)),
        0x01 => Ok((InstrView::Plain(Instr::Null), pos)),
        0x02 => Ok((InstrView::Plain(Instr::I32One), pos)),
        0x03 => Ok((InstrView::Plain(Instr::I32Zero), pos)),
        0x04 => match parse_i8(bytes, pos) {
            Ok((v, to)) => Ok((InstrView::Plain(Instr::I8Const(v)), to)),
            Err(e) => Err(e),
        },
        0x05 => match parse_i16(bytes, pos) {
            Ok((v, to)) => Ok((InstrView::Plain(Instr::I16Const(v)), to)),
            Err(e) => Err(e),
        },
        0x06 => match parse_i32(bytes, pos) {
            Ok((v, to)) => Ok((InstrView::Plain(Instr::I32Const(v)), to)),
            Err(e) => Err(e),
        },
        0x07 => match parse_i64(bytes, pos) {
            Ok((v, to)) => Ok((InstrView::Plain(Instr::I64Const(v)), to)),
            Err(e) => Err(e),
        },
        0x08 => match parse_u8(bytes, pos) {
            Ok((v, to)) => Ok((InstrView::Plain(Instr::U8Const(v)), to)),
            Err(e) => Err(e),
        },
        0x09 => match parse_u16(bytes, pos) {
            Ok((v, to)) => Ok((InstrView::Plain(Instr::U16Const(v)), to)),
            Err(e) => Err(e),
        },
        0x0A => match parse_u32(bytes, pos) {
            Ok((v, to)) => Ok((InstrView::Plain(Instr::U32Const(v)), to)),
            Err(e) => Err(e),
        },
        0x0B => match parse_u64(bytes, pos) {
            Ok((v, to)) => Ok((InstrView::Plain(Instr::U64Const(v)), to)),
            Err(e) => Err(e),
        },
        0x0C => match parse_u32(bytes, pos) {
            Ok((v, to)) => Ok((InstrView::Plain(Instr::F32Const(v)), to)),
            Err(e) => Err(e),
        },
        0x0D => match parse_u64(bytes, pos) {
            Ok((v, to)) => Ok((InstrView::Plain(Instr::F64Const(v)), to)),
            Err(e) => Err(e),
        },
        0x0E => match parse_pool_padded(bytes, pos) {
            Ok((v, to)) => Ok((InstrView::Plain(Instr::CNameConst(v)), to)),
            Err(e) => Err(e),
        },
        0x0F => match parse_enum_const(bytes, pos) {
            Ok((v, to)) => Ok((InstrView::Plain(Instr::EnumConst { enum_: v.0, value: v.1 }), to)),
            Err(e) => Err(e),
        },
        0x10 => match parse_pool(bytes, pos) {
            Ok((v, to)) => Ok((InstrView::Plain(Instr::StringConst(v)), to)),
            Err(e) => Err(e),
        },
        0x11 => match parse_pool_padded(bytes, pos) {
            Ok((v, to)) => Ok((InstrView::Plain(Instr::TweakDbIdConst(v)), to)),
            Err(e) => Err(e),
        },
        0x12 => match parse_pool_padded(bytes, pos) {
            Ok((v, to)) => Ok((InstrView::Plain(Instr::ResourceConst(v)), to)),
            Err(e) => Err(e),
        },
        0x13 => Ok((InstrView::Plain(Instr::TrueConst), pos)),
        0x14 => Ok((InstrView::Plain(Instr::FalseConst), pos)),
        0x15 => match parse_breakpoint(bytes, pos) {
            Ok((v, to)) => Ok((InstrView::Plain(Instr::Breakpoint(Box::new(v))), to)),
            Err(e) => Err(e),
        },
        0x16 => Ok((InstrView::Plain(Instr::Assign), pos)),
        0x18 => match parse_nz_padded(bytes, pos) {
            Ok((v, to)) => Ok((InstrView::Plain(Instr::Local(v)), to)),
            Err(e) => Err(e),
        },
        0x19 => match parse_nz_padded(bytes, pos) {
            Ok((v, to)) => Ok((InstrView::Plain(Instr::Param(v)), to)),
            Err(e) => Err(e),
        },
        0x1A => match parse_nz_padded(bytes, pos) {
            Ok((v, to)) => Ok((InstrView::Plain(Instr::ObjectField(v)), to)),
            Err(e) => Err(e),
        },
        0x1B => Ok((InstrView::Plain(Instr::ExternalVar), pos)),
        0x1C => match parse_switch(bytes, pos) {
            Ok((v, to)) => Ok((InstrView::Plain(Instr::Switch(v)), to)),
            Err(e) => Err(e),
        },
        0x1D => match parse_switch_label(bytes, pos) {
            Ok((v, to)) => Ok((InstrView::Plain(Instr::SwitchLabel(v)), to)),
            Err(e) => Err(e),
        },
        0x1E => Ok((InstrView::Plain(Instr::SwitchDefault), pos)),
        0x1F => match parse_jump(bytes, pos) {
            Ok((v, to)) => Ok((InstrView::Plain(Instr::Jump(v)), to)),
            Err(e) => Err(e),
        },
        0x20 => match parse_jump(bytes, pos) {
            Ok((v, to)) => Ok((InstrView::Plain(Instr::JumpIfFalse(v)), to)),
            Err(e) => Err(e),
        },
        0x21 => match parse_jump(bytes, pos) {
            Ok((v, to)) => Ok((InstrView::Plain(Instr::Skip(v)), to)),
            Err(e) => Err(e),
        },
        0x22 => match parse_conditional(bytes, pos) {
            Ok((v, to)) => Ok((InstrView::Plain(Instr::Conditional(v)), to)),
            Err(e) => Err(e),
        },
        0x23 => match parse_construct(bytes, pos) {
            Ok((v, to)) => Ok(
                (InstrView::Plain(Instr::Construct { arg_count: v.0, type_: v.1 }), to),
            ),
            Err(e) => Err(e),
        },
        0x24 => match parse_invoke_static(bytes, pos) {
            Ok((v, to)) => Ok(
                (
                    InstrView::Plain(
                        Instr::InvokeStatic { exit: v.0, line: v.1, function: v.2, flags: v.3 },
                    ),
                    to,
                ),
            ),
            Err(e) => Err(e),
        },
        0x25 => match parse_invoke_virtual(bytes, pos) {
            Ok((v, to)) => Ok(
                (
                    InstrView::Plain(
                        Instr::InvokeVirtual { exit: v.0, line: v.1, function: v.2, flags: v.3 },
                    ),
                    to,
                ),
            ),
            Err(e) => Err(e),
        },
        0x26 => Ok((InstrView::Plain(Instr::ParamEnd), pos)),
        0x27 => Ok((InstrView::Plain(Instr::Return), pos)),
        0x28 => match parse_nz_padded(bytes, pos) {
            Ok((v, to)) => Ok((InstrView::Plain(Instr::StructField(v)), to)),
            Err(e) => Err(e),
        },
        0x29 => match parse_jump(bytes, pos) {
            Ok((v, to)) => Ok((InstrView::Plain(Instr::Context(v)), to)),
            Err(e) => Err(e),
        },
        0x2A => match parse_nz_padded(bytes, pos) {
            Ok((v, to)) => Ok((InstrView::Plain(Instr::Equals(v)), to)),
            Err(e) => Err(e),
        },
        0x2B => match parse_nz_padded(bytes, pos) {
            Ok((v, to)) => Ok((InstrView::Plain(Instr::RefStringEqualsString(v)), to)),
            Err(e) => Err(e),
        },
        0x2C => match parse_nz_padded(bytes, pos) {
            Ok((v, to)) => Ok((InstrView::Plain(Instr::StringEqualsRefString(v)), to)),
            Err(e) => Err(e),
        },
        0x2D => match parse_nz_padded(bytes, pos) {
            Ok((v, to)) => Ok((InstrView::Plain(Instr::NotEquals(v)), to)),
            Err(e) => Err(e),
        },
        0x2E => match parse_nz_padded(bytes, pos) {
            Ok((v, to)) => Ok((InstrView::Plain(Instr::RefStringNotEqualsString(v)), to)),
            Err(e) => Err(e),
        },
        0x2F => match parse_nz_padded(bytes, pos) {
            Ok((v, to)) => Ok((InstrView::Plain(Instr::StringNotEqualsRefString(v)), to)),
            Err(e) => Err(e),
        },
        0x30 => match parse_nz_padded(bytes, pos) {
            Ok((v, to)) => Ok((InstrView::Plain(Instr::New(v)), to)),
            Err(e) => Err(e),
        },
        0x31 => Ok((InstrView::Plain(Instr::Delete), pos)),
        0x32 => Ok((InstrView::Plain(Instr::This), pos)),
        0x33 => match parse_profile(bytes, pos) {
            Ok((v, to)) => Ok((InstrView::Profile { function: v.0, enabled: v.1 }, to)),
            Err(e) => Err(e),
        },
        0x34 => match parse_nz_padded(bytes, pos) {
            Ok((v, to)) => Ok((InstrView::Plain(Instr::ArrayClear(v)), to)),
            Err(e) => Err(e),
        },
        0x35 => match parse_nz_padded(bytes, pos) {
            Ok((v, to)) => Ok((InstrView::Plain(Instr::ArraySize(v)), to)),
            Err(e) => Err(e),
        },
        0x36 => match parse_nz_padded(bytes, pos) {
            Ok((v, to)) => Ok((InstrView::Plain(Instr::ArrayResize(v)), to)),
            Err(e) => Err(e),
        },
        0x37 => match parse_nz_padded(bytes, pos) {
            Ok((v, to)) => Ok((InstrView::Plain(Instr::ArrayFindFirst(v)), to)),
            Err(e) => Err(e),
        },
        0x38 => match parse_nz_padded(bytes, pos) {
            Ok((v, to)) => Ok((InstrView::Plain(Instr::ArrayFindFirstFast(v)), to)),
            Err(e) => Err(e),
        },
        0x39 => match parse_nz_padded(bytes, pos) {
            Ok((v, to)) => Ok((InstrView::Plain(Instr::ArrayFindLast(v)), to)),
            Err(e) => Err(e),
        },
        0x3A => match parse_nz_padded(bytes, pos) {
            Ok((v, to)) => Ok((InstrView::Plain(Instr::ArrayFindLastFast(v)), to)),
            Err(e) => Err(e),
        },
        0x3B => match parse_nz_padded(bytes, pos) {
            Ok((v, to)) => Ok((InstrView::Plain(Instr::ArrayContains(v)), to)),
            Err(e) => Err(e),
        },
        0x3C => match parse_nz_padded(bytes, pos) {
            Ok((v, to)) => Ok((InstrView::Plain(Instr::ArrayContainsFast(v)), to)),
            Err(e) => Err(e),
        },
        0x3D => match parse_nz_padded(bytes, pos) {
            Ok((v, to)) => Ok((InstrView::Plain(Instr::ArrayCount(v)), to)),
            Err(e) => Err(e),
        },
        0x3E => match parse_nz_padded(bytes, pos) {
            Ok((v, to)) => Ok((InstrView::Plain(Instr::ArrayCountFast(v)), to)),
            Err(e) => Err(e),
        },
        0x3F => match parse_nz_padded(bytes, pos) {
            Ok((v, to)) => Ok((InstrView::Plain(Instr::ArrayPush(v)), to)),
            Err(e) => Err(e),
        },
        0x40 => match parse_nz_padded(bytes, pos) {
            Ok((v, to)) => Ok((InstrView::Plain(Instr::ArrayPop(v)), to)),
            Err(e) => Err(e),
        },
        0x41 => match parse_nz_padded(bytes, pos) {
            Ok((v, to)) => Ok((InstrView::Plain(Instr::ArrayInsert(v)), to)),
            Err(e) => Err(e),
        },
        0x42 => match parse_nz_padded(bytes, pos) {
            Ok((v, to)) => Ok((InstrView::Plain(Instr::ArrayRemove(v)), to)),
            Err(e) => Err(e),
        },
        0x43 => match parse_nz_padded(bytes, pos) {
            Ok((v, to)) => Ok((InstrView::Plain(Instr::ArrayRemoveFast(v)), to)),
            Err(e) => Err(e),
        },
        0x44 => match parse_nz_padded(bytes, pos) {
            Ok((v, to)) => Ok((InstrView::Plain(Instr::ArrayGrow(v)), to)),
            Err(e) => Err(e),
        },
        0x45 => match parse_nz_padded(bytes, pos) {
            Ok((v, to)) => Ok((InstrView::Plain(Instr::ArrayErase(v)), to)),
            Err(e) => Err(e),
        },
        0x46 => match parse_nz_padded(bytes, pos) {
            Ok((v, to)) => Ok((InstrView::Plain(Instr::ArrayEraseFast(v)), to)),
            Err(e) => Err(e),
        },
        0x47 => match parse_nz_padded(bytes, pos) {
            Ok((v, to)) => Ok((InstrView::Plain(Instr::ArrayLast(v)), to)),
            Err(e) => Err(e),
        },
        0x48 => match parse_nz_padded(bytes, pos) {
            Ok((v, to)) => Ok((InstrView::Plain(Instr::ArrayElement(v)), to)),
            Err(e) => Err(e),
        },
        0x49 => match parse_nz_padded(bytes, pos) {
            Ok((v, to)) => Ok((InstrView::Plain(Instr::ArraySort(v)), to)),
            Err(e) => Err(e),
        },
        0x4A => match parse_nz_padded(bytes, pos) {
            Ok((v, to)) => Ok((InstrView::Plain(Instr::ArraySortByPredicate(v)), to)),
            Err(e) => Err(e),
        },
        0x4B => match parse_nz_padded(bytes, pos) {
            Ok((v, to)) => Ok((InstrView::Plain(Instr::StaticArraySize(v)), to)),
            Err(e) => Err(e),
        },
        0x4C => match parse_nz_padded(bytes, pos) {
            Ok((v, to)) => Ok((InstrView::Plain(Instr::StaticArrayFindFirst(v)), to)),
            Err(e) => Err(e),
        },
        0x4D => match parse_nz_padded(bytes, pos) {
            Ok((v, to)) => Ok((InstrView::Plain(Instr::StaticArrayFindFirstFast(v)), to)),
            Err(e) => Err(e),
        },
        0x4E => match parse_nz_padded(bytes, pos) {
            Ok((v, to)) => Ok((InstrView::Plain(Instr::StaticArrayFindLast(v)), to)),
            Err(e) => Err(e),
        },
        0x4F => match parse_nz_padded(bytes, pos) {
            Ok((v, to)) => Ok((InstrView::Plain(Instr::StaticArrayFindLastFast(v)), to)),
            Err(e) => Err(e),
        },
        0x50 => match parse_nz_padded(bytes, pos) {
            Ok((v, to)) => Ok((InstrView::Plain(Instr::StaticArrayContains(v)), to)),
            Err(e) => Err(e),
        },
        0x51 => match parse_nz_padded(bytes, pos) {
            Ok((v, to)) => Ok((InstrView::Plain(Instr::StaticArrayContainsFast(v)), to)),
            Err(e) => Err(e),
        },
        0x52 => match parse_nz_padded(bytes, pos) {
            Ok((v, to)) => Ok((InstrView::Plain(Instr::StaticArrayCount(v)), to)),
            Err(e) => Err(e),
        },
        0x53 => match parse_nz_padded(bytes, pos) {
            Ok((v, to)) => Ok((InstrView::Plain(Instr::StaticArrayCountFast(v)), to)),
            Err(e) => Err(e),
        },
        0x54 => match parse_nz_padded(bytes, pos) {
            Ok((v, to)) => Ok((InstrView::Plain(Instr::StaticArrayLast(v)), to)),
            Err(e) => Err(e),
        },
        0x55 => match parse_nz_padded(bytes, pos) {
            Ok((v, to)) => Ok((InstrView::Plain(Instr::StaticArrayElement(v)), to)),
            Err(e) => Err(e),
        },
        0x56 => Ok((InstrView::Plain(Instr::RefToBool), pos)),
        0x57 => Ok((InstrView::Plain(Instr::WeakRefToBool), pos)),
        0x58 => match parse_index_byte(bytes, pos) {
            Ok((v, to)) => Ok(
                (InstrView::Plain(Instr::EnumToI32 { enum_type: v.0, size: v.1 }), to),
            ),
            Err(e) => Err(e),
        },
        0x59 => match parse_index_byte(bytes, pos) {
            Ok((v, to)) => Ok(
                (InstrView::Plain(Instr::I32ToEnum { enum_type: v.0, size: v.1 }), to),
            ),
            Err(e) => Err(e),
        },
        0x5A => match parse_index_byte(bytes, pos) {
            Ok((v, to)) => Ok(
                (InstrView::Plain(Instr::DynamicCast { class: v.0, flags: v.1 }), to),
            ),
            Err(e) => Err(e),
        },
        0x5B => match parse_nz_padded(bytes, pos) {
            Ok((v, to)) => Ok((InstrView::Plain(Instr::ToString(v)), to)),
            Err(e) => Err(e),
        },
        0x5C => match parse_nz_padded(bytes, pos) {
            Ok((v, to)) => Ok((InstrView::Plain(Instr::ToVariant(v)), to)),
            Err(e) => Err(e),
        },
        0x5D => match parse_nz_padded(bytes, pos) {
            Ok((v, to)) => Ok((InstrView::Plain(Instr::FromVariant(v)), to)),
            Err(e) => Err(e),
        },
        0x5E => Ok((InstrView::Plain(Instr::VariantIsDefined), pos)),
        0x5F => Ok((InstrView::Plain(Instr::VariantIsRef), pos)),
        0x60 => Ok((InstrView::Plain(Instr::VariantIsArray), pos)),
        0x61 => Ok((InstrView::Plain(Instr::VariantTypeName), pos)),
        0x62 => Ok((InstrView::Plain(Instr::VariantToString), pos)),
        0x63 => Ok((InstrView::Plain(Instr::WeakRefToRef), pos)),
        0x64 => Ok((InstrView::Plain(Instr::RefToWeakRef), pos)),
        0x65 => Ok((InstrView::Plain(Instr::WeakRefNull), pos)),
        0x66 => match parse_nz_padded(bytes, pos) {
            Ok((v, to)) => Ok((InstrView::Plain(Instr::AsRef(v)), to)),
            Err(e) => Err(e),
        },
        0x67 => match parse_nz_padded(bytes, pos) {
            Ok((v, to)) => Ok((InstrView::Plain(Instr::Deref(v)), to)),
            Err(e) => Err(e),
        },
        _ => Err(unknown_tag_error()),
    }
}

/// The instruction at `pos`, and the position after it.
pub open spec fn parse_instr(bytes: Seq<u8>, pos: int) -> Result<(InstrView, int), Error> {
    match parse_u8(bytes, pos) {
        Ok((tag, to)) => parse_operands(tag, bytes, to),
        Err(e) => Err(e),
    }
}

impl Instr<Offset> {
    /// Decodes the instruction at `pos`; hands back the instruction and the
    /// position after it. The marker of a place is never decoded: its tag is
    /// answered like one that no instruction has.
    pub fn read_at(bytes: &[u8], pos: usize) -> (r: Result<(Instr<Offset>, usize), Error>)
        ensures
            decoded(parse_instr(bytes@, pos as int), r),
    {
        let (tag, at) = take_u8(bytes, pos)?;
        match tag {
            0x00 => Ok((Instr::Nop, at)),
            0x01 => Ok((Instr::Null, at)),
            0x02 => Ok((Instr::I32One, at)),
            0x03 => Ok((Instr::I32Zero, at)),
            0x04 => {
                let (v, to) = take_i8(bytes, at)?;
                Ok((Instr::I8Const(v), to))
            },
            0x05 => {
                let (v, to) = take_i16(bytes, at)?;
                Ok((Instr::I16Const(v), to))
            },
            0x06 => {
                let (v, to) = take_i32(bytes, at)?;
                Ok((Instr::I32Const(v), to))
            },
            0x07 => {
                let (v, to) = take_i64(bytes, at)?;
                Ok((Instr::I64Const(v), to))
            },
            0x08 => {
                let (v, to) = take_u8(bytes, at)?;
                Ok((Instr::U8Const(v), to))
            },
            0x09 => {
                let (v, to) = take_u16(bytes, at)?;
                Ok((Instr::U16Const(v), to))
            },
            0x0A => {
                let (v, to) = take_u32(bytes, at)?;
                Ok((Instr::U32Const(v), to))
            },
            0x0B => {
                let (v, to) = take_u64(bytes, at)?;
                Ok((Instr::U64Const(v), to))
            },
            0x0C => {
                let (v, to) = take_u32(bytes, at)?;
                Ok((Instr::F32Const(v), to))
            },
            0x0D => {
                let (v, to) = take_u64(bytes, at)?;
                Ok((Instr::F64Const(v), to))
            },
            0x0E => {
                let (v, to) = take_pool_padded(bytes, at)?;
                Ok((Instr::CNameConst(v), to))
            },
            0x0F => {
                let (v, to) = take_enum_const(bytes, at)?;
                Ok((Instr::EnumConst { enum_: v.0, value: v.1 }, to))
            },
            0x10 => {
                let (v, to) = take_pool(bytes, at)?;
                Ok((Instr::StringConst(v), to))
            },
            0x11 => {
                let (v, to) = take_pool_padded(bytes, at)?;
                Ok((Instr::TweakDbIdConst(v), to))
            },
            0x12 => {
                let (v, to) = take_pool_padded(bytes, at)?;
                Ok((Instr::ResourceConst(v), to))
            },
            0x13 => Ok((Instr::TrueConst, at)),
            0x14 => Ok((Instr::FalseConst, at)),
            0x15 => {
                let (v, to) = take_breakpoint(bytes, at)?;
                Ok((Instr::Breakpoint(Box::new(v)), to))
            },
            0x16 => Ok((Instr::Assign, at)),
            0x18 => {
                let (v, to) = take_nz_padded(bytes, at)?;
                Ok((Instr::Local(v), to))
            },
            0x19 => {
                let (v, to) = take_nz_padded(bytes, at)?;
                Ok((Instr::Param(v), to))
            },
            0x1A => {
                let (v, to) = take_nz_padded(bytes, at)?;
                Ok((Instr::ObjectField(v), to))
            },
            0x1B => Ok((Instr::ExternalVar, at)),
            0x1C => {
                let (v, to) = take_switch(bytes, at)?;
                Ok((Instr::Switch(v), to))
            },
            0x1D => {
                let (v, to) = take_switch_label(bytes, at)?;
                Ok((Instr::SwitchLabel(v), to))
            },
            0x1E => Ok((Instr::SwitchDefault, at)),
            0x1F => {
                let (v, to) = take_jump(bytes, at)?;
                Ok((Instr::Jump(v), to))
            },
            0x20 => {
                let (v, to) = take_jump(bytes, at)?;
                Ok((Instr::JumpIfFalse(v), to))
            },
            0x21 => {
                let (v, to) = take_jump(bytes, at)?;
                Ok((Instr::Skip(v), to))
            },
            0x22 => {
                let (v, to) = take_conditional(bytes, at)?;
                Ok((Instr::Conditional(v), to))
            },
            0x23 => {
                let (v, to) = take_construct(bytes, at)?;
                Ok((Instr::Construct { arg_count: v.0, type_: v.1 }, to))
            },
            0x24 => {
                let (v, to) = take_invoke_static(bytes, at)?;
                Ok((Instr::InvokeStatic { exit: v.0, line: v.1, function: v.2, flags: v.3 }, to))
            },
            0x25 => {
                let (v, to) = take_invoke_virtual(bytes, at)?;
                Ok((Instr::InvokeVirtual { exit: v.0, line: v.1, function: v.2, flags: v.3 }, to))
            },
            0x26 => Ok((Instr::ParamEnd, at)),
            0x27 => Ok((Instr::Return, at)),
            0x28 => {
                let (v, to) = take_nz_padded(bytes, at)?;
                Ok((Instr::StructField(v), to))
            },
            0x29 => {
                let (v, to) = take_jump(bytes, at)?;
                Ok((Instr::Context(v), to))
            },
            0x2A => {
                let (v, to) = take_nz_padded(bytes, at)?;
                Ok((Instr::Equals(v), to))
            },
            0x2B => {
                let (v, to) = take_nz_padded(bytes, at)?;
                Ok((Instr::RefStringEqualsString(v), to))
            },
            0x2C => {
                let (v, to) = take_nz_padded(bytes, at)?;
                Ok((Instr::StringEqualsRefString(v), to))
            },
            0x2D => {
                let (v, to) = take_nz_padded(bytes, at)?;
                Ok((Instr::NotEquals(v), to))
            },
            0x2E => {
                let (v, to) = take_nz_padded(bytes, at)?;
                Ok((Instr::RefStringNotEqualsString(v), to))
            },
            0x2F => {
                let (v, to) = take_nz_padded(bytes, at)?;
                Ok((Instr::StringNotEqualsRefString(v), to))
            },
            0x30 => {
                let (v, to) = take_nz_padded(bytes, at)?;
                Ok((Instr::New(v), to))
            },
            0x31 => Ok((Instr::Delete, at)),
            0x32 => Ok((Instr::This, at)),
            0x33 => {
                let (v, to) = take_profile(bytes, at)?;
                Ok((Instr::Profile(Box::new(v)), to))
            },
            0x34 => {
                let (v, to) = take_nz_padded(bytes, at)?;
                Ok((Instr::ArrayClear(v), to))
            },
            0x35 => {
                let (v, to) = take_nz_padded(bytes, at)?;
                Ok((Instr::ArraySize(v), to))
            },
            0x36 => {
                let (v, to) = take_nz_padded(bytes, at)?;
                Ok((Instr::ArrayResize(v), to))
            },
            0x37 => {
                let (v, to) = take_nz_padded(bytes, at)?;
                Ok((Instr::ArrayFindFirst(v), to))
            },
            0x38 => {
                let (v, to) = take_nz_padded(bytes, at)?;
                Ok((Instr::ArrayFindFirstFast(v), to))
            },
            0x39 => {
                let (v, to) = take_nz_padded(bytes, at)?;
                Ok((Instr::ArrayFindLast(v), to))
            },
            0x3A => {
                let (v, to) = take_nz_padded(bytes, at)?;
                Ok((Instr::ArrayFindLastFast(v), to))
            },
            0x3B => {
                let (v, to) = take_nz_padded(bytes, at)?;
                Ok((Instr::ArrayContains(v), to))
            },
            0x3C => {
                let (v, to) = take_nz_padded(bytes, at)?;
                Ok((Instr::ArrayContainsFast(v), to))
            },
            0x3D => {
                let (v, to) = take_nz_padded(bytes, at)?;
                Ok((Instr::ArrayCount(v), to))
            },
            0x3E => {
                let (v, to) = take_nz_padded(bytes, at)?;
                Ok((Instr::ArrayCountFast(v), to))
            },
            0x3F => {
                let (v, to) = take_nz_padded(bytes, at)?;
                Ok((Instr::ArrayPush(v), to))
            },
            0x40 => {
                let (v, to) = take_nz_padded(bytes, at)?;
                Ok((Instr::ArrayPop(v), to))
            },
            0x41 => {
                let (v, to) = take_nz_padded(bytes, at)?;
                Ok((Instr::ArrayInsert(v), to))
            },
            0x42 => {
                let (v, to) = take_nz_padded(bytes, at)?;
                Ok((Instr::ArrayRemove(v), to))
            },
            0x43 => {
                let (v, to) = take_nz_padded(bytes, at)?;
                Ok((Instr::ArrayRemoveFast(v), to))
            },
            0x44 => {
                let (v, to) = take_nz_padded(bytes, at)?;
                Ok((Instr::ArrayGrow(v), to))
            },
            0x45 => {
                let (v, to) = take_nz_padded(bytes, at)?;
                Ok((Instr::ArrayErase(v), to))
            },
            0x46 => {
                let (v, to) = take_nz_padded(bytes, at)?;
                Ok((Instr::ArrayEraseFast(v), to))
            },
            0x47 => {
                let (v, to) = take_nz_padded(bytes, at)?;
                Ok((Instr::ArrayLast(v), to))
            },
            0x48 => {
                let (v, to) = take_nz_padded(bytes, at)?;
                Ok((Instr::ArrayElement(v), to))
            },
            0x49 => {
                let (v, to) = take_nz_padded(bytes, at)?;
                Ok((Instr::ArraySort(v), to))
            },
            0x4A => {
                let (v, to) = take_nz_padded(bytes, at)?;
                Ok((Instr::ArraySortByPredicate(v), to))
            },
            0x4B => {
                let (v, to) = take_nz_padded(bytes, at)?;
                Ok((Instr::StaticArraySize(v), to))
            },
            0x4C => {
                let (v, to) = take_nz_padded(bytes, at)?;
                Ok((Instr::StaticArrayFindFirst(v), to))
            },
            0x4D => {
                let (v, to) = take_nz_padded(bytes, at)?;
                Ok((Instr::StaticArrayFindFirstFast(v), to))
            },
            0x4E => {
                let (v, to) = take_nz_padded(bytes, at)?;
                Ok((Instr::StaticArrayFindLast(v), to))
            },
            0x4F => {
                let (v, to) = take_nz_padded(bytes, at)?;
                Ok((Instr::StaticArrayFindLastFast(v), to))
            },
            0x50 => {
                let (v, to) = take_nz_padded(bytes, at)?;
                Ok((Instr::StaticArrayContains(v), to))
            },
            0x51 => {
                let (v, to) = take_nz_padded(bytes, at)?;
                Ok((Instr::StaticArrayContainsFast(v), to))
            },
            0x52 => {
                let (v, to) = take_nz_padded(bytes, at)?;
                Ok((Instr::StaticArrayCount(v), to))
            },
            0x53 => {
                let (v, to) = take_nz_padded(bytes, at)?;
                Ok((Instr::StaticArrayCountFast(v), to))
            },
            0x54 => {
                let (v, to) = take_nz_padded(bytes, at)?;
                Ok((Instr::StaticArrayLast(v), to))
            },
            0x55 => {
                let (v, to) = take_nz_padded(bytes, at)?;
                Ok((Instr::StaticArrayElement(v), to))
            },
            0x56 => Ok((Instr::RefToBool, at)),
            0x57 => Ok((Instr::WeakRefToBool, at)),
            0x58 => {
                let (v, to) = take_index_byte(bytes, at)?;
                Ok((Instr::EnumToI32 { enum_type: v.0, size: v.1 }, to))
            },
            0x59 => {
                let (v, to) = take_index_byte(bytes, at)?;
                Ok((Instr::I32ToEnum { enum_type: v.0, size: v.1 }, to))
            },
            0x5A => {
                let (v, to) = take_index_byte(bytes, at)?;
                Ok((Instr::DynamicCast { class: v.0, flags: v.1 }, to))
            },
            0x5B => {
                let (v, to) = take_nz_padded(bytes, at)?;
                Ok((Instr::ToString(v), to))
            },
            0x5C => {
                let (v, to) = take_nz_padded(bytes, at)?;
                Ok((Instr::ToVariant(v), to))
            },
            0x5D => {
                let (v, to) = take_nz_padded(bytes, at)?;
                Ok((Instr::FromVariant(v), to))
            },
            0x5E => Ok((Instr::VariantIsDefined, at)),
            0x5F => Ok((Instr::VariantIsRef, at)),
            0x60 => Ok((Instr::VariantIsArray, at)),
            0x61 => Ok((Instr::VariantTypeName, at)),
            0x62 => Ok((Instr::VariantToString, at)),
            0x63 => Ok((Instr::WeakRefToRef, at)),
            0x64 => Ok((Instr::RefToWeakRef, at)),
            0x65 => Ok((Instr::WeakRefNull, at)),
            0x66 => {
                let (v, to) = take_nz_padded(bytes, at)?;
                Ok((Instr::AsRef(v), to))
            },
            0x67 => {
                let (v, to) = take_nz_padded(bytes, at)?;
                Ok((Instr::Deref(v), to))
            },
            _ => Err(Error::BadInput { err: "unknown instruction tag" }),
        }
    }

    /// Lays the instruction over the buffer at `pos`, where there is room
    /// for it.
    pub(crate) fn put(&self, bytes: &mut [u8], pos: usize) -> (r: Result<usize, Error>)
        requires
            pos + self@.wire().len() <= old(bytes)@.len(),
        ensures
            laid(old(bytes)@, pos as int, self@.wire(), r, final(bytes)@),
    {
        proof {
            lemma_le_len();
        }
        if let Instr::Target(_) = self {
            proof {
                assert(overlay(bytes@, pos as int, Seq::<u8>::empty()) =~= bytes@);
            }
            return Ok(pos);
        }
        let at = put_u8(bytes, pos, self.tag())?;
        let ghost tagged = bytes@;
        let end = match self {
            Instr::Nop => at,
            Instr::Null => at,
            Instr::I32One => at,
            Instr::I32Zero => at,
            Instr::I8Const(x) => put_i8(bytes, at, *x)?,
            Instr::I16Const(x) => put_i16(bytes, at, *x)?,
            Instr::I32Const(x) => put_i32(bytes, at, *x)?,
            Instr::I64Const(x) => put_i64(bytes, at, *x)?,
            Instr::U8Const(x) => put_u8(bytes, at, *x)?,
            Instr::U16Const(x) => put_u16(bytes, at, *x)?,
            Instr::U32Const(x) => put_u32(bytes, at, *x)?,
            Instr::U64Const(x) => put_u64(bytes, at, *x)?,
            Instr::F32Const(x) => put_u32(bytes, at, *x)?,
            Instr::F64Const(x) => put_u64(bytes, at, *x)?,
            Instr::CNameConst(x) => put_padded(bytes, at, x.value())?,
            Instr::EnumConst { enum_, value } => put_enum_const(bytes, at, *enum_, *value)?,
            Instr::StringConst(x) => put_u32(bytes, at, x.value())?,
            Instr::TweakDbIdConst(x) => put_padded(bytes, at, x.value())?,
            Instr::ResourceConst(x) => put_padded(bytes, at, x.value())?,
            Instr::TrueConst => at,
            Instr::FalseConst => at,
            Instr::Breakpoint(x) => put_breakpoint(bytes, at, x)?,
            Instr::Assign => at,
            Instr::Target(_) => at,
            Instr::Local(x) => put_padded(bytes, at, x.value())?,
            Instr::Param(x) => put_padded(bytes, at, x.value())?,
            Instr::ObjectField(x) => put_padded(bytes, at, x.value())?,
            Instr::ExternalVar => at,
            Instr::Switch(x) => put_switch(bytes, at, x)?,
            Instr::SwitchLabel(x) => put_switch_label(bytes, at, x)?,
            Instr::SwitchDefault => at,
            Instr::Jump(x) => put_jump(bytes, at, x)?,
            Instr::JumpIfFalse(x) => put_jump(bytes, at, x)?,
            Instr::Skip(x) => put_jump(bytes, at, x)?,
            Instr::Conditional(x) => put_conditional(bytes, at, x)?,
            Instr::Construct { arg_count, type_ } => put_construct(bytes, at, *arg_count, *type_)?,
            Instr::InvokeStatic { exit, line, function, flags } => put_invoke_static(
                bytes,
                at,
                exit,
                *line,
                *function,
                *flags,
            )?,
            Instr::InvokeVirtual { exit, line, function, flags } => put_invoke_virtual(
                bytes,
                at,
                exit,
                *line,
                *function,
                *flags,
            )?,
            Instr::ParamEnd => at,
            Instr::Return => at,
            Instr::StructField(x) => put_padded(bytes, at, x.value())?,
            Instr::Context(x) => put_jump(bytes, at, x)?,
            Instr::Equals(x) => put_padded(bytes, at, x.value())?,
            Instr::RefStringEqualsString(x) => put_padded(bytes, at, x.value())?,
            Instr::StringEqualsRefString(x) => put_padded(bytes, at, x.value())?,
            Instr::NotEquals(x) => put_padded(bytes, at, x.value())?,
            Instr::RefStringNotEqualsString(x) => put_padded(bytes, at, x.value())?,
            Instr::StringNotEqualsRefString(x) => put_padded(bytes, at, x.value())?,
            Instr::New(x) => put_padded(bytes, at, x.value())?,
            Instr::Delete => at,
            Instr::This => at,
            Instr::Profile(x) => put_profile(bytes, at, x)?,
            Instr::ArrayClear(x) => put_padded(bytes, at, x.value())?,
            Instr::ArraySize(x) => put_padded(bytes, at, x.value())?,
            Instr::ArrayResize(x) => put_padded(bytes, at, x.value())?,
            Instr::ArrayFindFirst(x) => put_padded(bytes, at, x.value())?,
            Instr::ArrayFindFirstFast(x) => put_padded(bytes, at, x.value())?,
            Instr::ArrayFindLast(x) => put_padded(bytes, at, x.value())?,
            Instr::ArrayFindLastFast(x) => put_padded(bytes, at, x.value())?,
            Instr::ArrayContains(x) => put_padded(bytes, at, x.value())?,
            Instr::ArrayContainsFast(x) => put_padded(bytes, at, x.value())?,
            Instr::ArrayCount(x) => put_padded(bytes, at, x.value())?,
            Instr::ArrayCountFast(x) => put_padded(bytes, at, x.value())?,
            Instr::ArrayPush(x) => put_padded(bytes, at, x.value())?,
            Instr::ArrayPop(x) => put_padded(bytes, at, x.value())?,
            Instr::ArrayInsert(x) => put_padded(bytes, at, x.value())?,
            Instr::ArrayRemove(x) => put_padded(bytes, at, x.value())?,
            Instr::ArrayRemoveFast(x) => put_padded(bytes, at, x.value())?,
            Instr::ArrayGrow(x) => put_padded(bytes, at, x.value())?,
            Instr::ArrayErase(x) => put_padded(bytes, at, x.value())?,
            Instr::ArrayEraseFast(x) => put_padded(bytes, at, x.value())?,
            Instr::ArrayLast(x) => put_padded(bytes, at, x.value())?,
            Instr::ArrayElement(x) => put_padded(bytes, at, x.value())?,
            Instr::ArraySort(x) => put_padded(bytes, at, x.value())?,
            Instr::ArraySortByPredicate(x) => put_padded(bytes, at, x.value())?,
            Instr::StaticArraySize(x) => put_padded(bytes, at, x.value())?,
            Instr::StaticArrayFindFirst(x) => put_padded(bytes, at, x.value())?,
            Instr::StaticArrayFindFirstFast(x) => put_padded(bytes, at, x.value())?,
            Instr::StaticArrayFindLast(x) => put_padded(bytes, at, x.value())?,
            Instr::StaticArrayFindLastFast(x) => put_padded(bytes, at, x.value())?,
            Instr::StaticArrayContains(x) => put_padded(bytes, at, x.value())?,
            Instr::StaticArrayContainsFast(x) => put_padded(bytes, at, x.value())?,
            Instr::StaticArrayCount(x) => put_padded(bytes, at, x.value())?,
            Instr::StaticArrayCountFast(x) => put_padded(bytes, at, x.value())?,
            Instr::StaticArrayLast(x) => put_padded(bytes, at, x.value())?,
            Instr::StaticArrayElement(x) => put_padded(bytes, at, x.value())?,
            Instr::RefToBool => at,
            Instr::WeakRefToBool => at,
            Instr::EnumToI32 { enum_type, size } => put_index_byte(bytes, at, *enum_type, *size)?,
            Instr::I32ToEnum { enum_type, size } => put_index_byte(bytes, at, *enum_type, *size)?,
            Instr::DynamicCast { class, flags } => put_index_byte(bytes, at, *class, *flags)?,
            Instr::ToString(x) => put_padded(bytes, at, x.value())?,
            Instr::ToVariant(x) => put_padded(bytes, at, x.value())?,
            Instr::FromVariant(x) => put_padded(bytes, at, x.value())?,
            Instr::VariantIsDefined => at,
            Instr::VariantIsRef => at,
            Instr::VariantIsArray => at,
            Instr::VariantTypeName => at,
            Instr::VariantToString => at,
            Instr::WeakRefToRef => at,
            Instr::RefToWeakRef => at,
            Instr::WeakRefNull => at,
            Instr::AsRef(x) => put_padded(bytes, at, x.value())?,
            Instr::Deref(x) => put_padded(bytes, at, x.value())?,
        };
        proof {
            if self@.operands().len() == 0 {
                assert(overlay(tagged, at as int, self@.operands()) =~= tagged);
            }
            lemma_overlay_concat(old(bytes)@, pos as int, le8(self@.tag()), self@.operands());
        }
        Ok(end)
    }

    /// Encodes the instruction into the buffer at `pos`; hands back the
    /// position after it. Where the instruction does not fit, the buffer is
    /// left as it was.
    pub fn write_at(&self, bytes: &mut [u8], pos: usize) -> (r: Result<usize, Error>)
        ensures
            encoded(old(bytes)@, pos as int, self@.wire(), r, final(bytes)@),
    {
        proof {
            lemma_encoded_size(*self);
        }
        let n: usize = self.size() as usize;
        let len: usize = bytes.len();
        if pos > len {
            return Err(Error::BadOffset(pos));
        }
        if len - pos < n {
            return Err(Error::Incomplete);
        }
        self.put(bytes, pos)
    }
}

/// An instruction is encoded in as many bytes as its size says: none for
/// the marker of a place, and for every other one byte of tag and the
/// operands.
pub proof fn lemma_encoded_size(i: Instr<Offset>)
    ensures
        i@.wire().len() == i.spec_size(),
        i is Target ==> i.spec_size() == 0,
        !(i is Target) ==> i.spec_size() == 1 + i.operand_size(),
        i matches Instr::Profile(p) ==> i.spec_size() == 6 + p.spec_function().len(),
{
    lemma_le_len();
}

/// An instruction that the buffer holds is decoded to itself.
pub proof fn lemma_parse_instr_at(bytes: Seq<u8>, pos: int, v: InstrView)
    requires
        v.wf(),
        !v.is_target(),
        holds_at(bytes, pos, v.wire()),
    ensures
        parse_instr(bytes, pos) == Ok::<(InstrView, int), Error>((v, pos + v.wire().len())),
{
    broadcast use group_index, group_operands;

    lemma_le_len();
    lemma_holds_at_concat(bytes, pos, le8(v.tag()), v.operands());
    lemma_parse_u8_at(bytes, pos, v.tag());
    match v {
        InstrView::Profile { function, enabled } => {
            lemma_parse_profile_at(bytes, pos + 1, function, enabled);
        },
        InstrView::Plain(i) => match i {
            Instr::Nop => {},
            Instr::Null => {},
            Instr::I32One => {},
            Instr::I32Zero => {},
            Instr::I8Const(x) => {
                lemma_parse_i8_at(bytes, pos + 1, x);
            },
            Instr::I16Const(x) => {
                lemma_parse_i16_at(bytes, pos + 1, x);
            },
            Instr::I32Const(x) => {
                lemma_parse_i32_at(bytes, pos + 1, x);
            },
            Instr::I64Const(x) => {
                lemma_parse_i64_at(bytes, pos + 1, x);
            },
            Instr::U8Const(x) => {
                lemma_parse_u8_at(bytes, pos + 1, x);
            },
            Instr::U16Const(x) => {
                lemma_parse_u16_at(bytes, pos + 1, x);
            },
            Instr::U32Const(x) => {
                lemma_parse_u32_at(bytes, pos + 1, x);
            },
            Instr::U64Const(x) => {
                lemma_parse_u64_at(bytes, pos + 1, x);
            },
            Instr::F32Const(x) => {
                lemma_parse_u32_at(bytes, pos + 1, x);
            },
            Instr::F64Const(x) => {
                lemma_parse_u64_at(bytes, pos + 1, x);
            },
            Instr::CNameConst(x) => {
                lemma_parse_padded_at(bytes, pos + 1, x@);
            },
            Instr::EnumConst { enum_, value } => {
                lemma_parse_enum_const_at(bytes, pos + 1, enum_, value);
            },
            Instr::StringConst(x) => {
                lemma_parse_u32_at(bytes, pos + 1, x@);
            },
            Instr::TweakDbIdConst(x) => {
                lemma_parse_padded_at(bytes, pos + 1, x@);
            },
            Instr::ResourceConst(x) => {
                lemma_parse_padded_at(bytes, pos + 1, x@);
            },
            Instr::TrueConst => {},
            Instr::FalseConst => {},
            Instr::Breakpoint(x) => {
                lemma_parse_breakpoint_at(bytes, pos + 1, *x);
            },
            Instr::Assign => {},
            Instr::Target(_) => {},
            Instr::Local(x) => {
                lemma_parse_padded_at(bytes, pos + 1, x@);
            },
            Instr::Param(x) => {
                lemma_parse_padded_at(bytes, pos + 1, x@);
            },
            Instr::ObjectField(x) => {
                lemma_parse_padded_at(bytes, pos + 1, x@);
            },
            Instr::ExternalVar => {},
            Instr::Switch(x) => {
                lemma_parse_switch_at(bytes, pos + 1, x);
            },
            Instr::SwitchLabel(x) => {
                lemma_parse_switch_label_at(bytes, pos + 1, x);
            },
            Instr::SwitchDefault => {},
            Instr::Jump(x) => {
                lemma_parse_jump_at(bytes, pos + 1, x);
            },
            Instr::JumpIfFalse(x) => {
                lemma_parse_jump_at(bytes, pos + 1, x);
            },
            Instr::Skip(x) => {
                lemma_parse_jump_at(bytes, pos + 1, x);
            },
            Instr::Conditional(x) => {
                lemma_parse_conditional_at(bytes, pos + 1, x);
            },
            Instr::Construct { arg_count, type_ } => {
                lemma_parse_construct_at(bytes, pos + 1, arg_count, type_);
            },
            Instr::InvokeStatic { exit, line, function, flags } => {
                lemma_parse_invoke_static_at(bytes, pos + 1, exit, line, function, flags);
            },
            Instr::InvokeVirtual { exit, line, function, flags } => {
                lemma_parse_invoke_virtual_at(bytes, pos + 1, exit, line, function, flags);
            },
            Instr::ParamEnd => {},
            Instr::Return => {},
            Instr::StructField(x) => {
                lemma_parse_padded_at(bytes, pos + 1, x@);
            },
            Instr::Context(x) => {
                lemma_parse_jump_at(bytes, pos + 1, x);
            },
            Instr::Equals(x) => {
                lemma_parse_padded_at(bytes, pos + 1, x@);
            },
            Instr::RefStringEqualsString(x) => {
                lemma_parse_padded_at(bytes, pos + 1, x@);
            },
            Instr::StringEqualsRefString(x) => {
                lemma_parse_padded_at(bytes, pos + 1, x@);
            },
            Instr::NotEquals(x) => {
                lemma_parse_padded_at(bytes, pos + 1, x@);
            },
            Instr::RefStringNotEqualsString(x) => {
                lemma_parse_padded_at(bytes, pos + 1, x@);
            },
            Instr::StringNotEqualsRefString(x) => {
                lemma_parse_padded_at(bytes, pos + 1, x@);
            },
            Instr::New(x) => {
                lemma_parse_padded_at(bytes, pos + 1, x@);
            },
            Instr::Delete => {},
            Instr::This => {},
            Instr::Profile(_) => {},
            Instr::ArrayClear(x) => {
                lemma_parse_padded_at(bytes, pos + 1, x@);
            },
            Instr::ArraySize(x) => {
                lemma_parse_padded_at(bytes, pos + 1, x@);
            },
            Instr::ArrayResize(x) => {
                lemma_parse_padded_at(bytes, pos + 1, x@);
            },
            Instr::ArrayFindFirst(x) => {
                lemma_parse_padded_at(bytes, pos + 1, x@);
            },
            Instr::ArrayFindFirstFast(x) => {
                lemma_parse_padded_at(bytes, pos + 1, x@);
            },
            Instr::ArrayFindLast(x) => {
                lemma_parse_padded_at(bytes, pos + 1, x@);
            },
            Instr::ArrayFindLastFast(x) => {
                lemma_parse_padded_at(bytes, pos + 1, x@);
            },
            Instr::ArrayContains(x) => {
                lemma_parse_padded_at(bytes, pos + 1, x@);
            },
            Instr::ArrayContainsFast(x) => {
                lemma_parse_padded_at(bytes, pos + 1, x@);
            },
            Instr::ArrayCount(x) => {
                lemma_parse_padded_at(bytes, pos + 1, x@);
            },
            Instr::ArrayCountFast(x) => {
                lemma_parse_padded_at(bytes, pos + 1, x@);
            },
            Instr::ArrayPush(x) => {
                lemma_parse_padded_at(bytes, pos + 1, x@);
            },
            Instr::ArrayPop(x) => {
                lemma_parse_padded_at(bytes, pos + 1, x@);
            },
            Instr::ArrayInsert(x) => {
                lemma_parse_padded_at(bytes, pos + 1, x@);
            },
            Instr::ArrayRemove(x) => {
                lemma_parse_padded_at(bytes, pos + 1, x@);
            },
            Instr::ArrayRemoveFast(x) => {
                lemma_parse_padded_at(bytes, pos + 1, x@);
            },
            Instr::ArrayGrow(x) => {
                lemma_parse_padded_at(bytes, pos + 1, x@);
            },
            Instr::ArrayErase(x) => {
                lemma_parse_padded_at(bytes, pos + 1, x@);
            },
            Instr::ArrayEraseFast(x) => {
                lemma_parse_padded_at(bytes, pos + 1, x@);
            },
            Instr::ArrayLast(x) => {
                lemma_parse_padded_at(bytes, pos + 1, x@);
            },
            Instr::ArrayElement(x) => {
                lemma_parse_padded_at(bytes, pos + 1, x@);
            },
            Instr::ArraySort(x) => {
                lemma_parse_padded_at(bytes, pos + 1, x@);
            },
            Instr::ArraySortByPredicate(x) => {
                lemma_parse_padded_at(bytes, pos + 1, x@);
            },
            Instr::StaticArraySize(x) => {
                lemma_parse_padded_at(bytes, pos + 1, x@);
            },
            Instr::StaticArrayFindFirst(x) => {
                lemma_parse_padded_at(bytes, pos + 1, x@);
            },
            Instr::StaticArrayFindFirstFast(x) => {
                lemma_parse_padded_at(bytes, pos + 1, x@);
            },
            Instr::StaticArrayFindLast(x) => {
                lemma_parse_padded_at(bytes, pos + 1, x@);
            },
            Instr::StaticArrayFindLastFast(x) => {
                lemma_parse_padded_at(bytes, pos + 1, x@);
            },
            Instr::StaticArrayContains(x) => {
                lemma_parse_padded_at(bytes, pos + 1, x@);
            },
            Instr::StaticArrayContainsFast(x) => {
                lemma_parse_padded_at(bytes, pos + 1, x@);
            },
            Instr::StaticArrayCount(x) => {
                lemma_parse_padded_at(bytes, pos + 1, x@);
            },
            Instr::StaticArrayCountFast(x) => {
                lemma_parse_padded_at(bytes, pos + 1, x@);
            },
            Instr::StaticArrayLast(x) => {
                lemma_parse_padded_at(bytes, pos + 1, x@);
            },
            Instr::StaticArrayElement(x) => {
                lemma_parse_padded_at(bytes, pos + 1, x@);
            },
            Instr::RefToBool => {},
            Instr::WeakRefToBool => {},
            Instr::EnumToI32 { enum_type, size } => {
                lemma_parse_index_byte_at(bytes, pos + 1, enum_type, size);
            },
            Instr::I32ToEnum { enum_type, size } => {
                lemma_parse_index_byte_at(bytes, pos + 1, enum_type, size);
            },
            Instr::DynamicCast { class, flags } => {
                lemma_parse_index_byte_at(bytes, pos + 1, class, flags);
            },
            Instr::ToString(x) => {
                lemma_parse_padded_at(bytes, pos + 1, x@);
            },
            Instr::ToVariant(x) => {
                lemma_parse_padded_at(bytes, pos + 1, x@);
            },
            Instr::FromVariant(x) => {
                lemma_parse_padded_at(bytes, pos + 1, x@);
            },
            Instr::VariantIsDefined => {},
            Instr::VariantIsRef => {},
            Instr::VariantIsArray => {},
            Instr::VariantTypeName => {},
            Instr::VariantToString => {},
            Instr::WeakRefToRef => {},
            Instr::RefToWeakRef => {},
            Instr::WeakRefNull => {},
            Instr::AsRef(x) => {
                lemma_parse_padded_at(bytes, pos + 1, x@);
            },
            Instr::Deref(x) => {
                lemma_parse_padded_at(bytes, pos + 1, x@);
            },
        },
    }
}

/// What is decoded is an instruction that executable code can hold, is not
/// the marker of a place, and takes up the bytes that were read.
pub proof fn lemma_parse_instr_wf(bytes: Seq<u8>, pos: int)
    requires
        parse_instr(bytes, pos) is Ok,
    ensures
        parse_instr(bytes, pos)->Ok_0.0.wf(),
        !parse_instr(bytes, pos)->Ok_0.0.is_target(),
        parse_instr(bytes, pos)->Ok_0.1 == pos + parse_instr(bytes, pos)->Ok_0.0.wire().len(),
        pos < parse_instr(bytes, pos)->Ok_0.1 <= bytes.len(),
{
    broadcast use group_index, group_operands;

    lemma_le_len();
}

/// An instruction that is encoded and decoded again is the instruction it
/// was, with every operand and every target as it was.
pub proof fn lemma_decode_encode(v: InstrView)
    requires
        v.wf(),
        !v.is_target(),
    ensures
        parse_instr(v.wire(), 0) == Ok::<(InstrView, int), Error>((v, v.wire().len() as int)),
{
    assert(v.wire().subrange(0, v.wire().len() as int) =~= v.wire());
    lemma_parse_instr_at(v.wire(), 0, v);
}

/// A jump made for a target is stored three below the target, and its
/// target is read off as what it was made for.
pub proof fn lemma_jump_bias(target: Offset)
    requires
        target.value - JUMP_BIAS >= i16::MIN,
    ensures
        Jump::from_stored((target.value - JUMP_BIAS) as i16).stored() == target.value - 3,
        Jump::from_stored((target.value - JUMP_BIAS) as i16).spec_target() == target.value,
        jump_wire(Jump::from_stored((target.value - JUMP_BIAS) as i16)) == le16(
            i16_bits((target.value - 3) as i16),
        ),
{
    broadcast use group_operands;

}

/// A conditional made for a false label and an exit stores them three and
/// five below, and both are read off as what it was made for.
pub proof fn lemma_conditional_bias(false_label: Offset, exit: Offset)
    requires
        false_label.value - JUMP_BIAS >= i16::MIN,
        exit.value - EXIT_BIAS >= i16::MIN,
    ensures
        ({
            let c = Conditional::from_stored(
                (false_label.value - JUMP_BIAS) as i16,
                (exit.value - EXIT_BIAS) as i16,
            );
            &&& c.stored() == ((false_label.value - 3) as i16, (exit.value - 5) as i16)
            &&& c.spec_false_label() == false_label.value
            &&& c.spec_exit() == exit.value
        }),
{
    broadcast use group_operands;

}

/// A switch made for a first case stores it eleven below, and the first
/// case is read off as what the switch was made for.
pub proof fn lemma_switch_bias(expr_type: TypeIndex, first_case: Offset)
    requires
        first_case.value - SWITCH_BIAS >= i16::MIN,
    ensures
        ({
            let s = Switch::from_stored(expr_type, (first_case.value - SWITCH_BIAS) as i16);
            &&& s.stored() == first_case.value - 11
            &&& s.spec_first_case() == first_case.value
            &&& s.spec_expr_type() == expr_type
        }),
{
    broadcast use group_operands;

}

/// A case label made for a next case and a body stores them three and five
/// below, and both are read off as what the label was made for.
pub proof fn lemma_switch_label_bias(next_case: Offset, body: Offset)
    requires
        next_case.value - JUMP_BIAS >= i16::MIN,
        body.value - EXIT_BIAS >= i16::MIN,
    ensures
        ({
            let l = SwitchLabel::from_stored(
                (next_case.value - JUMP_BIAS) as i16,
                (body.value - EXIT_BIAS) as i16,
            );
            &&& l.stored() == ((next_case.value - 3) as i16, (body.value - 5) as i16)
            &&& l.spec_next_case() == next_case.value
            &&& l.spec_body() == body.value
        }),
{
    broadcast use group_operands;

}

} // verus!
