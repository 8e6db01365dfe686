use script_bundle::{
    Breakpoint, CNameIndex, ClassIndex, Conditional, EnumIndex, EnumValueIndex, Error, FieldIndex,
    FunctionIndex, Instr, Jump, LocalIndex, Offset, ParameterIndex, Profile, ResourceIndex,
    StringIndex, Switch, SwitchLabel, TweakDbIndex, TypeIndex,
};

fn encode(instr: &Instr) -> Vec<u8> {
    let mut bytes = vec![0u8; instr.size() as usize];
    let end = instr.write_at(&mut bytes, 0).unwrap();
    assert_eq!(end, bytes.len());
    bytes
}

fn decode(bytes: &[u8]) -> Instr {
    let (instr, end) = Instr::read_at(bytes, 0).unwrap();
    assert_eq!(end, bytes.len());
    instr
}

fn type_index(value: u32) -> TypeIndex {
    TypeIndex::new(value).unwrap()
}

#[test]
fn jump_is_stored_three_below_its_target() {
    let instr = Instr::Jump(Jump::new(Offset { value: 10 }));
    let bytes = encode(&instr);
    assert_eq!(bytes, vec![0x1F, 0x07, 0x00]);
    match decode(&bytes) {
        Instr::Jump(jump) => assert_eq!(jump.target(), Offset { value: 10 }),
        other => panic!("decoded {:?}", other),
    }
}

#[test]
fn jump_survives_at_any_position() {
    let instr = Instr::Jump(Jump::new(Offset { value: 10 }));
    let mut bytes = vec![0xEEu8; 8];
    let end = instr.write_at(&mut bytes, 4).unwrap();
    assert_eq!(end, 7);
    assert_eq!(bytes, vec![0xEE, 0xEE, 0xEE, 0xEE, 0x1F, 0x07, 0x00, 0xEE]);
    let (decoded, next) = Instr::read_at(&bytes, 4).unwrap();
    assert_eq!(next, 7);
    assert_eq!(decoded, instr);
}

#[test]
fn conditional_is_stored_three_and_five_below() {
    let instr = Instr::Conditional(Conditional::new(Offset { value: 20 }, Offset { value: 30 }));
    let bytes = encode(&instr);
    assert_eq!(bytes, vec![0x22, 17, 0, 25, 0]);
    match decode(&bytes) {
        Instr::Conditional(conditional) => {
            assert_eq!(conditional.false_label(), Offset { value: 20 });
            assert_eq!(conditional.exit(), Offset { value: 30 });
        },
        other => panic!("decoded {:?}", other),
    }
}

#[test]
fn switch_is_stored_eleven_below() {
    let instr = Instr::Switch(Switch::new(type_index(7), Offset { value: 100 }));
    let bytes = encode(&instr);
    assert_eq!(bytes, vec![0x1C, 7, 0, 0, 0, 0, 0, 0, 0, 89, 0]);
    match decode(&bytes) {
        Instr::Switch(switch) => {
            assert_eq!(switch.first_case(), Offset { value: 100 });
            assert_eq!(switch.expr_type(), type_index(7));
        },
        other => panic!("decoded {:?}", other),
    }
}

#[test]
fn switch_label_is_stored_three_and_five_below() {
    let instr = Instr::SwitchLabel(SwitchLabel::new(Offset { value: -1 }, Offset { value: 5 }));
    let bytes = encode(&instr);
    assert_eq!(bytes, vec![0x1D, 0xFC, 0xFF, 0, 0]);
    match decode(&bytes) {
        Instr::SwitchLabel(label) => {
            assert_eq!(label.next_case(), Offset { value: -1 });
            assert_eq!(label.body(), Offset { value: 5 });
        },
        other => panic!("decoded {:?}", other),
    }
}

#[test]
fn jump_like_instructions_keep_their_targets() {
    let make: [fn(Jump<Offset>) -> Instr; 4] =
        [Instr::Jump, Instr::JumpIfFalse, Instr::Skip, Instr::Context];
    let tags = [0x1Fu8, 0x20, 0x21, 0x29];
    for (make, tag) in make.iter().zip(tags) {
        for target in [i16::MIN + 3, -1, 0, 3, 1000, i16::MAX] {
            let instr = make(Jump::new(Offset { value: target }));
            let bytes = encode(&instr);
            assert_eq!(bytes[0], tag);
            assert_eq!(bytes.len(), 3);
            assert_eq!(decode(&bytes), instr);
        }
    }
}

#[test]
fn invoke_keeps_exit_line_function_and_flags() {
    let instr = Instr::InvokeStatic {
        exit: Jump::new(Offset { value: 40 }),
        line: 0x1234,
        function: FunctionIndex::new(9).unwrap(),
        flags: 0xBEEF,
    };
    let bytes = encode(&instr);
    assert_eq!(bytes, vec![0x24, 37, 0, 0x34, 0x12, 9, 0, 0, 0, 0, 0, 0, 0, 0xEF, 0xBE]);
    assert_eq!(decode(&bytes), instr);
    let instr = Instr::InvokeVirtual {
        exit: Jump::new(Offset { value: 3 }),
        line: 1,
        function: CNameIndex::new(0),
        flags: 2,
    };
    let bytes = encode(&instr);
    assert_eq!(bytes, vec![0x25, 0, 0, 1, 0, 0, 0, 0, 0, 0, 0, 0, 0, 2, 0]);
    assert_eq!(decode(&bytes), instr);
}

#[test]
fn profile_takes_its_name_and_six_bytes() {
    let profile = Profile::new(vec![0xAA, 0xBB, 0xCC], true).unwrap();
    let instr: Instr = Instr::Profile(Box::new(profile));
    assert_eq!(instr.size(), 9);
    let bytes = encode(&instr);
    assert_eq!(bytes, vec![0x33, 3, 0, 0, 0, 0xAA, 0xBB, 0xCC, 1]);
    match decode(&bytes) {
        Instr::Profile(profile) => {
            assert_eq!(profile.function(), &vec![0xAA, 0xBB, 0xCC]);
            assert!(profile.enabled());
        },
        other => panic!("decoded {:?}", other),
    }
}

#[test]
fn empty_profile_takes_six_bytes() {
    let instr: Instr = Instr::Profile(Box::new(Profile::new(Vec::new(), false).unwrap()));
    assert_eq!(instr.size(), 6);
    assert_eq!(encode(&instr), vec![0x33, 0, 0, 0, 0, 0]);
}

#[test]
fn profile_name_is_bounded() {
    assert!(Profile::new(vec![0u8; 65529], true).is_some());
    assert!(Profile::new(vec![0u8; 65530], true).is_none());
    let longest: Instr = Instr::Profile(Box::new(Profile::new(vec![7u8; 65529], true).unwrap()));
    assert_eq!(longest.size(), 65535);
    assert_eq!(decode(&encode(&longest)), longest);
    let mut bytes = vec![0x33u8, 0xFA, 0xFF, 0, 0];
    bytes.extend(vec![0u8; 65531]);
    assert_eq!(
        Instr::read_at(&bytes, 0).unwrap_err(),
        Error::BadInput { err: "profile name too long" }
    );
}

#[test]
fn target_takes_no_room() {
    let instr = Instr::Target(Offset { value: 5 });
    assert_eq!(instr.size(), 0);
    let mut bytes = vec![0xEEu8; 2];
    assert_eq!(instr.write_at(&mut bytes, 1), Ok(1));
    assert_eq!(bytes, vec![0xEE, 0xEE]);
    assert_eq!(instr.write_at(&mut bytes, 2), Ok(2));
    assert_eq!(instr.write_at(&mut bytes, 3), Err(Error::BadOffset(3)));
}

#[test]
fn target_tag_is_not_decoded() {
    assert_eq!(
        Instr::read_at(&[0x17, 0, 0], 0).unwrap_err(),
        Error::BadInput { err: "unknown instruction tag" }
    );
}

#[test]
fn unknown_tag_is_refused() {
    for tag in [0x68u8, 0x69, 0x80, 0xFF] {
        assert_eq!(
            Instr::read_at(&[tag, 0, 0, 0, 0, 0, 0, 0, 0], 0).unwrap_err(),
            Error::BadInput { err: "unknown instruction tag" }
        );
    }
}

#[test]
fn zero_definition_index_is_refused() {
    assert_eq!(
        Instr::read_at(&[0x18, 0, 0, 0, 0, 0, 0, 0, 0], 0).unwrap_err(),
        Error::BadInput { err: "index must not be zero" }
    );
    assert!(TypeIndex::new(0).is_none());
}

#[test]
fn zero_string_index_is_accepted() {
    let instr = decode(&[0x0E, 0, 0, 0, 0, 0, 0, 0, 0]);
    assert_eq!(instr, Instr::CNameConst(CNameIndex::new(0)));
}

#[test]
fn padding_of_an_index_is_not_looked_at() {
    let instr = decode(&[0x18, 5, 0, 0, 0, 1, 2, 3, 4]);
    assert_eq!(instr, Instr::Local(LocalIndex::new(5).unwrap()));
    assert_eq!(encode(&instr), vec![0x18, 5, 0, 0, 0, 0, 0, 0, 0]);
}

#[test]
fn truncated_operand_is_incomplete() {
    assert_eq!(Instr::read_at(&[0x06, 1, 2, 3], 0).unwrap_err(), Error::Incomplete);
    assert_eq!(Instr::read_at(&[0x18, 5, 0, 0, 0, 0, 0], 0).unwrap_err(), Error::Incomplete);
    assert_eq!(Instr::read_at(&[], 0).unwrap_err(), Error::Incomplete);
}

#[test]
fn reading_past_the_end_is_a_bad_offset() {
    assert_eq!(Instr::read_at(&[0x00], 2).unwrap_err(), Error::BadOffset(2));
    assert_eq!(Instr::read_at(&[0x00], 1).unwrap_err(), Error::Incomplete);
}

#[test]
fn writing_without_room_leaves_the_buffer() {
    let instr: Instr = Instr::I32Const(-2);
    let mut bytes = vec![0xEEu8; 4];
    assert_eq!(instr.write_at(&mut bytes, 0), Err(Error::Incomplete));
    assert_eq!(bytes, vec![0xEE; 4]);
    assert_eq!(instr.write_at(&mut bytes, 5), Err(Error::BadOffset(5)));
    assert_eq!(bytes, vec![0xEE; 4]);
}

#[test]
fn signed_constants_are_twos_complement() {
    assert_eq!(encode(&Instr::I8Const(-1)), vec![0x04, 0xFF]);
    assert_eq!(encode(&Instr::I8Const(i8::MIN)), vec![0x04, 0x80]);
    assert_eq!(encode(&Instr::I16Const(-2)), vec![0x05, 0xFE, 0xFF]);
    assert_eq!(encode(&Instr::I32Const(i32::MIN)), vec![0x06, 0, 0, 0, 0x80]);
    assert_eq!(encode(&Instr::I64Const(-1)), vec![0x07, 255, 255, 255, 255, 255, 255, 255, 255]);
    for value in [i64::MIN, -1, 0, 1, i64::MAX] {
        let instr: Instr = Instr::I64Const(value);
        assert_eq!(decode(&encode(&instr)), instr);
    }
    for value in [i8::MIN, -1, 0, 1, i8::MAX] {
        let instr: Instr = Instr::I8Const(value);
        assert_eq!(decode(&encode(&instr)), instr);
    }
}

#[test]
fn unsigned_constants_are_little_endian() {
    assert_eq!(encode(&Instr::U16Const(0x1234)), vec![0x09, 0x34, 0x12]);
    assert_eq!(encode(&Instr::U32Const(0x1234_5678)), vec![0x0A, 0x78, 0x56, 0x34, 0x12]);
    assert_eq!(
        encode(&Instr::U64Const(0x0102_0304_0506_0708)),
        vec![0x0B, 8, 7, 6, 5, 4, 3, 2, 1]
    );
    assert_eq!(decode(&[0x08, 0xFE]), Instr::U8Const(0xFE));
}

#[test]
fn float_constants_keep_their_bits() {
    let instr: Instr = Instr::F32Const(1.5f32.to_bits());
    let bytes = encode(&instr);
    assert_eq!(bytes, vec![0x0C, 0x00, 0x00, 0xC0, 0x3F]);
    assert_eq!(decode(&bytes), instr);
    let instr: Instr = Instr::F64Const(f64::NAN.to_bits());
    assert_eq!(decode(&encode(&instr)), instr);
}

#[test]
fn breakpoint_keeps_all_its_fields() {
    let breakpoint = Breakpoint {
        line: 0x0102,
        line_start: 0x0304_0506,
        col: 0x0708,
        length: 0x090A,
        enabled: true,
        padding: 0x1112_1314_1516_1718,
    };
    let instr: Instr = Instr::Breakpoint(Box::new(breakpoint));
    assert_eq!(instr.size(), 20);
    let bytes = encode(&instr);
    assert_eq!(
        bytes,
        vec![
            0x15, 0x02, 0x01, 0x06, 0x05, 0x04, 0x03, 0x08, 0x07, 0x0A, 0x09, 1, 0x18, 0x17, 0x16,
            0x15, 0x14, 0x13, 0x12, 0x11
        ]
    );
    assert_eq!(decode(&bytes), instr);
}

#[test]
fn a_flag_byte_other_than_zero_is_true() {
    let mut bytes =
        vec![0x15u8, 0, 0, 0, 0, 0, 0, 0, 0, 0, 0, 0xFF, 0, 0, 0, 0, 0, 0, 0, 0];
    match decode(&bytes) {
        Instr::Breakpoint(breakpoint) => assert!(breakpoint.enabled),
        other => panic!("decoded {:?}", other),
    }
    bytes[11] = 0;
    match decode(&bytes) {
        Instr::Breakpoint(breakpoint) => assert!(!breakpoint.enabled),
        other => panic!("decoded {:?}", other),
    }
}

fn samples() -> Vec<(Instr, u8, u16)> {
    let t = type_index(3);
    let class = ClassIndex::new(4).unwrap();
    let field = FieldIndex::new(5).unwrap();
    let jump = || Jump::new(Offset { value: 9 });
    vec![
        (Instr::Nop, 0x00, 0),
        (Instr::Null, 0x01, 0),
        (Instr::I32One, 0x02, 0),
        (Instr::I32Zero, 0x03, 0),
        (Instr::I8Const(1), 0x04, 1),
        (Instr::I16Const(1), 0x05, 2),
        (Instr::I32Const(1), 0x06, 4),
        (Instr::I64Const(1), 0x07, 8),
        (Instr::U8Const(1), 0x08, 1),
        (Instr::U16Const(1), 0x09, 2),
        (Instr::U32Const(1), 0x0A, 4),
        (Instr::U64Const(1), 0x0B, 8),
        (Instr::F32Const(1), 0x0C, 4),
        (Instr::F64Const(1), 0x0D, 8),
        (Instr::CNameConst(CNameIndex::new(1)), 0x0E, 8),
        (
            Instr::EnumConst {
                enum_: EnumIndex::new(1).unwrap(),
                value: EnumValueIndex::new(2).unwrap(),
            },
            0x0F,
            16,
        ),
        (Instr::StringConst(StringIndex::new(1)), 0x10, 4),
        (Instr::TweakDbIdConst(TweakDbIndex::new(1)), 0x11, 8),
        (Instr::ResourceConst(ResourceIndex::new(1)), 0x12, 8),
        (Instr::TrueConst, 0x13, 0),
        (Instr::FalseConst, 0x14, 0),
        (
            Instr::Breakpoint(Box::new(Breakpoint {
                line: 1,
                line_start: 2,
                col: 3,
                length: 4,
                enabled: false,
                padding: 0,
            })),
            0x15,
            19,
        ),
        (Instr::Assign, 0x16, 0),
        (Instr::Local(LocalIndex::new(1).unwrap()), 0x18, 8),
        (Instr::Param(ParameterIndex::new(1).unwrap()), 0x19, 8),
        (Instr::ObjectField(field), 0x1A, 8),
        (Instr::ExternalVar, 0x1B, 0),
        (Instr::Switch(Switch::new(t, Offset { value: 20 })), 0x1C, 10),
        (Instr::SwitchLabel(SwitchLabel::new(Offset { value: 8 }, Offset { value: 9 })), 0x1D, 4),
        (Instr::SwitchDefault, 0x1E, 0),
        (Instr::Jump(jump()), 0x1F, 2),
        (Instr::JumpIfFalse(jump()), 0x20, 2),
        (Instr::Skip(jump()), 0x21, 2),
        (Instr::Conditional(Conditional::new(Offset { value: 8 }, Offset { value: 9 })), 0x22, 4),
        (Instr::Construct { arg_count: 2, type_: t }, 0x23, 9),
        (
            Instr::InvokeStatic {
                exit: jump(),
                line: 1,
                function: FunctionIndex::new(1).unwrap(),
                flags: 0,
            },
            0x24,
            14,
        ),
        (
            Instr::InvokeVirtual { exit: jump(), line: 1, function: CNameIndex::new(1), flags: 0 },
            0x25,
            14,
        ),
        (Instr::ParamEnd, 0x26, 0),
        (Instr::Return, 0x27, 0),
        (Instr::StructField(field), 0x28, 8),
        (Instr::Context(jump()), 0x29, 2),
        (Instr::Equals(t), 0x2A, 8),
        (Instr::RefStringEqualsString(t), 0x2B, 8),
        (Instr::StringEqualsRefString(t), 0x2C, 8),
        (Instr::NotEquals(t), 0x2D, 8),
        (Instr::RefStringNotEqualsString(t), 0x2E, 8),
        (Instr::StringNotEqualsRefString(t), 0x2F, 8),
        (Instr::New(class), 0x30, 8),
        (Instr::Delete, 0x31, 0),
        (Instr::This, 0x32, 0),
        (Instr::ArrayClear(t), 0x34, 8),
        (Instr::ArraySize(t), 0x35, 8),
        (Instr::ArrayResize(t), 0x36, 8),
        (Instr::ArrayFindFirst(t), 0x37, 8),
        (Instr::ArrayFindFirstFast(t), 0x38, 8),
        (Instr::ArrayFindLast(t), 0x39, 8),
        (Instr::ArrayFindLastFast(t), 0x3A, 8),
        (Instr::ArrayContains(t), 0x3B, 8),
        (Instr::ArrayContainsFast(t), 0x3C, 8),
        (Instr::ArrayCount(t), 0x3D, 8),
        (Instr::ArrayCountFast(t), 0x3E, 8),
        (Instr::ArrayPush(t), 0x3F, 8),
        (Instr::ArrayPop(t), 0x40, 8),
        (Instr::ArrayInsert(t), 0x41, 8),
        (Instr::ArrayRemove(t), 0x42, 8),
        (Instr::ArrayRemoveFast(t), 0x43, 8),
        (Instr::ArrayGrow(t), 0x44, 8),
        (Instr::ArrayErase(t), 0x45, 8),
        (Instr::ArrayEraseFast(t), 0x46, 8),
        (Instr::ArrayLast(t), 0x47, 8),
        (Instr::ArrayElement(t), 0x48, 8),
        (Instr::ArraySort(t), 0x49, 8),
        (Instr::ArraySortByPredicate(t), 0x4A, 8),
        (Instr::StaticArraySize(t), 0x4B, 8),
        (Instr::StaticArrayFindFirst(t), 0x4C, 8),
        (Instr::StaticArrayFindFirstFast(t), 0x4D, 8),
        (Instr::StaticArrayFindLast(t), 0x4E, 8),
        (Instr::StaticArrayFindLastFast(t), 0x4F, 8),
        (Instr::StaticArrayContains(t), 0x50, 8),
        (Instr::StaticArrayContainsFast(t), 0x51, 8),
        (Instr::StaticArrayCount(t), 0x52, 8),
        (Instr::StaticArrayCountFast(t), 0x53, 8),
        (Instr::StaticArrayLast(t), 0x54, 8),
        (Instr::StaticArrayElement(t), 0x55, 8),
        (Instr::RefToBool, 0x56, 0),
        (Instr::WeakRefToBool, 0x57, 0),
        (Instr::EnumToI32 { enum_type: t, size: 4 }, 0x58, 9),
        (Instr::I32ToEnum { enum_type: t, size: 4 }, 0x59, 9),
        (Instr::DynamicCast { class, flags: 1 }, 0x5A, 9),
        (Instr::ToString(t), 0x5B, 8),
        (Instr::ToVariant(t), 0x5C, 8),
        (Instr::FromVariant(t), 0x5D, 8),
        (Instr::VariantIsDefined, 0x5E, 0),
        (Instr::VariantIsRef, 0x5F, 0),
        (Instr::VariantIsArray, 0x60, 0),
        (Instr::VariantTypeName, 0x61, 0),
        (Instr::VariantToString, 0x62, 0),
        (Instr::WeakRefToRef, 0x63, 0),
        (Instr::RefToWeakRef, 0x64, 0),
        (Instr::WeakRefNull, 0x65, 0),
        (Instr::AsRef(t), 0x66, 8),
        (Instr::Deref(t), 0x67, 8),
    ]
}

#[test]
fn every_instruction_has_its_tag_and_size() {
    let samples = samples();
    assert_eq!(samples.len(), 0x68 - 2);
    for (instr, tag, operand_size) in samples {
        assert_eq!(instr.tag(), tag, "{:?}", instr);
        assert_eq!(instr.size(), 1 + operand_size, "{:?}", instr);
        let bytes = encode(&instr);
        assert_eq!(bytes.len(), 1 + operand_size as usize, "{:?}", instr);
        assert_eq!(bytes[0], tag, "{:?}", instr);
    }
}

#[test]
fn every_instruction_is_decoded_to_itself() {
    for (instr, _, _) in samples() {
        let bytes = encode(&instr);
        assert_eq!(decode(&bytes), instr);
    }
}

#[test]
fn every_instruction_is_refused_when_cut_short() {
    for (instr, _, operand_size) in samples() {
        if operand_size > 0 {
            let bytes = encode(&instr);
            assert_eq!(
                Instr::read_at(&bytes[..bytes.len() - 1], 0).unwrap_err(),
                Error::Incomplete,
                "{:?}",
                instr
            );
        }
    }
}

#[test]
fn offsets_convert_to_and_from_numbers() {
    let offset = Offset::from(-7i16);
    assert_eq!(offset.value, -7);
    assert_eq!(i16::from(offset), -7);
    assert_eq!(offset + 10, Offset { value: 3 });
    assert_eq!(offset - 3, Offset { value: -10 });
    assert!(Offset { value: 1 } < Offset { value: 2 });
}

#[test]
fn errors_have_their_messages() {
    assert_eq!(Error::Incomplete.message(), "incomplete input");
    assert_eq!(Error::BadOffset(3).message(), "offset past the end of the buffer");
    assert_eq!(Error::BadInput { err: "unknown instruction tag" }.message(), "unknown instruction tag");
    assert!(Error::BadInput { err: "x" }.is_bad_input());
    assert!(!Error::Incomplete.is_bad_input());
}

#[test]
fn targets_that_do_not_fit_are_refused_by_the_checked_forms() {
    assert!(Jump::checked_new(Offset { value: i16::MIN + 2 }).is_none());
    let lowest = Jump::checked_new(Offset { value: i16::MIN + 3 }).unwrap();
    assert_eq!(lowest.checked_target(), Some(Offset { value: i16::MIN + 3 }));
    assert_eq!(encode(&Instr::Jump(lowest)), vec![0x1F, 0x00, 0x80]);
    // stored 0x7FFF: the target would be three above what 16 bits can hold
    match decode(&[0x1F, 0xFF, 0x7F]) {
        Instr::Jump(jump) => assert_eq!(jump.checked_target(), None),
        other => panic!("decoded {:?}", other),
    }
    match decode(&[0x1F, 0xFC, 0x7F]) {
        Instr::Jump(jump) => assert_eq!(jump.checked_target(), Some(Offset { value: i16::MAX })),
        other => panic!("decoded {:?}", other),
    }
    assert!(Conditional::checked_new(Offset { value: i16::MIN }, Offset { value: 0 }).is_none());
    assert!(Conditional::checked_new(Offset { value: 0 }, Offset { value: i16::MIN + 4 }).is_none());
    let conditional =
        Conditional::checked_new(Offset { value: i16::MIN + 3 }, Offset { value: i16::MIN + 5 })
            .unwrap();
    assert_eq!(conditional.checked_false_label(), Some(Offset { value: i16::MIN + 3 }));
    assert_eq!(conditional.checked_exit(), Some(Offset { value: i16::MIN + 5 }));
    match decode(&[0x22, 0xFD, 0x7F, 0xFB, 0x7F]) {
        Instr::Conditional(conditional) => {
            assert_eq!(conditional.checked_false_label(), None);
            assert_eq!(conditional.checked_exit(), None);
        },
        other => panic!("decoded {:?}", other),
    }
    assert!(Switch::checked_new(type_index(1), Offset { value: i16::MIN + 10 }).is_none());
    let switch = Switch::checked_new(type_index(1), Offset { value: i16::MIN + 11 }).unwrap();
    assert_eq!(switch.checked_first_case(), Some(Offset { value: i16::MIN + 11 }));
    match decode(&[0x1C, 1, 0, 0, 0, 0, 0, 0, 0, 0xF5, 0x7F]) {
        Instr::Switch(switch) => assert_eq!(switch.checked_first_case(), None),
        other => panic!("decoded {:?}", other),
    }
    assert!(SwitchLabel::checked_new(Offset { value: i16::MIN + 2 }, Offset { value: 9 }).is_none());
    let label = SwitchLabel::checked_new(Offset { value: 3 }, Offset { value: 5 }).unwrap();
    assert_eq!(label.checked_next_case(), Some(Offset { value: 3 }));
    assert_eq!(label.checked_body(), Some(Offset { value: 5 }));
    assert_eq!(encode(&Instr::SwitchLabel(label)), vec![0x1D, 0, 0, 0, 0]);
    match decode(&[0x1D, 0xFF, 0x7F, 0xFF, 0x7F]) {
        Instr::SwitchLabel(label) => {
            assert_eq!(label.checked_next_case(), None);
            assert_eq!(label.checked_body(), None);
        },
        other => panic!("decoded {:?}", other),
    }
}
