use script_bundle::definition::DefinitionHeader;
use script_bundle::TableHeader;
use script_bundle::{
    CNameIndex, Class, ClassFlags, ClassIndex, Definition, Enum, EnumIndex, EnumMember,
    EnumValueIndex, Error, Field, FieldFlags, FieldIndex, Function, FunctionBody, FunctionFlags,
    FunctionIndex, Instr, Local, LocalFlags, Parameter, ParameterFlags, Property, SourceFile,
    SourceFileIndex, SourceReference, Timestamp, Type, TypeIndex, TypeKind, Visibility,
};

fn payload(definition: &Definition) -> Vec<u8> {
    let size = definition.measure().unwrap() as usize;
    let mut bytes = vec![0u8; size];
    assert_eq!(definition.write_at(&mut bytes, 0), Ok(size));
    bytes
}

fn read(definition: &Definition, bytes: &[u8]) -> Definition {
    let header = DefinitionHeader::from_definition(definition, bytes.len() as u32, 0);
    let (decoded, end) = Definition::read_payload(bytes, &header).unwrap();
    assert_eq!(end, bytes.len());
    decoded
}

fn header(kind: u8, parent: u32) -> DefinitionHeader {
    DefinitionHeader { name: CNameIndex::new(1), parent, size: 0, offset: 0, kind }
}

fn t(value: u32) -> TypeIndex {
    TypeIndex::new(value).unwrap()
}

fn empty_function(flags: u32) -> Function {
    Function {
        name: CNameIndex::new(1),
        class: None,
        visibility: Visibility::Public,
        flags: FunctionFlags::new(flags),
        source: None,
        return_type: None,
        base_method: None,
        parameters: Vec::new(),
        locals: Vec::new(),
        operator: None,
        cast: None,
        body: FunctionBody { code: Vec::new() },
    }
}

#[test]
fn parameter_is_a_type_and_a_flag_byte() {
    let definition = Definition::Parameter(Parameter {
        name: CNameIndex::new(3),
        function: FunctionIndex::new(2).unwrap(),
        type_: t(0x0102_0304),
        flags: ParameterFlags::new(0x0A),
    });
    let bytes = payload(&definition);
    assert_eq!(bytes, vec![4, 3, 2, 1, 0x0A]);
    assert_eq!(read(&definition, &bytes), definition);
    let header = DefinitionHeader::from_definition(&definition, 5, 200);
    assert_eq!(
        header,
        DefinitionHeader { name: CNameIndex::new(3), parent: 2, size: 5, offset: 200, kind: 6 }
    );
}

#[test]
fn local_is_a_type_and_a_flag_byte() {
    let definition = Definition::Local(Local {
        name: CNameIndex::new(3),
        function: FunctionIndex::new(2).unwrap(),
        type_: t(9),
        flags: LocalFlags::new(1),
    });
    let bytes = payload(&definition);
    assert_eq!(bytes, vec![9, 0, 0, 0, 1]);
    assert_eq!(read(&definition, &bytes), definition);
    assert_eq!(DefinitionHeader::from_definition(&definition, 5, 0).kind, 7);
}

#[test]
fn enum_member_is_its_value() {
    let definition = Definition::EnumMember(EnumMember {
        name: CNameIndex::new(1),
        enum_: EnumIndex::new(4).unwrap(),
        value: -2,
    });
    let bytes = payload(&definition);
    assert_eq!(bytes, vec![0xFE, 0xFF, 0xFF, 0xFF, 0xFF, 0xFF, 0xFF, 0xFF]);
    assert_eq!(read(&definition, &bytes), definition);
    let header = DefinitionHeader::from_definition(&definition, 8, 0);
    assert_eq!(header.kind, 2);
    assert_eq!(header.parent, 4);
}

#[test]
fn enum_is_flags_size_members_and_a_switch() {
    let definition = Definition::Enum(Enum {
        name: CNameIndex::new(1),
        flags: 3,
        size: 2,
        members: vec![EnumValueIndex::new(5).unwrap(), EnumValueIndex::new(6).unwrap()],
        is_native: true,
    });
    let bytes = payload(&definition);
    assert_eq!(bytes, vec![3, 2, 2, 0, 0, 0, 5, 0, 0, 0, 6, 0, 0, 0, 1]);
    assert_eq!(read(&definition, &bytes), definition);
    assert_eq!(DefinitionHeader::from_definition(&definition, 15, 0).kind, 3);
}

#[test]
fn types_are_a_kind_and_what_they_are_built_from() {
    let cases: Vec<(TypeKind, Vec<u8>)> = vec![
        (TypeKind::Primitive, vec![0]),
        (TypeKind::Class, vec![1]),
        (TypeKind::Ref(t(7)), vec![2, 7, 0, 0, 0]),
        (TypeKind::WeakRef(t(7)), vec![3, 7, 0, 0, 0]),
        (TypeKind::Array(t(7)), vec![4, 7, 0, 0, 0]),
        (TypeKind::StaticArray { element_type: t(7), size: 0x100 }, vec![5, 7, 0, 0, 0, 0, 1, 0, 0]),
        (TypeKind::ScriptRef(t(7)), vec![6, 7, 0, 0, 0]),
    ];
    for (kind, expected) in cases {
        let definition = Definition::Type(Type { name: CNameIndex::new(1), kind });
        let bytes = payload(&definition);
        assert_eq!(bytes, expected);
        assert_eq!(read(&definition, &bytes), definition);
        assert_eq!(DefinitionHeader::from_definition(&definition, 1, 0).kind, 0);
    }
}

#[test]
fn class_writes_the_lists_that_its_flags_announce() {
    let definition = Definition::Class(Class {
        name: CNameIndex::new(1),
        visibility: Visibility::Protected,
        flags: ClassFlags::new(0x0110),
        base: ClassIndex::new(9),
        functions: vec![FunctionIndex::new(2).unwrap()],
        fields: Vec::new(),
        overrides: vec![FieldIndex::new(3).unwrap(), FieldIndex::new(4).unwrap()],
    });
    let bytes = payload(&definition);
    assert_eq!(
        bytes,
        vec![
            1, 0x10, 0x01, 9, 0, 0, 0, 1, 0, 0, 0, 2, 0, 0, 0, 2, 0, 0, 0, 3, 0, 0, 0, 4, 0, 0, 0
        ]
    );
    assert_eq!(read(&definition, &bytes), definition);
    let bare = Definition::Class(Class {
        name: CNameIndex::new(1),
        visibility: Visibility::Public,
        flags: ClassFlags::new(0),
        base: None,
        functions: Vec::new(),
        fields: Vec::new(),
        overrides: Vec::new(),
    });
    assert_eq!(payload(&bare), vec![0, 0, 0, 0, 0, 0, 0]);
    assert_eq!(read(&bare, &payload(&bare)), bare);
}

#[test]
fn a_list_that_is_announced_may_be_empty() {
    let definition = Definition::Class(Class {
        name: CNameIndex::new(1),
        visibility: Visibility::Public,
        flags: ClassFlags::new(0x20),
        base: None,
        functions: Vec::new(),
        fields: Vec::new(),
        overrides: Vec::new(),
    });
    let bytes = payload(&definition);
    assert_eq!(bytes, vec![0, 0x20, 0, 0, 0, 0, 0, 0, 0, 0, 0]);
    assert_eq!(read(&definition, &bytes), definition);
}

#[test]
fn function_writes_the_parts_that_its_flags_announce() {
    let native = Definition::Function(empty_function(0x10));
    assert_eq!(payload(&native), vec![0, 0x10, 0, 0, 0]);
    assert_eq!(read(&native, &payload(&native)), native);

    let mut with_source = empty_function(0);
    with_source.source =
        Some(SourceReference { file: SourceFileIndex::new(2).unwrap(), line: 0x0A0B });
    let with_source = Definition::Function(with_source);
    assert_eq!(payload(&with_source), vec![0, 0, 0, 0, 0, 2, 0, 0, 0, 0x0B, 0x0A, 0, 0]);
    assert_eq!(read(&with_source, &payload(&with_source)), with_source);

    let mut full = empty_function(0x10 | 0x80 | 0x100 | 0x200 | 0x1000 | 0x2000);
    full.class = ClassIndex::new(5);
    full.visibility = Visibility::Private;
    full.return_type = TypeIndex::new(3);
    full.base_method = FunctionIndex::new(4);
    full.operator = Some(6);
    full.cast = Some(7);
    full.body = FunctionBody { code: vec![Instr::Nop, Instr::U8Const(9), Instr::Return] };
    let full = Definition::Function(full);
    assert_eq!(
        payload(&full),
        vec![
            2, 0x90, 0x33, 0, 0, 3, 0, 0, 0, 4, 0, 0, 0, 6, 0, 0, 0, 7, 4, 0, 0, 0, 0x00, 0x08, 9,
            0x27
        ]
    );
    assert_eq!(read(&full, &payload(&full)), full);
    let header = DefinitionHeader::from_definition(&full, 26, 0);
    assert_eq!(header.kind, 5);
    assert_eq!(header.parent, 5);
}

#[test]
fn field_writes_its_hint_where_its_flags_announce_one() {
    let definition = Definition::Field(Field {
        name: CNameIndex::new(1),
        class: ClassIndex::new(2).unwrap(),
        visibility: Visibility::Public,
        type_: t(3),
        flags: FieldFlags::new(0x20),
        hint: String::from("hé"),
        attributes: vec![Property { name: String::from("a"), value: String::from("bc") }],
        defaults: Vec::new(),
    });
    let bytes = payload(&definition);
    assert_eq!(
        bytes,
        vec![
            0, 3, 0, 0, 0, 0x20, 0, 3, 0, b'h', 0xC3, 0xA9, 1, 0, 0, 0, 1, 0, b'a', 2, 0, b'b',
            b'c', 0, 0, 0, 0
        ]
    );
    assert_eq!(read(&definition, &bytes), definition);
    let plain = Definition::Field(Field {
        name: CNameIndex::new(1),
        class: ClassIndex::new(2).unwrap(),
        visibility: Visibility::Public,
        type_: t(3),
        flags: FieldFlags::new(0),
        hint: String::new(),
        attributes: Vec::new(),
        defaults: Vec::new(),
    });
    assert_eq!(payload(&plain), vec![0, 3, 0, 0, 0, 0, 0, 0, 0, 0, 0, 0, 0, 0, 0]);
    assert_eq!(read(&plain, &payload(&plain)), plain);
    assert_eq!(DefinitionHeader::from_definition(&plain, 15, 0).kind, 8);
}

#[test]
fn source_file_is_id_hash_and_path() {
    let definition = Definition::SourceFile(SourceFile {
        id: 1,
        path_hash: 0x0102_0304_0506_0708,
        path: String::from("a/b"),
    });
    let bytes = payload(&definition);
    assert_eq!(bytes, vec![1, 0, 0, 0, 8, 7, 6, 5, 4, 3, 2, 1, 3, 0, b'a', b'/', b'b']);
    assert_eq!(read(&definition, &bytes), definition);
    let header = DefinitionHeader::from_definition(&definition, 17, 0);
    assert_eq!(header.kind, 9);
    assert_eq!(header.name, CNameIndex::new(0));
    assert_eq!(header.parent, 0);
}

#[test]
fn undefined_has_no_payload_and_a_header_of_zeros() {
    assert_eq!(Definition::Undefined.measure(), Some(0));
    assert_eq!(payload(&Definition::Undefined), Vec::<u8>::new());
    assert_eq!(
        DefinitionHeader::from_definition(&Definition::Undefined, 7, 9),
        DefinitionHeader { name: CNameIndex::new(0), parent: 0, size: 0, offset: 0, kind: 0 }
    );
}

#[test]
fn an_unknown_kind_is_refused() {
    for kind in [4u8, 10, 11, 0xFF] {
        assert_eq!(
            Definition::read_payload(&[0u8; 64], &header(kind, 1)).unwrap_err(),
            Error::BadInput { err: "unknown definition kind" }
        );
    }
}

#[test]
fn a_parent_of_zero_is_refused_where_a_parent_is_needed() {
    for kind in [2u8, 6, 7, 8] {
        assert_eq!(
            Definition::read_payload(&[0u8; 64], &header(kind, 0)).unwrap_err(),
            Error::BadInput { err: "index must not be zero" }
        );
    }
    let (function, _) = Definition::read_payload(&[0, 0x10, 0, 0, 0], &header(5, 0)).unwrap();
    assert_eq!(function, Definition::Function(empty_function(0x10)));
}

#[test]
fn an_unknown_type_kind_is_refused() {
    assert_eq!(
        Definition::read_payload(&[7, 1, 0, 0, 0], &header(0, 0)).unwrap_err(),
        Error::BadInput { err: "unknown type kind" }
    );
    assert_eq!(
        Definition::read_payload(&[2, 0, 0, 0, 0], &header(0, 0)).unwrap_err(),
        Error::BadInput { err: "index must not be zero" }
    );
}

#[test]
fn an_unknown_visibility_is_refused() {
    assert_eq!(
        Definition::read_payload(&[3, 0, 0, 0, 0, 0, 0], &header(1, 0)).unwrap_err(),
        Error::BadInput { err: "unknown visibility" }
    );
}

#[test]
fn a_payload_behind_the_buffer_is_a_bad_offset() {
    let mut h = header(0, 0);
    h.offset = 10;
    assert_eq!(Definition::read_payload(&[0u8; 4], &h).unwrap_err(), Error::BadOffset(10));
    h.offset = 4;
    assert_eq!(Definition::read_payload(&[0u8; 4], &h).unwrap_err(), Error::Incomplete);
}

#[test]
fn code_has_to_end_where_its_size_says() {
    // a native function with a body of two bytes that holds an instruction of three
    let bytes = [0u8, 0x10, 0x10, 0, 0, 2, 0, 0, 0, 0x05, 1, 0];
    assert_eq!(
        Definition::read_payload(&bytes, &header(5, 0)).unwrap_err(),
        Error::BadInput { err: "instruction runs past the end of the code" }
    );
    let bytes = [0u8, 0x10, 0x10, 0, 0, 3, 0, 0, 0, 0x05, 1, 0];
    let (definition, end) = Definition::read_payload(&bytes, &header(5, 0)).unwrap();
    assert_eq!(end, 12);
    match definition {
        Definition::Function(function) => {
            assert_eq!(function.body.code, vec![Instr::I16Const(1)]);
        },
        other => panic!("decoded {:?}", other),
    }
    let bytes = [0u8, 0x10, 0x10, 0, 0, 9, 0, 0, 0, 0x05, 1, 0];
    assert_eq!(Definition::read_payload(&bytes, &header(5, 0)).unwrap_err(), Error::Incomplete);
    let bytes = [0u8, 0x10, 0x10, 0, 0, 1, 0, 0, 0, 0x77];
    assert_eq!(
        Definition::read_payload(&bytes, &header(5, 0)).unwrap_err(),
        Error::BadInput { err: "unknown instruction tag" }
    );
}

#[test]
fn a_place_marker_in_a_body_takes_no_room() {
    let mut function = empty_function(0x10 | 0x1000);
    function.body = FunctionBody {
        code: vec![Instr::Nop, Instr::Target(script_bundle::Offset { value: 1 }), Instr::Return],
    };
    let definition = Definition::Function(function);
    assert_eq!(payload(&definition), vec![0, 0x10, 0x10, 0, 0, 2, 0, 0, 0, 0x00, 0x27]);
}

#[test]
fn text_longer_than_16_bits_can_say_is_refused() {
    let definition =
        Definition::SourceFile(SourceFile { id: 0, path_hash: 0, path: "x".repeat(65536) });
    assert_eq!(definition.measure(), None);
    let mut bytes = vec![0xEEu8; 70000];
    assert_eq!(
        definition.write_at(&mut bytes, 0),
        Err(Error::BadInput { err: "definition does not fit the format" })
    );
    assert!(bytes.iter().all(|b| *b == 0xEE));
    let definition =
        Definition::SourceFile(SourceFile { id: 0, path_hash: 0, path: "x".repeat(65535) });
    assert_eq!(definition.measure(), Some(4 + 8 + 2 + 65535));
}

#[test]
fn text_that_is_not_utf8_is_refused() {
    let bytes = [1u8, 0, 0, 0, 0, 0, 0, 0, 0, 0, 0, 0, 2, 0, 0xC3, 0x28];
    assert_eq!(
        Definition::read_payload(&bytes, &header(9, 0)).unwrap_err(),
        Error::BadInput { err: "UTF8 Error" }
    );
}

#[test]
fn a_payload_is_refused_without_room() {
    let definition = Definition::EnumMember(EnumMember {
        name: CNameIndex::new(1),
        enum_: EnumIndex::new(4).unwrap(),
        value: 1,
    });
    let mut bytes = vec![0xEEu8; 7];
    assert_eq!(definition.write_at(&mut bytes, 0), Err(Error::Incomplete));
    assert_eq!(definition.write_at(&mut bytes, 8), Err(Error::BadOffset(8)));
    assert_eq!(bytes, vec![0xEEu8; 7]);
}

#[test]
fn flag_words_answer_for_their_bits() {
    let flags = ClassFlags::new(0x1 | 0x8 | 0x100);
    assert!(flags.is_native());
    assert!(!flags.is_abstract());
    assert!(!flags.is_final());
    assert!(flags.is_struct());
    assert!(!flags.has_functions());
    assert!(!flags.has_fields());
    assert!(flags.has_overrides());
    let flags = flags.with(0x10, true).with(0x1, false);
    assert_eq!(flags.bits, 0x8 | 0x100 | 0x10);
    let flags = FunctionFlags::new(0x10 | 0x1000 | 0x100000);
    assert!(flags.is_native());
    assert!(flags.has_body());
    assert!(flags.is_quest());
    assert!(!flags.is_static());
    assert!(!flags.has_return_value());
    let flags = FieldFlags::new(0x20 | 0x400);
    assert!(flags.has_hint());
    assert!(flags.is_browsable());
    assert!(!flags.is_native());
    let flags = ParameterFlags::new(0x1 | 0x2);
    assert!(flags.is_optional());
    assert!(flags.is_out());
    assert!(!flags.is_const());
    assert!(LocalFlags::new(1).is_const());
    assert!(!LocalFlags::new(2).is_const());
}

#[test]
fn a_timestamp_is_unpacked() {
    let bits = (27u64 << 10)
        | (11u64 << 15)
        | (2023u64 << 20)
        | (999u64 << 32)
        | (58u64 << 42)
        | (59u64 << 48)
        | (23u64 << 54);
    let stamp = Timestamp { bits };
    assert_eq!(stamp.day(), 27);
    assert_eq!(stamp.month(), 11);
    assert_eq!(stamp.year(), 2023);
    assert_eq!(stamp.millis(), 999);
    assert_eq!(stamp.seconds(), 58);
    assert_eq!(stamp.minutes(), 59);
    assert_eq!(stamp.hours(), 23);
    assert_eq!(Timestamp::new().bits, 0);
    let all = Timestamp { bits: u64::MAX };
    assert_eq!(all.day(), 31);
    assert_eq!(all.year(), 4095);
    assert_eq!(all.millis(), 1023);
    assert_eq!(all.hours(), 63);
}

#[test]
fn a_timestamp_is_packed() {
    let stamp = Timestamp::pack(2023, 11, 27, 23, 59, 58, 999);
    let bits = (27u64 << 10)
        | (11u64 << 15)
        | (2023u64 << 20)
        | (999u64 << 32)
        | (58u64 << 42)
        | (59u64 << 48)
        | (23u64 << 54);
    assert_eq!(stamp.bits, bits);
    assert_eq!(stamp.year(), 2023);
    assert_eq!(stamp.month(), 11);
    assert_eq!(stamp.day(), 27);
    assert_eq!(stamp.hours(), 23);
    assert_eq!(stamp.minutes(), 59);
    assert_eq!(stamp.seconds(), 58);
    assert_eq!(stamp.millis(), 999);
    assert_eq!(Timestamp::pack(0, 0, 0, 0, 0, 0, 0), Timestamp::new());
    assert_eq!(Timestamp::pack(4095, 31, 31, 63, 63, 63, 1023).bits, 0x0FFF_FFFF_FFFF_FC00);
}

#[test]
fn a_table_header_holds_the_checksum_of_its_bytes() {
    let table = TableHeader::new(104, 3, b"123456789");
    assert_eq!(table, TableHeader { offset: 104, count: 3, hash: 0xCBF4_3926 });
    assert_eq!(TableHeader::new(0, 0, b"").hash, 0);
}
