use script_bundle::{
    BundleReader, CNameIndex, Class, ClassFlags, ClassIndex, Definition, Enum, EnumIndex,
    EnumMember, EnumValueIndex, Error, Field, FieldFlags, FieldIndex, Function, FunctionBody,
    FunctionFlags, FunctionIndex, Instr, Jump, Local, LocalFlags, LocalIndex, Offset, Parameter,
    ParameterFlags, ParameterIndex, Profile, Property, ScriptBundle, SourceFile, SourceFileIndex,
    SourceReference, Type, TypeIndex, TypeKind, Visibility,
};

fn u32_at(bytes: &[u8], at: usize) -> u32 {
    u32::from_le_bytes([bytes[at], bytes[at + 1], bytes[at + 2], bytes[at + 3]])
}

fn write(bundle: ScriptBundle) -> Vec<u8> {
    bundle.into_writeable().to_bytes().unwrap()
}

fn sample_function() -> Function {
    Function {
        name: CNameIndex::new(2),
        class: ClassIndex::new(2),
        visibility: Visibility::Protected,
        flags: FunctionFlags::new(0x1 | 0x80 | 0x100 | 0x200 | 0x400 | 0x800 | 0x1000 | 0x2000),
        source: Some(SourceReference { file: SourceFileIndex::new(9).unwrap(), line: 42 }),
        return_type: TypeIndex::new(1),
        base_method: FunctionIndex::new(5),
        parameters: vec![ParameterIndex::new(6).unwrap()],
        locals: vec![LocalIndex::new(7).unwrap(), LocalIndex::new(7).unwrap()],
        operator: Some(3),
        cast: Some(1),
        body: FunctionBody {
            code: vec![
                Instr::Local(LocalIndex::new(7).unwrap()),
                Instr::JumpIfFalse(Jump::new(Offset { value: 12 })),
                Instr::Profile(Box::new(Profile::new(b"tick".to_vec(), true).unwrap())),
                Instr::I32Const(-5),
                Instr::Return,
            ],
        },
    }
}

fn native_function() -> Function {
    Function {
        name: CNameIndex::new(1),
        class: None,
        visibility: Visibility::Public,
        flags: FunctionFlags::new(0x10),
        source: None,
        return_type: None,
        base_method: None,
        parameters: Vec::new(),
        locals: Vec::new(),
        operator: None,
        cast: None,
        body: FunctionBody { code: Vec::new() },
    }
}

fn sample_bundle() -> ScriptBundle {
    let mut bundle = ScriptBundle::new();
    for name in ["None", "Int32", "Vector", "Length", "x"] {
        bundle.cnames_mut().add(name);
    }
    bundle.tdb_ids_mut().add("Items.Sword");
    bundle.resources_mut().add("base\\mesh.ent");
    bundle.resources_mut().add("Vector");
    bundle.strings_mut().add("hello, world");
    bundle.strings_mut().add("");
    bundle.strings_mut().add("zażółć");
    bundle.define(Type { name: CNameIndex::new(1), kind: TypeKind::Primitive });
    bundle.define(Class {
        name: CNameIndex::new(2),
        visibility: Visibility::Public,
        flags: ClassFlags::new(0x8 | 0x10 | 0x20),
        base: None,
        functions: vec![FunctionIndex::new(3).unwrap()],
        fields: vec![FieldIndex::new(4).unwrap()],
        overrides: Vec::new(),
    });
    bundle.define(sample_function());
    bundle.define(Field {
        name: CNameIndex::new(4),
        class: ClassIndex::new(2).unwrap(),
        visibility: Visibility::Private,
        type_: TypeIndex::new(1).unwrap(),
        flags: FieldFlags::new(0x20 | 0x2),
        hint: String::from("a hint"),
        attributes: vec![Property { name: String::from("min"), value: String::from("0") }],
        defaults: vec![
            Property { name: String::from("x"), value: String::from("1") },
            Property { name: String::from("y"), value: String::new() },
        ],
    });
    bundle.define(native_function());
    bundle.define(Parameter {
        name: CNameIndex::new(4),
        function: FunctionIndex::new(3).unwrap(),
        type_: TypeIndex::new(1).unwrap(),
        flags: ParameterFlags::new(0x2),
    });
    bundle.define(Local {
        name: CNameIndex::new(4),
        function: FunctionIndex::new(3).unwrap(),
        type_: TypeIndex::new(1).unwrap(),
        flags: LocalFlags::new(0x1),
    });
    bundle.define(Enum {
        name: CNameIndex::new(3),
        flags: 1,
        size: 4,
        members: vec![EnumValueIndex::new(9).unwrap()],
        is_native: true,
    });
    bundle.define(EnumMember {
        name: CNameIndex::new(0),
        enum_: EnumIndex::new(8).unwrap(),
        value: -3,
    });
    bundle.define(SourceFile {
        id: 7,
        path_hash: 0x0123_4567_89AB_CDEF,
        path: String::from("scripts/main.script"),
    });
    bundle.define(Type {
        name: CNameIndex::new(0),
        kind: TypeKind::StaticArray { element_type: TypeIndex::new(1).unwrap(), size: 16 },
    });
    bundle.define(Type { name: CNameIndex::new(0), kind: TypeKind::Ref(TypeIndex::new(1).unwrap()) });
    bundle
}

fn pool_strings(bundle: &ScriptBundle) -> Vec<Vec<String>> {
    let mut all = Vec::new();
    let mut names = Vec::new();
    for i in 0..bundle.cnames().len() {
        names.push(bundle.cnames().get(CNameIndex::new(i as u32)).unwrap().to_string());
    }
    all.push(names);
    let mut ids = Vec::new();
    for i in 0..bundle.tdb_ids().len() {
        ids.push(bundle.tdb_ids().get(script_bundle::TweakDbIndex::new(i as u32)).unwrap().to_string());
    }
    all.push(ids);
    let mut resources = Vec::new();
    for i in 0..bundle.resources().len() {
        resources.push(
            bundle.resources().get(script_bundle::ResourceIndex::new(i as u32)).unwrap().to_string(),
        );
    }
    all.push(resources);
    let mut literals = Vec::new();
    for i in 0..bundle.strings().len() {
        literals.push(
            bundle.strings().get(script_bundle::StringIndex::new(i as u32)).unwrap().to_string(),
        );
    }
    all.push(literals);
    all
}

#[test]
fn minimum_bundle_round_trips() {
    let bytes = write(ScriptBundle::default());
    assert_eq!(bytes.len(), 124);
    assert_eq!(&bytes[0..4], b"REDS");
    let reader = BundleReader::new(&bytes).unwrap();
    let header = reader.header();
    assert_eq!(header.magic, 0x5245_4453);
    assert_eq!(header.version, 14);
    assert_eq!(header.flags, 0);
    assert_eq!(header.timestamp.bits, 0);
    assert_eq!(header.build, 0);
    assert_eq!(header.segments, 7);
    assert_eq!(header.string_data.offset, 104);
    assert_eq!(header.string_data.count, 0);
    assert_eq!(header.cnames.count, 0);
    assert_eq!(header.tweakdb_ids.count, 0);
    assert_eq!(header.resources.count, 0);
    assert_eq!(header.strings.count, 0);
    assert_eq!(header.definitions.count, 1);
    assert_eq!(header.definitions.offset, 104);
    assert_eq!(header.strings.offset, 124);
    assert_eq!(&bytes[104..124], &[0u8; 20]);
    let bundle = ScriptBundle::from_bytes(&bytes).unwrap();
    assert_eq!(bundle.definitions(), &vec![Definition::Undefined]);
    assert_eq!(pool_strings(&bundle), vec![Vec::<String>::new(); 4]);
    assert_eq!(write(bundle), bytes);
}

#[test]
fn header_fields_lie_where_the_format_says() {
    let bytes = write(ScriptBundle::default());
    assert_eq!(u32_at(&bytes, 4), 14);
    assert_eq!(u32_at(&bytes, 8), 0);
    assert_eq!(&bytes[12..20], &[0u8; 8]);
    assert_eq!(u32_at(&bytes, 20), 0);
    assert_eq!(u32_at(&bytes, 28), 7);
    assert_eq!(u32_at(&bytes, 32), 104);
    assert_eq!(u32_at(&bytes, 36), 0);
    assert_eq!(u32_at(&bytes, 80), 104);
    assert_eq!(u32_at(&bytes, 84), 1);
    assert_eq!(u32_at(&bytes, 92), 124);
}

#[test]
fn a_string_of_two_pools_is_written_once() {
    let mut bundle = ScriptBundle::new();
    bundle.cnames_mut().add("Foo");
    bundle.resources_mut().add("Foo");
    let bytes = write(bundle);
    let reader = BundleReader::new(&bytes).unwrap();
    let header = *reader.header();
    assert_eq!(header.string_data.offset, 104);
    assert_eq!(header.string_data.count, 4);
    assert_eq!(&bytes[104..108], b"Foo\0");
    assert_eq!(header.cnames.offset, 108);
    assert_eq!(header.cnames.count, 1);
    assert_eq!(header.tweakdb_ids.offset, 112);
    assert_eq!(header.tweakdb_ids.count, 0);
    assert_eq!(header.resources.offset, 112);
    assert_eq!(header.resources.count, 1);
    assert_eq!(u32_at(&bytes, 108), 0);
    assert_eq!(u32_at(&bytes, 112), 0);
    assert_eq!(header.definitions.offset, 116);
    assert_eq!(bytes.len(), 136);
    let count = bytes.windows(4).filter(|w| w == b"Foo\0").count();
    assert_eq!(count, 1);
}

#[test]
fn strings_get_their_offsets_in_order_of_first_occurrence() {
    let mut bundle = ScriptBundle::new();
    bundle.cnames_mut().add("ab");
    bundle.cnames_mut().add("c");
    bundle.tdb_ids_mut().add("c");
    bundle.tdb_ids_mut().add("defg");
    bundle.strings_mut().add("ab");
    bundle.strings_mut().add("");
    let bytes = write(bundle);
    assert_eq!(&bytes[104..115], b"ab\0c\0defg\0\0");
    let reader = BundleReader::new(&bytes).unwrap();
    let header = *reader.header();
    assert_eq!(header.string_data.count, 11);
    assert_eq!(header.cnames.offset, 115);
    assert_eq!(u32_at(&bytes, 115), 0);
    assert_eq!(u32_at(&bytes, 119), 3);
    assert_eq!(header.tweakdb_ids.offset, 123);
    assert_eq!(u32_at(&bytes, 123), 3);
    assert_eq!(u32_at(&bytes, 127), 5);
    let strings = header.strings.offset as usize;
    assert_eq!(u32_at(&bytes, strings), 0);
    assert_eq!(u32_at(&bytes, strings + 4), 10);
}

#[test]
fn a_full_bundle_round_trips() {
    let bundle = sample_bundle();
    let strings = pool_strings(&bundle);
    let definitions = bundle.definitions().clone();
    let bytes = write(bundle);
    let read = ScriptBundle::from_bytes(&bytes).unwrap();
    assert_eq!(pool_strings(&read), strings);
    assert_eq!(read.definitions(), &definitions);
    assert_eq!(read.definitions()[0], Definition::Undefined);
    assert_eq!(read.definitions()[3], Definition::Function(sample_function()));
    let again = write(read);
    assert_eq!(again, bytes);
}

#[test]
fn instructions_survive_the_round_trip() {
    let bytes = write(sample_bundle());
    let read = ScriptBundle::from_bytes(&bytes).unwrap();
    let function = read.get_item(FunctionIndex::new(3).unwrap()).unwrap();
    assert_eq!(function.body.code, sample_function().body.code);
    match &function.body.code[1] {
        Instr::JumpIfFalse(jump) => assert_eq!(jump.target(), Offset { value: 12 }),
        other => panic!("decoded {:?}", other),
    }
}

#[test]
fn checksums_are_those_of_the_parts() {
    let bytes = write(sample_bundle());
    let reader = BundleReader::new(&bytes).unwrap();
    let header = *reader.header();
    let part = |offset: u32, len: u32| &bytes[offset as usize..(offset + len) as usize];
    assert_eq!(
        header.string_data.hash,
        crc32fast::hash(part(header.string_data.offset, header.string_data.count))
    );
    assert_eq!(header.cnames.hash, crc32fast::hash(part(header.cnames.offset, 4 * 5)));
    assert_eq!(header.cnames.count, 5);
    assert_eq!(
        header.tweakdb_ids.hash,
        crc32fast::hash(part(header.tweakdb_ids.offset, 4 * header.tweakdb_ids.count))
    );
    assert_eq!(
        header.resources.hash,
        crc32fast::hash(part(header.resources.offset, 4 * header.resources.count))
    );
    assert_eq!(
        header.definitions.hash,
        crc32fast::hash(part(header.definitions.offset, 20 * header.definitions.count))
    );
    assert_eq!(header.definitions.count, 13);
    assert_eq!(
        header.strings.hash,
        crc32fast::hash(part(header.strings.offset, 4 * header.strings.count))
    );
    let mut unstamped = bytes[0..104].to_vec();
    assert_eq!(u32_at(&unstamped, 24), header.crc);
    unstamped[24..28].copy_from_slice(&0xDEAD_BEEFu32.to_le_bytes());
    assert_eq!(header.crc, crc32fast::hash(&unstamped));
}

#[test]
fn checksum_of_an_empty_part_is_zero() {
    let bytes = write(ScriptBundle::default());
    let reader = BundleReader::new(&bytes).unwrap();
    assert_eq!(reader.header().cnames.hash, 0);
    assert_eq!(reader.header().definitions.hash, crc32fast::hash(&[0u8; 20]));
    assert_ne!(reader.header().definitions.hash, 0);
}

#[test]
fn slot_zero_is_undefined_whatever_the_file_holds() {
    let mut bytes = write(sample_bundle());
    let at = BundleReader::new(&bytes).unwrap().header().definitions.offset as usize;
    for byte in bytes[at..at + 20].iter_mut() {
        *byte = 0xFF;
    }
    let read = ScriptBundle::from_bytes(&bytes).unwrap();
    assert_eq!(read.definitions()[0], Definition::Undefined);
    assert_eq!(read.definitions().len(), 13);
    assert_eq!(read.definitions()[3], Definition::Function(sample_function()));
}

#[test]
fn a_table_without_definitions_still_gives_the_sentinel() {
    let mut bytes = write(ScriptBundle::default());
    bytes[84..88].copy_from_slice(&0u32.to_le_bytes());
    let read = ScriptBundle::from_bytes(&bytes).unwrap();
    assert_eq!(read.definitions(), &vec![Definition::Undefined]);
}

#[test]
fn bad_magic_is_refused() {
    let mut bytes = write(ScriptBundle::default());
    bytes[0] = b'X';
    assert_eq!(
        ScriptBundle::from_bytes(&bytes).unwrap_err(),
        Error::BadInput { err: "invalid magic number" }
    );
    assert_eq!(
        BundleReader::new(&bytes).unwrap_err(),
        Error::BadInput { err: "invalid magic number" }
    );
    assert_eq!(
        ScriptBundle::from_bytes(b"SDER").unwrap_err(),
        Error::BadInput { err: "invalid magic number" }
    );
    assert_eq!(
        ScriptBundle::from_bytes(&[0u8; 200]).unwrap_err(),
        Error::BadInput { err: "invalid magic number" }
    );
}

#[test]
fn another_version_is_refused() {
    for version in [0u32, 13, 15, 0x0E00_0000] {
        let mut bytes = write(ScriptBundle::default());
        bytes[4..8].copy_from_slice(&version.to_le_bytes());
        assert_eq!(
            ScriptBundle::from_bytes(&bytes).unwrap_err(),
            Error::BadInput { err: "unsupported version" }
        );
    }
    assert_eq!(
        ScriptBundle::from_bytes(b"REDS\x0D\x00\x00\x00").unwrap_err(),
        Error::BadInput { err: "unsupported version" }
    );
}

#[test]
fn a_short_file_is_incomplete() {
    assert_eq!(ScriptBundle::from_bytes(b"").unwrap_err(), Error::Incomplete);
    assert_eq!(ScriptBundle::from_bytes(b"RED").unwrap_err(), Error::Incomplete);
    assert_eq!(ScriptBundle::from_bytes(b"REDS").unwrap_err(), Error::Incomplete);
    assert_eq!(ScriptBundle::from_bytes(b"REDS\x0E\x00\x00").unwrap_err(), Error::Incomplete);
    let bytes = write(ScriptBundle::default());
    assert_eq!(ScriptBundle::from_bytes(&bytes[..103]).unwrap_err(), Error::Incomplete);
    let bytes = write(sample_bundle());
    assert_eq!(ScriptBundle::from_bytes(&bytes[..bytes.len() - 1]).unwrap_err(), Error::Incomplete);
    let names = BundleReader::new(&bytes).unwrap().header().cnames.offset as usize;
    assert_eq!(ScriptBundle::from_bytes(&bytes[..105]).unwrap_err(), Error::BadOffset(names));
    assert_eq!(ScriptBundle::from_bytes(&bytes[..names + 3]).unwrap_err(), Error::Incomplete);
}

#[test]
fn slot_zero_of_the_table_is_not_read() {
    let bytes = write(ScriptBundle::default());
    let read = ScriptBundle::from_bytes(&bytes[..104]).unwrap();
    assert_eq!(read.definitions(), &vec![Definition::Undefined]);
}

#[test]
fn header_fields_that_are_not_interpreted_are_accepted() {
    let mut bytes = write(sample_bundle());
    bytes[8..12].copy_from_slice(&0xAAAA_AAAAu32.to_le_bytes());
    bytes[12..20].copy_from_slice(&u64::MAX.to_le_bytes());
    bytes[20..24].copy_from_slice(&5u32.to_le_bytes());
    bytes[24..28].copy_from_slice(&0u32.to_le_bytes());
    bytes[28..32].copy_from_slice(&1u32.to_le_bytes());
    let reader = BundleReader::new(&bytes).unwrap();
    assert_eq!(reader.header().flags, 0xAAAA_AAAA);
    assert_eq!(reader.header().timestamp.bits, u64::MAX);
    assert_eq!(reader.header().build, 5);
    assert_eq!(reader.header().segments, 1);
    let read = ScriptBundle::from_bytes(&bytes).unwrap();
    let again = write(read);
    assert_eq!(u32_at(&again, 8), 0);
    assert_eq!(u32_at(&again, 20), 0);
    assert_eq!(u32_at(&again, 28), 7);
}

#[test]
fn repeated_strings_of_a_table_are_read_once() {
    let mut bundle = ScriptBundle::new();
    bundle.cnames_mut().add("A");
    bundle.cnames_mut().add("B");
    bundle.cnames_mut().add("C");
    let mut bytes = write(bundle);
    let table = BundleReader::new(&bytes).unwrap().header().cnames.offset as usize;
    bytes[table + 4..table + 8].copy_from_slice(&0u32.to_le_bytes());
    let read = ScriptBundle::from_bytes(&bytes).unwrap();
    assert_eq!(read.cnames().len(), 2);
    assert_eq!(read.get_item(CNameIndex::new(0)), Some("A"));
    assert_eq!(read.get_item(CNameIndex::new(1)), Some("C"));
    assert_eq!(read.get_item(CNameIndex::new(2)), None);
}

#[test]
fn a_string_that_is_not_utf8_is_refused() {
    let mut bundle = ScriptBundle::new();
    bundle.cnames_mut().add("A");
    let mut bytes = write(bundle);
    bytes[104] = 0xFF;
    assert_eq!(
        ScriptBundle::from_bytes(&bytes).unwrap_err(),
        Error::BadInput { err: "UTF8 Error" }
    );
}

#[test]
fn a_string_without_terminator_is_incomplete() {
    let mut bundle = ScriptBundle::new();
    bundle.cnames_mut().add("A");
    let mut bytes = write(bundle);
    let end = bytes.len() as u32;
    bytes.extend_from_slice(b"open");
    let table = BundleReader::new(&bytes).unwrap().header().cnames.offset as usize;
    bytes[table..table + 4].copy_from_slice(&(end - 104).to_le_bytes());
    let reader = BundleReader::new(&bytes).unwrap();
    assert_eq!(reader.cnames().get(0).unwrap_err(), Error::Incomplete);
    assert_eq!(ScriptBundle::from_bytes(&bytes).unwrap_err(), Error::Incomplete);
    bytes.push(0);
    assert_eq!(ScriptBundle::from_bytes(&bytes).unwrap().get_item(CNameIndex::new(0)), Some("open"));
}

#[test]
fn an_entry_that_points_behind_the_file_is_a_bad_offset() {
    let mut bundle = ScriptBundle::new();
    bundle.cnames_mut().add("A");
    let mut bytes = write(bundle);
    let table = BundleReader::new(&bytes).unwrap().header().cnames.offset as usize;
    bytes[table..table + 4].copy_from_slice(&1000u32.to_le_bytes());
    assert_eq!(ScriptBundle::from_bytes(&bytes).unwrap_err(), Error::BadOffset(1104));
    bytes[table..table + 4].copy_from_slice(&0xFFFF_FFFFu32.to_le_bytes());
    assert_eq!(
        ScriptBundle::from_bytes(&bytes).unwrap_err(),
        Error::BadInput { err: "offset out of range" }
    );
}

#[test]
fn a_table_that_lies_behind_32_bits_is_out_of_range() {
    let mut bytes = write(ScriptBundle::default());
    bytes[44..48].copy_from_slice(&0xFFFF_FFFEu32.to_le_bytes());
    bytes[48..52].copy_from_slice(&2u32.to_le_bytes());
    let reader = BundleReader::new(&bytes).unwrap();
    assert_eq!(reader.cnames().get(0).unwrap_err(), Error::BadOffset(0xFFFF_FFFE));
    assert_eq!(
        reader.cnames().get(1).unwrap_err(),
        Error::BadInput { err: "offset out of range" }
    );
    assert_eq!(ScriptBundle::from_bytes(&bytes).unwrap_err(), Error::BadOffset(0xFFFF_FFFE));
}

#[test]
fn tables_are_read_entry_by_entry() {
    let bytes = write(sample_bundle());
    let reader = BundleReader::new(&bytes).unwrap();
    assert_eq!(reader.cnames().len(), 5);
    assert_eq!(reader.cnames().get(0).unwrap(), "None");
    assert_eq!(reader.cnames().get(4).unwrap(), "x");
    assert_eq!(reader.tweakdb_ids().get(0).unwrap(), "Items.Sword");
    assert_eq!(reader.resources().get(1).unwrap(), "Vector");
    assert_eq!(reader.strings().get(2).unwrap(), "zażółć");
    assert_eq!(reader.strings().get(1).unwrap(), "");
    assert_eq!(reader.definitions().len(), 13);
    assert_eq!(reader.definitions().get(3).unwrap(), Definition::Function(sample_function()));
    assert_eq!(reader.definitions().get(5).unwrap(), Definition::Function(native_function()));
}

#[test]
fn iterating_a_table_hands_out_every_entry_once() {
    let bytes = write(sample_bundle());
    let reader = BundleReader::new(&bytes).unwrap();
    let mut names = reader.cnames().into_iter();
    assert_eq!(names.size_hint(), (5, Some(5)));
    let mut seen = Vec::new();
    while let Some(name) = names.next() {
        seen.push(name.unwrap());
    }
    assert_eq!(seen, vec!["None", "Int32", "Vector", "Length", "x"]);
    assert_eq!(names.size_hint(), (0, Some(0)));
    assert!(names.next().is_none());
    assert!(names.next().is_none());
}

#[test]
fn a_bad_entry_does_not_hide_the_others() {
    let mut bytes = write(sample_bundle());
    let table = BundleReader::new(&bytes).unwrap().header().cnames.offset as usize;
    bytes[table + 4..table + 8].copy_from_slice(&0x00FF_FFFFu32.to_le_bytes());
    let reader = BundleReader::new(&bytes).unwrap();
    let mut names = reader.cnames().into_iter();
    assert_eq!(names.next().unwrap().unwrap(), "None");
    assert!(names.next().unwrap().is_err());
    assert_eq!(names.next().unwrap().unwrap(), "Vector");
    assert_eq!(names.size_hint(), (2, Some(2)));
    assert!(ScriptBundle::from_bytes(&bytes).is_err());
}

#[test]
fn defining_hands_back_the_next_slot() {
    let mut bundle = ScriptBundle::new();
    let first = bundle.define(Type { name: CNameIndex::new(0), kind: TypeKind::Class });
    assert_eq!(first.value(), 1);
    let second = bundle.define(native_function());
    assert_eq!(second.value(), 2);
    assert_eq!(bundle.definitions().len(), 3);
    assert_eq!(bundle.definitions()[0], Definition::Undefined);
    assert_eq!(bundle.get_item(second), Some(&native_function()));
    assert_eq!(
        bundle.get_item(first),
        Some(&Type { name: CNameIndex::new(0), kind: TypeKind::Class })
    );
}

#[test]
fn a_handle_of_another_kind_names_nothing() {
    let bundle = sample_bundle();
    assert!(bundle.get_item(TypeIndex::new(1).unwrap()).is_some());
    assert!(bundle.get_item(ClassIndex::new(1).unwrap()).is_none());
    assert!(bundle.get_item(ClassIndex::new(2).unwrap()).is_some());
    assert!(bundle.get_item(FunctionIndex::new(2).unwrap()).is_none());
    assert!(bundle.get_item(FieldIndex::new(4).unwrap()).is_some());
    assert!(bundle.get_item(ParameterIndex::new(6).unwrap()).is_some());
    assert!(bundle.get_item(LocalIndex::new(7).unwrap()).is_some());
    assert!(bundle.get_item(EnumIndex::new(8).unwrap()).is_some());
    assert!(bundle.get_item(EnumValueIndex::new(9).unwrap()).is_some());
    assert!(bundle.get_item(SourceFileIndex::new(10).unwrap()).is_some());
    assert!(bundle.get_item(SourceFileIndex::new(9).unwrap()).is_none());
    assert!(bundle.get_item(TypeIndex::new(13).unwrap()).is_none());
    assert!(bundle.get_item(TypeIndex::new(u32::MAX).unwrap()).is_none());
    assert!(bundle.get_item(CNameIndex::new(5)).is_none());
}

#[test]
fn a_definition_is_changed_in_place() {
    let mut bundle = sample_bundle();
    let index = ClassIndex::new(2).unwrap();
    {
        let class = bundle.get_item_mut(index).unwrap();
        class.visibility = Visibility::Private;
        class.overrides.push(FieldIndex::new(4).unwrap());
        class.flags = class.flags.with(0x100, true);
    }
    let class = bundle.get_item(index).unwrap();
    assert_eq!(class.visibility, Visibility::Private);
    assert_eq!(class.overrides.len(), 1);
    assert!(class.flags.has_overrides());
    assert!(bundle.get_item_mut(ClassIndex::new(1).unwrap()).is_none());
    assert!(bundle.get_item_mut(ClassIndex::new(99).unwrap()).is_none());
    assert_eq!(bundle.definitions()[0], Definition::Undefined);
    let bytes = write(bundle);
    let read = ScriptBundle::from_bytes(&bytes).unwrap();
    assert_eq!(read.get_item(index).unwrap().overrides, vec![FieldIndex::new(4).unwrap()]);
}

#[test]
fn writing_into_a_buffer_needs_room() {
    let writeable = sample_bundle().into_writeable();
    let size = writeable.measure().unwrap();
    let expected = writeable.to_bytes().unwrap();
    assert_eq!(expected.len(), size);
    let mut short = vec![0xEEu8; size - 1];
    assert_eq!(writeable.try_write(&mut short), Err(Error::Incomplete));
    assert_eq!(short, vec![0xEEu8; size - 1]);
    let mut long = vec![0xEEu8; size + 3];
    assert_eq!(writeable.try_write(&mut long), Ok(size));
    assert_eq!(&long[..size], &expected[..]);
    assert_eq!(&long[size..], &[0xEE, 0xEE, 0xEE]);
}

#[test]
fn a_bundle_that_does_not_fit_the_format_is_refused() {
    let mut bundle = ScriptBundle::new();
    bundle.define(SourceFile { id: 0, path_hash: 0, path: "p".repeat(65536) });
    let writeable = bundle.into_writeable();
    assert_eq!(writeable.measure(), None);
    assert_eq!(
        writeable.to_bytes().unwrap_err(),
        Error::BadInput { err: "bundle does not fit the format" }
    );
    let mut buffer = vec![0u8; 70000];
    assert_eq!(
        writeable.try_write(&mut buffer),
        Err(Error::BadInput { err: "bundle does not fit the format" })
    );
    let mut bundle = writeable.into_bundle();
    assert_eq!(bundle.definitions().len(), 2);
    bundle.get_item_mut(SourceFileIndex::new(1).unwrap()).unwrap().path = "p".repeat(65535);
    let bytes = write(bundle);
    let read = ScriptBundle::from_bytes(&bytes).unwrap();
    assert_eq!(read.get_item(SourceFileIndex::new(1).unwrap()).unwrap().path.len(), 65535);
}

#[test]
fn an_owned_bundle_is_the_same_bundle() {
    let bundle = sample_bundle();
    let definitions = bundle.definitions().clone();
    let strings = pool_strings(&bundle);
    let owned = bundle.into_owned();
    assert_eq!(owned.definitions(), &definitions);
    assert_eq!(pool_strings(&owned), strings);
}

#[test]
fn the_checked_form_defines_like_the_plain_one() {
    let mut bundle = ScriptBundle::new();
    let first = bundle.try_define(native_function()).unwrap();
    assert_eq!(first.value(), 1);
    let second = bundle.define(native_function());
    assert_eq!(second.value(), 2);
    assert_eq!(bundle.try_define(native_function()).unwrap().value(), 3);
    assert_eq!(bundle.definitions().len(), 4);
}

#[test]
fn a_good_handle_is_looked_up_without_a_detour() {
    let mut bundle = sample_bundle();
    let index = ClassIndex::new(2).unwrap();
    assert_eq!(bundle.index(index).visibility, Visibility::Public);
    assert_eq!(bundle.index(CNameIndex::new(1)), "Int32");
    bundle.index_mut(index).visibility = Visibility::Protected;
    assert_eq!(bundle.index(index).visibility, Visibility::Protected);
    assert_eq!(bundle.get_item(index).unwrap().visibility, Visibility::Protected);
}
