use spirt::attrs::Attr;
use spirt::context::Context;
use spirt::literal::{extract_literal_string, read_literal, InvalidUtf8};
use spirt::lower::{
    classify, has_expected_shape, invalid, section_tag, split_version, InstClass, LowerError,
    Lowering, ModuleParser, SectionTag, MAGIC,
};
use spirt::module::{MiscInput, MiscKind, MiscOutput, Module, TopLevel};
use spirt::spv::{
    Imm, Inst, Operand, OP_CAPABILITY, OP_DECORATE, OP_ENTRY_POINT, OP_EXECUTION_MODE,
    OP_EXTENSION, OP_EXT_INST_IMPORT, OP_MEMORY_MODEL, OP_NAME, OP_STRING,
};

const HEADER: [u32; 5] = [MAGIC, 0x0001_0500, 7, 100, 0];
const OP_TYPE_VOID: u16 = 19;
const OP_EXT_INST: u16 = 12;
const OP_LINE: u16 = 8;

fn literal(bytes: &[u8]) -> Vec<Operand> {
    let mut padded = bytes.to_vec();
    padded.push(0);
    while padded.len() % 4 != 0 {
        padded.push(0);
    }
    let words: Vec<u32> = padded
        .chunks(4)
        .map(|c| u32::from_le_bytes([c[0], c[1], c[2], c[3]]))
        .collect();
    if words.len() == 1 {
        return vec![Operand::Imm(Imm::Short(0, words[0]))];
    }
    let mut operands = vec![Operand::Imm(Imm::LongStart(0, words[0]))];
    for w in &words[1..] {
        operands.push(Operand::Imm(Imm::LongCont(0, *w)));
    }
    operands
}

/// Why the standard library does not take the bytes for UTF-8.
fn std_error(bytes: &[u8]) -> String {
    String::from_utf8(bytes.to_vec()).unwrap_err().to_string()
}

fn inst(opcode: u16, operands: Vec<Operand>) -> Inst {
    Inst { opcode, result_type_id: None, result_id: None, operands }
}

fn capability(cap: u32) -> Inst {
    inst(OP_CAPABILITY, vec![Operand::Imm(Imm::Short(1, cap))])
}

fn extension(name: &str) -> Inst {
    inst(OP_EXTENSION, literal(name.as_bytes()))
}

fn memory_model(addressing: u32, memory: u32) -> Inst {
    inst(
        OP_MEMORY_MODEL,
        vec![Operand::Imm(Imm::Short(2, addressing)), Operand::Imm(Imm::Short(3, memory))],
    )
}

fn decorate(target: u32, words: &[u32]) -> Inst {
    let mut operands = vec![Operand::Id(target)];
    for w in words {
        operands.push(Operand::Imm(Imm::Short(4, *w)));
    }
    inst(OP_DECORATE, operands)
}

fn define(opcode: u16, id: u32, operands: Vec<Operand>) -> Inst {
    Inst { opcode, result_type_id: None, result_id: Some(id), operands }
}

fn lower(insts: Vec<Inst>) -> Result<Module, LowerError> {
    for i in &insts {
        assert!(has_expected_shape(i));
    }
    let cx = Context::new(1);
    Module::lower_from_spv_module_parser(&cx, ModuleParser { header: HEADER, insts })
}

#[test]
fn header_version_word_gives_major_and_minor() {
    assert_eq!(split_version(0x0001_0500), (0, 1, 5, 0));
    let module = lower(vec![memory_model(0, 1)]).unwrap();
    let spirt::dialect::ModuleDialect::Spv(dialect) = &module.dialect;
    assert_eq!(dialect.version_major, 1);
    assert_eq!(dialect.version_minor, 5);
    assert_eq!(dialect.original_generator_magic, 7);
    assert_eq!(dialect.original_id_bound, 100);
}

#[test]
fn header_with_reserved_byte_is_rejected() {
    assert_eq!(
        Lowering::begin(&[MAGIC, 0x0101_0500, 7, 10, 0]).unwrap_err(),
        LowerError::MalformedVersion { version: 0x0101_0500 }
    );
    assert_eq!(
        Lowering::begin(&[MAGIC, 0x0001_0501, 7, 10, 0]).unwrap_err(),
        LowerError::MalformedVersion { version: 0x0001_0501 }
    );
}

#[test]
fn header_with_schema_is_rejected() {
    assert_eq!(
        Lowering::begin(&[MAGIC, 0x0001_0500, 7, 10, 3]).unwrap_err(),
        LowerError::UnknownInstSchema { schema: 3 }
    );
}

#[test]
fn header_with_zero_id_bound_is_rejected() {
    assert_eq!(
        Lowering::begin(&[MAGIC, 0x0001_0500, 7, 0, 0]).unwrap_err(),
        LowerError::ZeroIdBound
    );
}

#[test]
fn header_errors_come_in_order() {
    // A bad version is reported before a bad schema, and that before a zero bound.
    assert_eq!(
        Lowering::begin(&[MAGIC, 0xff00_0000, 7, 0, 9]).unwrap_err(),
        LowerError::MalformedVersion { version: 0xff00_0000 }
    );
    assert_eq!(
        Lowering::begin(&[MAGIC, 0x0001_0000, 7, 0, 9]).unwrap_err(),
        LowerError::UnknownInstSchema { schema: 9 }
    );
}

#[test]
fn extension_after_memory_model_is_out_of_order() {
    let err = lower(vec![capability(1), memory_model(0, 1), extension("SPV_KHR_x")]).unwrap_err();
    assert_eq!(
        err,
        LowerError::OutOfOrder {
            opcode: OP_EXTENSION,
            next: SectionTag::Extension,
            prev: SectionTag::MemoryModel,
        }
    );
}

#[test]
fn reordered_stream_is_accepted() {
    let module = lower(vec![capability(1), extension("SPV_KHR_x"), memory_model(0, 1)]).unwrap();
    let spirt::dialect::ModuleDialect::Spv(dialect) = &module.dialect;
    assert!(dialect.capabilities.contains(1));
    assert!(!dialect.capabilities.contains(2));
    assert_eq!(dialect.capabilities.len(), 1);
    assert!(dialect.extensions.contains(&"SPV_KHR_x".to_string()));
    assert_eq!(dialect.extensions.len(), 1);
    assert_eq!(dialect.addressing_model, 0);
    assert_eq!(dialect.memory_model, 1);
}

#[test]
fn same_section_may_repeat() {
    let module = lower(vec![capability(1), capability(5), capability(1), memory_model(2, 3)])
        .unwrap();
    let spirt::dialect::ModuleDialect::Spv(dialect) = &module.dialect;
    assert_eq!(dialect.capabilities.to_vec(), vec![1, 5]);
    assert_eq!(dialect.addressing_model, 2);
    assert_eq!(dialect.memory_model, 3);
}

#[test]
fn debug_string_after_other_is_out_of_order() {
    let err = lower(vec![
        memory_model(0, 1),
        define(OP_TYPE_VOID, 1, vec![]),
        define(OP_STRING, 2, literal(b"file.glsl")),
    ])
    .unwrap_err();
    assert_eq!(
        err,
        LowerError::OutOfOrder {
            opcode: OP_STRING,
            next: SectionTag::DebugStringAndSource,
            prev: SectionTag::Other,
        }
    );
}

#[test]
fn orphan_decoration_is_reported() {
    let err = lower(vec![memory_model(0, 1), decorate(5, &[11])]).unwrap_err();
    assert_eq!(err, LowerError::DecoratedIdsNeverDefined { ids: vec![5] });
}

#[test]
fn orphan_ids_are_listed_ascending() {
    let err = lower(vec![
        memory_model(0, 1),
        decorate(90, &[1]),
        decorate(7, &[1]),
        decorate(41, &[1]),
        decorate(7, &[2]),
        decorate(3, &[1]),
        define(OP_TYPE_VOID, 41, vec![]),
    ])
    .unwrap_err();
    assert_eq!(err, LowerError::DecoratedIdsNeverDefined { ids: vec![3, 7, 90] });
}

#[test]
fn without_the_decoration_lowering_succeeds() {
    let module = lower(vec![memory_model(0, 1)]).unwrap();
    assert!(module.top_level.is_empty());
    assert_eq!(module.export_count(), 0);
}

#[test]
fn with_the_definition_the_decoration_is_attached() {
    let module = lower(vec![
        memory_model(0, 1),
        decorate(5, &[11, 12]),
        decorate(5, &[11, 12]),
        decorate(5, &[13]),
        define(OP_TYPE_VOID, 5, vec![]),
        define(OP_TYPE_VOID, 6, vec![]),
    ])
    .unwrap();
    assert_eq!(module.top_level.len(), 2);
    let TopLevel::Misc(first) = &module.top_level[0];
    assert_eq!(first.kind, MiscKind::SpvInst { opcode: OP_TYPE_VOID });
    assert_eq!(first.output, Some(MiscOutput::SpvResult { result_type_id: None, result_id: 5 }));
    let attrs = first.attrs.as_ref().unwrap();
    assert_eq!(attrs.len(), 2);
    assert!(attrs.contains(&Attr::annotation(
        OP_DECORATE,
        &[Imm::Short(4, 11), Imm::Short(4, 12)]
    )));
    assert!(attrs.contains(&Attr::annotation(OP_DECORATE, &[Imm::Short(4, 13)])));
    assert!(!attrs.contains(&Attr::annotation(OP_NAME, &[Imm::Short(4, 13)])));
    assert!(!attrs.contains(&Attr::annotation(OP_DECORATE, &[Imm::Short(4, 12)])));
    assert_eq!(attrs.get(0).params(), vec![Imm::Short(4, 11), Imm::Short(4, 12)]);
    assert_eq!(attrs.get(0).opcode(), Some(OP_DECORATE));
    let TopLevel::Misc(second) = &module.top_level[1];
    assert!(second.attrs.is_none());
}

#[test]
fn missing_memory_model_is_rejected() {
    assert_eq!(lower(vec![capability(1)]).unwrap_err(), LowerError::MissingMemoryModel);
    assert_eq!(lower(vec![]).unwrap_err(), LowerError::MissingMemoryModel);
}

#[test]
fn one_memory_model_is_accepted() {
    assert!(lower(vec![capability(1), memory_model(0, 1)]).is_ok());
}

#[test]
fn second_memory_model_is_rejected() {
    assert_eq!(
        lower(vec![memory_model(0, 1), memory_model(0, 1)]).unwrap_err(),
        LowerError::DuplicateMemoryModel
    );
}

#[test]
fn duplicate_memory_model_wins_over_order() {
    // The instruction itself is looked at before its place is.
    assert_eq!(
        lower(vec![memory_model(0, 1), define(OP_TYPE_VOID, 1, vec![]), memory_model(0, 1)])
            .unwrap_err(),
        LowerError::DuplicateMemoryModel
    );
}

#[test]
fn missing_memory_model_wins_over_orphans() {
    assert_eq!(
        lower(vec![inst(OP_NAME, vec![Operand::Id(4), Operand::Imm(Imm::Short(0, 0x61))])])
            .unwrap_err(),
        LowerError::MissingMemoryModel
    );
}

#[test]
fn decoration_with_id_is_unsupported() {
    let err = lower(vec![
        memory_model(0, 1),
        inst(OP_DECORATE, vec![Operand::Id(5), Operand::Imm(Imm::Short(4, 1)), Operand::Id(6)]),
    ])
    .unwrap_err();
    assert_eq!(err, LowerError::UnsupportedIdInDecoration { opcode: OP_DECORATE });
    let err = lower(vec![
        memory_model(0, 1),
        inst(OP_EXECUTION_MODE, vec![Operand::ForwardIdRef(5), Operand::ForwardIdRef(6)]),
    ])
    .unwrap_err();
    assert_eq!(err, LowerError::UnsupportedIdInDecoration { opcode: OP_EXECUTION_MODE });
}

#[test]
fn execution_mode_has_its_own_section() {
    assert_eq!(section_tag(OP_EXECUTION_MODE), SectionTag::ExecutionMode);
    assert_eq!(section_tag(OP_DECORATE), SectionTag::Other);
    assert_eq!(section_tag(OP_NAME), SectionTag::Other);
    assert_eq!(section_tag(OP_STRING), SectionTag::DebugStringAndSource);
    assert_eq!(section_tag(OP_TYPE_VOID), SectionTag::Other);
    assert_eq!(classify(OP_NAME), InstClass::Annotation);
    assert_eq!(classify(OP_TYPE_VOID), InstClass::Other);
    assert_eq!(classify(OP_ENTRY_POINT), InstClass::EntryPoint);
    assert_eq!(SectionTag::Capability.rank(), 0);
    assert_eq!(SectionTag::Other.rank(), 7);
    let err = lower(vec![
        memory_model(0, 1),
        decorate(5, &[1]),
        inst(OP_EXECUTION_MODE, vec![Operand::Id(5), Operand::Imm(Imm::Short(0, 7))]),
    ])
    .unwrap_err();
    assert_eq!(
        err,
        LowerError::OutOfOrder {
            opcode: OP_EXECUTION_MODE,
            next: SectionTag::ExecutionMode,
            prev: SectionTag::Other,
        }
    );
}

#[test]
fn entry_point_is_split_into_immediates_and_ids() {
    let mut operands = vec![Operand::Imm(Imm::Short(9, 5)), Operand::ForwardIdRef(20)];
    operands.extend(literal(b"main"));
    operands.push(Operand::ForwardIdRef(30));
    operands.push(Operand::Id(31));
    let module = lower(vec![
        memory_model(0, 1),
        inst(OP_ENTRY_POINT, operands),
        define(OP_TYPE_VOID, 20, vec![]),
    ])
    .unwrap();
    let TopLevel::Misc(misc) = &module.top_level[0];
    let attrs = misc.attrs.as_ref().unwrap();
    assert_eq!(attrs.len(), 1);
    let attr = attrs.get(0);
    assert!(attr.is_entry_point());
    assert_eq!(attr.opcode(), None);
    assert_eq!(
        attr.params(),
        vec![
            Imm::Short(9, 5),
            Imm::LongStart(0, u32::from_le_bytes(*b"main")),
            Imm::LongCont(0, 0)
        ]
    );
    assert_eq!(attr.interface_ids(), vec![30, 31]);
    assert!(attr.same(&Attr::entry_point(
        &[Imm::Short(9, 5), Imm::LongStart(0, u32::from_le_bytes(*b"main")), Imm::LongCont(0, 0)],
        &[30, 31]
    )));
    assert!(!attr.same(&Attr::entry_point(&[Imm::Short(9, 5)], &[30, 31])));
}

#[test]
fn entry_point_with_immediate_behind_id_has_wrong_shape() {
    let operands = vec![
        Operand::Imm(Imm::Short(9, 5)),
        Operand::Id(20),
        Operand::Id(30),
        Operand::Imm(Imm::Short(0, 1)),
    ];
    assert!(!has_expected_shape(&inst(OP_ENTRY_POINT, operands)));
    assert!(!has_expected_shape(&inst(OP_ENTRY_POINT, vec![Operand::Imm(Imm::Short(9, 5))])));
    assert!(!has_expected_shape(&inst(
        OP_ENTRY_POINT,
        vec![Operand::Imm(Imm::Short(9, 5)), Operand::Imm(Imm::Short(9, 5))]
    )));
}

#[test]
fn shapes_are_checked() {
    assert!(has_expected_shape(&capability(1)));
    assert!(!has_expected_shape(&inst(OP_CAPABILITY, vec![])));
    assert!(!has_expected_shape(&inst(OP_CAPABILITY, vec![Operand::Id(1)])));
    assert!(!has_expected_shape(&define(OP_CAPABILITY, 3, vec![Operand::Imm(Imm::Short(1, 1))])));
    assert!(!has_expected_shape(&inst(OP_MEMORY_MODEL, vec![Operand::Imm(Imm::Short(2, 0))])));
    assert!(!has_expected_shape(&inst(OP_EXT_INST_IMPORT, literal(b"GLSL.std.450"))));
    assert!(has_expected_shape(&define(OP_EXT_INST_IMPORT, 1, literal(b"GLSL.std.450"))));
    assert!(!has_expected_shape(&inst(OP_DECORATE, vec![])));
    assert!(!has_expected_shape(&inst(OP_DECORATE, vec![Operand::Imm(Imm::Short(0, 1))])));
    // No terminator.
    assert!(!has_expected_shape(&inst(
        OP_EXTENSION,
        vec![Operand::Imm(Imm::Short(0, 0x6161_6161))]
    )));
    // A word behind the terminator.
    assert!(!has_expected_shape(&inst(
        OP_EXTENSION,
        vec![Operand::Imm(Imm::LongStart(0, 0x0061_6161)), Operand::Imm(Imm::LongCont(0, 0))]
    )));
    // Any shape will do for an instruction of no special meaning.
    assert!(has_expected_shape(&Inst {
        opcode: OP_TYPE_VOID,
        result_type_id: Some(1),
        result_id: Some(2),
        operands: vec![Operand::Id(3)],
    }));
}

#[test]
fn literal_strings_are_read_low_byte_first() {
    assert_eq!(read_literal(&literal(b"abc")), Some(b"abc".to_vec()));
    assert_eq!(read_literal(&literal(b"")), Some(vec![]));
    assert_eq!(read_literal(&literal(b"GLSL.std.450")), Some(b"GLSL.std.450".to_vec()));
    assert_eq!(
        read_literal(&[Operand::Imm(Imm::Short(0, 0x0063_6261))]),
        Some(vec![0x61, 0x62, 0x63])
    );
    // Bytes behind the terminator in the last word are not looked at.
    assert_eq!(read_literal(&[Operand::Imm(Imm::Short(0, 0x7a00_6261))]), Some(vec![0x61, 0x62]));
    assert_eq!(read_literal(&[]), None);
    assert_eq!(read_literal(&[Operand::Id(3)]), None);
    assert_eq!(read_literal(&[Operand::Imm(Imm::LongCont(0, 0))]), None);
    assert_eq!(
        read_literal(&[Operand::Imm(Imm::Short(0, 0x6161_6161)), Operand::Imm(Imm::Short(0, 0))]),
        None
    );
    assert_eq!(extract_literal_string(&literal("héllo".as_bytes())), Ok("héllo".to_string()));
    assert_eq!(
        extract_literal_string(&literal(&[0x61, 0xff])),
        Err(InvalidUtf8 { bytes: vec![0x61, 0xff], error: std_error(&[0x61, 0xff]) })
    );
    assert_eq!(std_error(&[0x61, 0xff]), "invalid utf-8 sequence of 1 bytes from index 1");
}

#[test]
fn invalid_utf8_in_a_literal_is_rejected() {
    let err = lower(vec![inst(OP_EXTENSION, literal(&[0xc3, 0x28]))]).unwrap_err();
    assert_eq!(
        err,
        LowerError::InvalidLiteralString {
            opcode: OP_EXTENSION,
            bytes: vec![0xc3, 0x28],
            error: std_error(&[0xc3, 0x28]),
        }
    );
    let err = lower(vec![define(OP_STRING, 4, literal(&[0x80]))]).unwrap_err();
    assert_eq!(
        err,
        LowerError::InvalidLiteralString {
            opcode: OP_STRING,
            bytes: vec![0x80],
            error: std_error(&[0x80]),
        }
    );
    // A sequence that breaks off is told from one that is wrong.
    let err = lower(vec![define(OP_STRING, 4, literal(&[0x61, 0xe2, 0x82]))]).unwrap_err();
    assert_eq!(
        err.reason(),
        "in OpString: incomplete utf-8 byte sequence from index 1 in [97, 226, 130]"
    );
}

#[test]
fn known_ids_are_resolved_in_inputs() {
    let module = lower(vec![
        define(OP_EXT_INST_IMPORT, 1, literal(b"GLSL.std.450")),
        memory_model(0, 1),
        define(OP_STRING, 2, literal(b"shader.frag")),
        Inst {
            opcode: OP_EXT_INST,
            result_type_id: Some(9),
            result_id: Some(10),
            operands: vec![
                Operand::Id(1),
                Operand::Imm(Imm::Short(0, 31)),
                Operand::Id(8),
                Operand::ForwardIdRef(2),
            ],
        },
        inst(OP_LINE, vec![Operand::Id(2), Operand::Imm(Imm::Short(0, 3))]),
    ])
    .unwrap();
    assert_eq!(module.top_level.len(), 2);
    let TopLevel::Misc(ext) = &module.top_level[0];
    assert_eq!(ext.kind, MiscKind::SpvInst { opcode: OP_EXT_INST });
    assert_eq!(
        ext.output,
        Some(MiscOutput::SpvResult { result_type_id: Some(9), result_id: 10 })
    );
    assert_eq!(ext.inputs.len(), 4);
    assert!(matches!(&ext.inputs[0], MiscInput::SpvExtInstImport(name) if name == "GLSL.std.450"));
    assert!(matches!(&ext.inputs[1], MiscInput::SpvImm(Imm::Short(0, 31))));
    assert!(matches!(&ext.inputs[2], MiscInput::SpvUntrackedId(8)));
    assert!(matches!(&ext.inputs[3], MiscInput::SpvDebugString(s) if s == "shader.frag"));
    let TopLevel::Misc(line) = &module.top_level[1];
    assert_eq!(line.output, None);
    assert!(matches!(&line.inputs[0], MiscInput::SpvDebugString(s) if s == "shader.frag"));
}

#[test]
fn a_later_definition_of_an_id_replaces_the_earlier() {
    let module = lower(vec![
        define(OP_EXT_INST_IMPORT, 1, literal(b"first")),
        define(OP_EXT_INST_IMPORT, 1, literal(b"second")),
        memory_model(0, 1),
        inst(OP_LINE, vec![Operand::Id(1)]),
    ])
    .unwrap();
    let TopLevel::Misc(line) = &module.top_level[0];
    assert!(matches!(&line.inputs[0], MiscInput::SpvExtInstImport(name) if name == "second"));
}

#[test]
fn attributes_behind_the_definition_are_orphans() {
    let err = lower(vec![
        memory_model(0, 1),
        decorate(5, &[1]),
        define(OP_TYPE_VOID, 5, vec![]),
        decorate(5, &[2]),
    ])
    .unwrap_err();
    assert_eq!(err, LowerError::DecoratedIdsNeverDefined { ids: vec![5] });
}

#[test]
fn steps_can_be_taken_one_by_one() {
    let st = Lowering::begin(&HEADER).unwrap();
    let st = st.step(&capability(4)).unwrap();
    let st = st.step(&memory_model(1, 2)).unwrap();
    let err = st.step(&capability(5)).unwrap_err();
    assert_eq!(
        err,
        LowerError::OutOfOrder {
            opcode: OP_CAPABILITY,
            next: SectionTag::Capability,
            prev: SectionTag::MemoryModel,
        }
    );
    let st = Lowering::begin(&HEADER).unwrap();
    let st = st.step(&memory_model(1, 2)).unwrap();
    let cx = Context::new(9);
    let module = st.finish(&cx).unwrap();
    assert_eq!(module.context_id(), 9);
    assert!(module.is_valid_in(&cx));
    let spirt::dialect::ModuleDialect::Spv(dialect) = &module.dialect;
    assert_eq!((dialect.addressing_model, dialect.memory_model), (1, 2));
}

#[test]
fn lowering_a_file_is_lowering_its_parser() {
    let cx = Context::new(1);
    let module = Module::lower_from_spv_file(&cx, HEADER, vec![capability(3), memory_model(0, 1)])
        .unwrap();
    let spirt::dialect::ModuleDialect::Spv(dialect) = &module.dialect;
    assert!(dialect.capabilities.contains(3));
    assert_eq!(
        Module::lower_from_spv_file(&cx, HEADER, vec![capability(3)]).unwrap_err(),
        LowerError::MissingMemoryModel
    );
}

#[test]
fn the_message_wraps_the_reason() {
    assert_eq!(invalid("ID bound 0"), "malformed SPIR-V module (ID bound 0)");
    assert_eq!(invalid(""), "malformed SPIR-V module ()");
}

#[test]
fn reasons_are_spelled_out() {
    assert_eq!(
        LowerError::MalformedVersion { version: 0x0001_0501 }.reason(),
        "version 0x00010501 is not in expected (0.major.minor.0) form"
    );
    assert_eq!(
        LowerError::MalformedVersion { version: 0xdead_beef }.reason(),
        "version 0xdeadbeef is not in expected (0.major.minor.0) form"
    );
    assert_eq!(
        LowerError::UnknownInstSchema { schema: 4_294_967_295 }.reason(),
        "unknown instruction schema 4294967295 - only 0 is supported"
    );
    assert_eq!(
        LowerError::UnknownInstSchema { schema: 10 }.reason(),
        "unknown instruction schema 10 - only 0 is supported"
    );
    assert_eq!(LowerError::ZeroIdBound.reason(), "ID bound 0");
    assert_eq!(
        LowerError::InvalidLiteralString {
            opcode: OP_EXTENSION,
            bytes: vec![195, 40],
            error: std_error(&[195, 40]),
        }
        .reason(),
        "in OpExtension: invalid utf-8 sequence of 1 bytes from index 0 in [195, 40]"
    );
    assert_eq!(
        LowerError::InvalidLiteralString {
            opcode: OP_STRING,
            bytes: vec![],
            error: "why".to_string(),
        }
        .reason(),
        "in OpString: why in []"
    );
    assert_eq!(
        LowerError::DuplicateMemoryModel.reason(),
        "in OpMemoryModel: duplicate OpMemoryModel"
    );
    assert_eq!(
        LowerError::UnsupportedIdInDecoration { opcode: OP_DECORATE }.reason(),
        "in OpDecorate: unsupported decoration with ID"
    );
    assert_eq!(
        LowerError::UnsupportedIdInDecoration { opcode: 5633 }.reason(),
        "in OpMemberDecorateString: unsupported decoration with ID"
    );
    assert_eq!(
        LowerError::UnsupportedIdInDecoration { opcode: 4000 }.reason(),
        "in Op4000: unsupported decoration with ID"
    );
    assert_eq!(
        LowerError::OutOfOrder {
            opcode: OP_EXTENSION,
            next: SectionTag::Extension,
            prev: SectionTag::MemoryModel,
        }
        .reason(),
        "in OpExtension: out of order: Extension instructions must precede MemoryModel instructions"
    );
    assert_eq!(LowerError::MissingMemoryModel.reason(), "missing OpMemoryModel");
    assert_eq!(
        LowerError::DecoratedIdsNeverDefined { ids: vec![3, 7, 90] }.reason(),
        "decorated IDs never defined: {3, 7, 90}"
    );
    assert_eq!(
        LowerError::DecoratedIdsNeverDefined { ids: vec![5] }.reason(),
        "decorated IDs never defined: {5}"
    );
    assert_eq!(
        LowerError::DecoratedIdsNeverDefined { ids: vec![5] }.message(),
        "malformed SPIR-V module (decorated IDs never defined: {5})"
    );
    assert_eq!(SectionTag::DebugStringAndSource.name(), "DebugStringAndSource");
}
