//! Lowering: from the header and the decoded instructions of a binary module
//! to a [`Module`].
//!
//! Lowering is one forward pass. Each instruction updates a [`Lowering`]
//! state; after the last one the state is closed into the module. What the
//! pass computes is stated by the specification functions [`begin_spec`],
//! [`step_spec`] and [`finish_spec`].

use crate::attrs::{Attr, AttrSet, AttrView};
use crate::context::Context;
use crate::dialect::{CapabilitySet, Dialect, DialectView, ExtensionSet, ModuleDialect};
use crate::lists::{id_list_items, imm_list_items, IdList, ImmList};
use crate::literal::{
    decode_literal, extract_literal_string, is_literal_string, literal_bytes, operand_words,
    read_literal, utf8_error_text,
};
use crate::module::{
    Misc, MiscInput, MiscInputView, MiscKind, MiscOutput, MiscView, Module, ModuleView, TopLevel,
};
use crate::spv::{
    Imm, Inst, InstView, Operand, OP_CAPABILITY, OP_DECORATE, OP_DECORATE_ID, OP_DECORATE_STRING,
    OP_ENTRY_POINT, OP_EXECUTION_MODE, OP_EXECUTION_MODE_ID, OP_EXTENSION, OP_EXT_INST_IMPORT,
    OP_MEMBER_DECORATE, OP_MEMBER_DECORATE_STRING, OP_MEMBER_NAME, OP_MEMORY_MODEL, OP_NAME,
    OP_STRING,
};
use crate::tables::{id_map_get, id_map_insert, id_map_keys, id_map_new, id_map_remove};
use rustc_hash::FxHashMap;
use vstd::prelude::*;
use vstd::string::*;

verus! {

broadcast use vstd::std_specs::hash::group_hash_axioms;

/// The magic number that opens every module, in the reader's byte order.
pub const MAGIC: u32 = 0x0723_0203;

/// The section of a module that an instruction belongs to. Sections follow
/// each other in the order of the variants.
#[derive(Clone, Copy, Debug, PartialEq, Eq, Structural)]
pub enum SectionTag {
    Capability,
    Extension,
    ExtInstImport,
    MemoryModel,
    EntryPoint,
    ExecutionMode,
    DebugStringAndSource,
    Other,
}

impl SectionTag {
    /// The place of the section in a module, from 0.
    pub open spec fn spec_rank(self) -> u8 {
        match self {
            SectionTag::Capability => 0,
            SectionTag::Extension => 1,
            SectionTag::ExtInstImport => 2,
            SectionTag::MemoryModel => 3,
            SectionTag::EntryPoint => 4,
            SectionTag::ExecutionMode => 5,
            SectionTag::DebugStringAndSource => 6,
            SectionTag::Other => 7,
        }
    }

    /// The place of the section in a module, from 0.
    #[verifier::when_used_as_spec(spec_rank)]
    pub fn rank(self) -> (r: u8)
        ensures
            r == self.spec_rank(),
    {
        match self {
            SectionTag::Capability => 0,
            SectionTag::Extension => 1,
            SectionTag::ExtInstImport => 2,
            SectionTag::MemoryModel => 3,
            SectionTag::EntryPoint => 4,
            SectionTag::ExecutionMode => 5,
            SectionTag::DebugStringAndSource => 6,
            SectionTag::Other => 7,
        }
    }
}

/// What lowering does with an instruction, by its opcode.
#[derive(Clone, Copy, Debug, PartialEq, Eq, Structural)]
pub enum InstClass {
    Capability,
    Extension,
    ExtInstImport,
    MemoryModel,
    DebugString,
    EntryPoint,
    Annotation,
    Other,
}

/// Whether the opcode is one of the two execution-mode instructions.
pub open spec fn is_execution_mode(opcode: u16) -> bool {
    opcode == OP_EXECUTION_MODE || opcode == OP_EXECUTION_MODE_ID
}

/// Whether the opcode is an execution mode, a name or a decoration.
pub open spec fn is_annotation(opcode: u16) -> bool {
    ||| is_execution_mode(opcode)
    ||| opcode == OP_NAME
    ||| opcode == OP_MEMBER_NAME
    ||| opcode == OP_DECORATE
    ||| opcode == OP_MEMBER_DECORATE
    ||| opcode == OP_DECORATE_ID
    ||| opcode == OP_DECORATE_STRING
    ||| opcode == OP_MEMBER_DECORATE_STRING
}

/// What lowering does with an instruction of the given opcode.
pub open spec fn class_of(opcode: u16) -> InstClass {
    if opcode == OP_CAPABILITY {
        InstClass::Capability
    } else if opcode == OP_EXTENSION {
        InstClass::Extension
    } else if opcode == OP_EXT_INST_IMPORT {
        InstClass::ExtInstImport
    } else if opcode == OP_MEMORY_MODEL {
        InstClass::MemoryModel
    } else if opcode == OP_STRING {
        InstClass::DebugString
    } else if opcode == OP_ENTRY_POINT {
        InstClass::EntryPoint
    } else if is_annotation(opcode) {
        InstClass::Annotation
    } else {
        InstClass::Other
    }
}

/// The section that an instruction of the given opcode belongs to.
pub open spec fn tag_of(opcode: u16) -> SectionTag {
    match class_of(opcode) {
        InstClass::Capability => SectionTag::Capability,
        InstClass::Extension => SectionTag::Extension,
        InstClass::ExtInstImport => SectionTag::ExtInstImport,
        InstClass::MemoryModel => SectionTag::MemoryModel,
        InstClass::DebugString => SectionTag::DebugStringAndSource,
        InstClass::EntryPoint => SectionTag::EntryPoint,
        InstClass::Annotation => if is_execution_mode(opcode) {
            SectionTag::ExecutionMode
        } else {
            SectionTag::Other
        },
        InstClass::Other => SectionTag::Other,
    }
}

/// What lowering does with an instruction of the given opcode.
pub fn classify(opcode: u16) -> (class: InstClass)
    ensures
        class == class_of(opcode),
{
    if opcode == OP_CAPABILITY {
        InstClass::Capability
    } else if opcode == OP_EXTENSION {
        InstClass::Extension
    } else if opcode == OP_EXT_INST_IMPORT {
        InstClass::ExtInstImport
    } else if opcode == OP_MEMORY_MODEL {
        InstClass::MemoryModel
    } else if opcode == OP_STRING {
        InstClass::DebugString
    } else if opcode == OP_ENTRY_POINT {
        InstClass::EntryPoint
    } else if opcode == OP_EXECUTION_MODE || opcode == OP_EXECUTION_MODE_ID || opcode == OP_NAME
        || opcode == OP_MEMBER_NAME || opcode == OP_DECORATE || opcode == OP_MEMBER_DECORATE
        || opcode == OP_DECORATE_ID || opcode == OP_DECORATE_STRING || opcode
        == OP_MEMBER_DECORATE_STRING {
        InstClass::Annotation
    } else {
        InstClass::Other
    }
}

/// The section that an instruction of the given opcode belongs to.
pub fn section_tag(opcode: u16) -> (tag: SectionTag)
    ensures
        tag == tag_of(opcode),
{
    match classify(opcode) {
        InstClass::Capability => SectionTag::Capability,
        InstClass::Extension => SectionTag::Extension,
        InstClass::ExtInstImport => SectionTag::ExtInstImport,
        InstClass::MemoryModel => SectionTag::MemoryModel,
        InstClass::DebugString => SectionTag::DebugStringAndSource,
        InstClass::EntryPoint => SectionTag::EntryPoint,
        InstClass::Annotation => if opcode == OP_EXECUTION_MODE || opcode == OP_EXECUTION_MODE_ID {
            SectionTag::ExecutionMode
        } else {
            SectionTag::Other
        },
        InstClass::Other => SectionTag::Other,
    }
}

/// Why lowering rejected a module.
#[derive(Debug, PartialEq, Eq)]
pub enum LowerError {
    /// The version word is not of the form (0, major, minor, 0).
    MalformedVersion { version: u32 },
    /// The instruction schema is not 0.
    UnknownInstSchema { schema: u32 },
    /// The ID bound is 0.
    ZeroIdBound,
    /// The literal string of the instruction is not UTF-8: its bytes, and why
    /// they are not, in the standard library's words.
    InvalidLiteralString { opcode: u16, bytes: Vec<u8>, error: String },
    /// A second memory-model instruction.
    DuplicateMemoryModel,
    /// An annotation with an ID among its parameters.
    UnsupportedIdInDecoration { opcode: u16 },
    /// An instruction of section `next` behind one of the later section `prev`.
    OutOfOrder { opcode: u16, next: SectionTag, prev: SectionTag },
    /// No memory-model instruction.
    MissingMemoryModel,
    /// Annotations whose targets no instruction defined: the targets, ascending.
    DecoratedIdsNeverDefined { ids: Vec<u32> },
}

/// The mathematical value of a [`LowerError`].
pub enum LowerErrorView {
    MalformedVersion { version: u32 },
    UnknownInstSchema { schema: u32 },
    ZeroIdBound,
    InvalidLiteralString { opcode: u16, bytes: Seq<u8>, error: Seq<char> },
    DuplicateMemoryModel,
    UnsupportedIdInDecoration { opcode: u16 },
    OutOfOrder { opcode: u16, next: SectionTag, prev: SectionTag },
    MissingMemoryModel,
    DecoratedIdsNeverDefined { ids: Set<u32> },
}

impl View for LowerError {
    type V = LowerErrorView;

    open spec fn view(&self) -> LowerErrorView {
        match *self {
            LowerError::MalformedVersion { version } => LowerErrorView::MalformedVersion {
                version,
            },
            LowerError::UnknownInstSchema { schema } => LowerErrorView::UnknownInstSchema {
                schema,
            },
            LowerError::ZeroIdBound => LowerErrorView::ZeroIdBound,
            LowerError::InvalidLiteralString {
                opcode,
                bytes,
                error,
            } => LowerErrorView::InvalidLiteralString { opcode, bytes: bytes@, error: error@ },
            LowerError::DuplicateMemoryModel => LowerErrorView::DuplicateMemoryModel,
            LowerError::UnsupportedIdInDecoration {
                opcode,
            } => LowerErrorView::UnsupportedIdInDecoration { opcode },
            LowerError::OutOfOrder { opcode, next, prev } => LowerErrorView::OutOfOrder {
                opcode,
                next,
                prev,
            },
            LowerError::MissingMemoryModel => LowerErrorView::MissingMemoryModel,
            LowerError::DecoratedIdsNeverDefined {
                ids,
            } => LowerErrorView::DecoratedIdsNeverDefined { ids: ids@.to_set() },
        }
    }
}

impl LowerError {
    /// A list of undefined targets is in strictly ascending order.
    pub open spec fn wf(&self) -> bool {
        match *self {
            LowerError::DecoratedIdsNeverDefined { ids } => forall|i: int, j: int|
                0 <= i < j < ids@.len() ==> ids@[i] < ids@[j],
            _ => true,
        }
    }
}

/// The character of a digit below sixteen, in lower case.
pub open spec fn digit_char(d: int) -> char {
    if d < 10 {
        ((48 + d) as u8) as char
    } else {
        ((87 + d) as u8) as char
    }
}

/// A number in decimal digits, without leading zeros.
pub open spec fn decimal(n: nat) -> Seq<char>
    decreases n,
{
    if n < 10 {
        seq![digit_char(n as int)]
    } else {
        decimal(n / 10).push(digit_char((n % 10) as int))
    }
}

/// The lowest `digits` hexadecimal digits of a number, highest first.
pub open spec fn hexadecimal(n: nat, digits: nat) -> Seq<char>
    decreases digits,
{
    if digits == 0 {
        Seq::empty()
    } else {
        hexadecimal(n / 16, (digits - 1) as nat).push(digit_char((n % 16) as int))
    }
}

/// The items of a list in decimal digits, with `, ` between them.
pub open spec fn decimal_list(items: Seq<nat>) -> Seq<char>
    decreases items.len(),
{
    if items.len() == 0 {
        Seq::empty()
    } else if items.len() == 1 {
        decimal(items[0])
    } else {
        decimal_list(items.drop_last()) + ", "@ + decimal(items.last())
    }
}

/// The digit below sixteen as a string.
fn digit_str(d: u32) -> (s: &'static str)
    requires
        d < 16,
    ensures
        s@ == seq![digit_char(d as int)],
{
    proof {
        reveal_strlit("0");
        reveal_strlit("1");
        reveal_strlit("2");
        reveal_strlit("3");
        reveal_strlit("4");
        reveal_strlit("5");
        reveal_strlit("6");
        reveal_strlit("7");
        reveal_strlit("8");
        reveal_strlit("9");
        reveal_strlit("a");
        reveal_strlit("b");
        reveal_strlit("c");
        reveal_strlit("d");
        reveal_strlit("e");
        reveal_strlit("f");
    }
    let s = if d == 0 {
        "0"
    } else if d == 1 {
        "1"
    } else if d == 2 {
        "2"
    } else if d == 3 {
        "3"
    } else if d == 4 {
        "4"
    } else if d == 5 {
        "5"
    } else if d == 6 {
        "6"
    } else if d == 7 {
        "7"
    } else if d == 8 {
        "8"
    } else if d == 9 {
        "9"
    } else if d == 10 {
        "a"
    } else if d == 11 {
        "b"
    } else if d == 12 {
        "c"
    } else if d == 13 {
        "d"
    } else if d == 14 {
        "e"
    } else {
        "f"
    };
    assert(s@ =~= seq![digit_char(d as int)]);
    s
}

/// Appends a number in decimal digits.
fn push_decimal(text: &mut String, n: u32)
    ensures
        final(text)@ == old(text)@ + decimal(n as nat),
    decreases n,
{
    if n >= 10 {
        push_decimal(text, n / 10);
    }
    text.append(digit_str(n % 10));
    proof {
        if n >= 10 {
            assert(text@ =~= old(text)@ + decimal(n as nat));
        } else {
            assert(text@ =~= old(text)@ + decimal(n as nat));
        }
    }
}

/// Appends the lowest `digits` hexadecimal digits of a number.
fn push_hexadecimal(text: &mut String, n: u32, digits: u32)
    ensures
        final(text)@ == old(text)@ + hexadecimal(n as nat, digits as nat),
    decreases digits,
{
    if digits > 0 {
        push_hexadecimal(text, n / 16, digits - 1);
        text.append(digit_str(n % 16));
        proof {
            assert(text@ =~= old(text)@ + hexadecimal(n as nat, digits as nat));
        }
    } else {
        proof {
            assert(text@ =~= old(text)@ + hexadecimal(n as nat, digits as nat));
        }
    }
}

/// The numbers that a list of identifiers holds.
pub open spec fn id_numbers(ids: Seq<u32>) -> Seq<nat> {
    Seq::new(ids.len(), |i: int| ids[i] as nat)
}

/// The numbers that a list of bytes holds.
pub open spec fn byte_numbers(bytes: Seq<u8>) -> Seq<nat> {
    Seq::new(bytes.len(), |i: int| bytes[i] as nat)
}

/// Appends the identifiers in decimal digits, with `, ` between them.
fn push_id_list(text: &mut String, ids: &Vec<u32>)
    ensures
        final(text)@ == old(text)@ + decimal_list(id_numbers(ids@)),
{
    let ghost numbers = id_numbers(ids@);
    let mut i: usize = 0;
    proof {
        assert(numbers.take(0) =~= Seq::<nat>::empty());
        assert(text@ =~= old(text)@ + decimal_list(numbers.take(0)));
    }
    while i < ids.len()
        invariant
            i <= ids@.len(),
            numbers == id_numbers(ids@),
            text@ == old(text)@ + decimal_list(numbers.take(i as int)),
        decreases ids@.len() - i,
    {
        let ghost before = text@;
        if i > 0 {
            text.append(", ");
        }
        push_decimal(text, ids[i]);
        proof {
            let upto = numbers.take(i + 1);
            assert(upto.drop_last() =~= numbers.take(i as int));
            assert(upto.last() == ids@[i as int] as nat);
            if i > 0 {
                assert(text@ =~= old(text)@ + decimal_list(upto));
            } else {
                assert(decimal_list(numbers.take(0)) =~= Seq::<char>::empty());
                assert(text@ =~= old(text)@ + decimal_list(upto));
            }
        }
        i += 1;
    }
    proof {
        assert(numbers.take(ids@.len() as int) =~= numbers);
    }
}

/// Appends the bytes in decimal digits, with `, ` between them.
fn push_byte_list(text: &mut String, bytes: &Vec<u8>)
    ensures
        final(text)@ == old(text)@ + decimal_list(byte_numbers(bytes@)),
{
    let ghost numbers = byte_numbers(bytes@);
    let mut i: usize = 0;
    proof {
        assert(numbers.take(0) =~= Seq::<nat>::empty());
        assert(text@ =~= old(text)@ + decimal_list(numbers.take(0)));
    }
    while i < bytes.len()
        invariant
            i <= bytes@.len(),
            numbers == byte_numbers(bytes@),
            text@ == old(text)@ + decimal_list(numbers.take(i as int)),
        decreases bytes@.len() - i,
    {
        if i > 0 {
            text.append(", ");
        }
        push_decimal(text, bytes[i] as u32);
        proof {
            let upto = numbers.take(i + 1);
            assert(upto.drop_last() =~= numbers.take(i as int));
            assert(upto.last() == bytes@[i as int] as nat);
            if i > 0 {
                assert(text@ =~= old(text)@ + decimal_list(upto));
            } else {
                assert(decimal_list(numbers.take(0)) =~= Seq::<char>::empty());
                assert(text@ =~= old(text)@ + decimal_list(upto));
            }
        }
        i += 1;
    }
    proof {
        assert(numbers.take(bytes@.len() as int) =~= numbers);
    }
}

/// The name of an instruction that lowering gives a meaning of its own.
pub open spec fn opcode_name_spec(opcode: u16) -> Seq<char> {
    if opcode == OP_CAPABILITY {
        "OpCapability"@
    } else if opcode == OP_EXTENSION {
        "OpExtension"@
    } else if opcode == OP_EXT_INST_IMPORT {
        "OpExtInstImport"@
    } else if opcode == OP_MEMORY_MODEL {
        "OpMemoryModel"@
    } else if opcode == OP_STRING {
        "OpString"@
    } else if opcode == OP_ENTRY_POINT {
        "OpEntryPoint"@
    } else if opcode == OP_EXECUTION_MODE {
        "OpExecutionMode"@
    } else if opcode == OP_EXECUTION_MODE_ID {
        "OpExecutionModeId"@
    } else if opcode == OP_NAME {
        "OpName"@
    } else if opcode == OP_MEMBER_NAME {
        "OpMemberName"@
    } else if opcode == OP_DECORATE {
        "OpDecorate"@
    } else if opcode == OP_MEMBER_DECORATE {
        "OpMemberDecorate"@
    } else if opcode == OP_DECORATE_ID {
        "OpDecorateId"@
    } else if opcode == OP_DECORATE_STRING {
        "OpDecorateString"@
    } else if opcode == OP_MEMBER_DECORATE_STRING {
        "OpMemberDecorateString"@
    } else {
        "Op"@ + decimal(opcode as nat)
    }
}

/// Appends the name of an instruction.
fn push_opcode_name(text: &mut String, opcode: u16)
    ensures
        final(text)@ == old(text)@ + opcode_name_spec(opcode),
{
    if opcode == OP_CAPABILITY {
        text.append("OpCapability");
    } else if opcode == OP_EXTENSION {
        text.append("OpExtension");
    } else if opcode == OP_EXT_INST_IMPORT {
        text.append("OpExtInstImport");
    } else if opcode == OP_MEMORY_MODEL {
        text.append("OpMemoryModel");
    } else if opcode == OP_STRING {
        text.append("OpString");
    } else if opcode == OP_ENTRY_POINT {
        text.append("OpEntryPoint");
    } else if opcode == OP_EXECUTION_MODE {
        text.append("OpExecutionMode");
    } else if opcode == OP_EXECUTION_MODE_ID {
        text.append("OpExecutionModeId");
    } else if opcode == OP_NAME {
        text.append("OpName");
    } else if opcode == OP_MEMBER_NAME {
        text.append("OpMemberName");
    } else if opcode == OP_DECORATE {
        text.append("OpDecorate");
    } else if opcode == OP_MEMBER_DECORATE {
        text.append("OpMemberDecorate");
    } else if opcode == OP_DECORATE_ID {
        text.append("OpDecorateId");
    } else if opcode == OP_DECORATE_STRING {
        text.append("OpDecorateString");
    } else if opcode == OP_MEMBER_DECORATE_STRING {
        text.append("OpMemberDecorateString");
    } else {
        text.append("Op");
        push_decimal(text, opcode as u32);
        proof {
            assert(text@ =~= old(text)@ + ("Op"@ + decimal(opcode as nat)));
        }
    }
}

impl SectionTag {
    /// The name of the section.
    pub open spec fn spec_name(self) -> Seq<char> {
        match self {
            SectionTag::Capability => "Capability"@,
            SectionTag::Extension => "Extension"@,
            SectionTag::ExtInstImport => "ExtInstImport"@,
            SectionTag::MemoryModel => "MemoryModel"@,
            SectionTag::EntryPoint => "EntryPoint"@,
            SectionTag::ExecutionMode => "ExecutionMode"@,
            SectionTag::DebugStringAndSource => "DebugStringAndSource"@,
            SectionTag::Other => "Other"@,
        }
    }

    /// The name of the section.
    pub fn name(self) -> (name: &'static str)
        ensures
            name@ == self.spec_name(),
    {
        match self {
            SectionTag::Capability => "Capability",
            SectionTag::Extension => "Extension",
            SectionTag::ExtInstImport => "ExtInstImport",
            SectionTag::MemoryModel => "MemoryModel",
            SectionTag::EntryPoint => "EntryPoint",
            SectionTag::ExecutionMode => "ExecutionMode",
            SectionTag::DebugStringAndSource => "DebugStringAndSource",
            SectionTag::Other => "Other",
        }
    }
}

impl LowerError {
    /// The reason in words.
    pub open spec fn reason_spec(&self) -> Seq<char> {
        match *self {
            LowerError::MalformedVersion { version } => "version 0x"@ + hexadecimal(
                version as nat,
                8,
            ) + " is not in expected (0.major.minor.0) form"@,
            LowerError::UnknownInstSchema { schema } => "unknown instruction schema "@ + decimal(
                schema as nat,
            ) + " - only 0 is supported"@,
            LowerError::ZeroIdBound => "ID bound 0"@,
            LowerError::InvalidLiteralString { opcode, bytes, error } => "in "@
                + opcode_name_spec(opcode) + ": "@ + error@ + " in ["@ + decimal_list(
                byte_numbers(bytes@),
            ) + "]"@,
            LowerError::DuplicateMemoryModel => "in OpMemoryModel: duplicate OpMemoryModel"@,
            LowerError::UnsupportedIdInDecoration { opcode } => "in "@ + opcode_name_spec(opcode)
                + ": unsupported decoration with ID"@,
            LowerError::OutOfOrder { opcode, next, prev } => "in "@ + opcode_name_spec(opcode)
                + ": out of order: "@ + next.spec_name() + " instructions must precede "@
                + prev.spec_name() + " instructions"@,
            LowerError::MissingMemoryModel => "missing OpMemoryModel"@,
            LowerError::DecoratedIdsNeverDefined { ids } => "decorated IDs never defined: {"@
                + decimal_list(id_numbers(ids@)) + "}"@,
        }
    }

    /// The reason in words.
    pub fn reason(&self) -> (text: String)
        ensures
            text@ == self.reason_spec(),
    {
        let mut text = String::new();
        match self {
            LowerError::MalformedVersion { version } => {
                text.append("version 0x");
                push_hexadecimal(&mut text, *version, 8);
                text.append(" is not in expected (0.major.minor.0) form");
            },
            LowerError::UnknownInstSchema { schema } => {
                text.append("unknown instruction schema ");
                push_decimal(&mut text, *schema);
                text.append(" - only 0 is supported");
            },
            LowerError::ZeroIdBound => {
                text.append("ID bound 0");
            },
            LowerError::InvalidLiteralString { opcode, bytes, error } => {
                text.append("in ");
                push_opcode_name(&mut text, *opcode);
                text.append(": ");
                text.append(error.as_str());
                text.append(" in [");
                push_byte_list(&mut text, bytes);
                text.append("]");
            },
            LowerError::DuplicateMemoryModel => {
                text.append("in OpMemoryModel: duplicate OpMemoryModel");
            },
            LowerError::UnsupportedIdInDecoration { opcode } => {
                text.append("in ");
                push_opcode_name(&mut text, *opcode);
                text.append(": unsupported decoration with ID");
            },
            LowerError::OutOfOrder { opcode, next, prev } => {
                text.append("in ");
                push_opcode_name(&mut text, *opcode);
                text.append(": out of order: ");
                text.append(next.name());
                text.append(" instructions must precede ");
                text.append(prev.name());
                text.append(" instructions");
            },
            LowerError::MissingMemoryModel => {
                text.append("missing OpMemoryModel");
            },
            LowerError::DecoratedIdsNeverDefined { ids } => {
                text.append("decorated IDs never defined: {");
                push_id_list(&mut text, ids);
                text.append("}");
            },
        }
        assert(text@ =~= self.reason_spec());
        text
    }

    /// The message of the error: that the module is malformed, and why.
    pub fn message(&self) -> (text: String)
        ensures
            text@ == "malformed SPIR-V module ("@ + self.reason_spec() + ")"@,
    {
        let reason = self.reason();
        invalid(reason.as_str())
    }
}

/// The message of a malformed module, from the reason.
pub fn invalid(reason: &str) -> (message: String)
    ensures
        message@ == "malformed SPIR-V module ("@ + reason@ + ")"@,
{
    let mut message = String::from_str("malformed SPIR-V module (");
    message.append(reason);
    message.append(")");
    message
}

/// The definition that lowering keeps of an ID.
#[derive(Debug)]
pub enum IdDef {
    /// An imported extended instruction set, with its name.
    SpvExtInstImport(String),
    /// A debug string, with its contents.
    SpvDebugString(String),
}

/// The mathematical value of an [`IdDef`].
pub enum IdDefView {
    SpvExtInstImport(Seq<char>),
    SpvDebugString(Seq<char>),
}

impl View for IdDef {
    type V = IdDefView;

    open spec fn view(&self) -> IdDefView {
        match *self {
            IdDef::SpvExtInstImport(name) => IdDefView::SpvExtInstImport(name@),
            IdDef::SpvDebugString(s) => IdDefView::SpvDebugString(s@),
        }
    }
}

/// The bytes of a version word, high byte first.
pub open spec fn version_bytes(version: u32) -> (u8, u8, u8, u8) {
    (
        (version / 0x100_0000) as u8,
        ((version / 0x1_0000) % 0x100) as u8,
        ((version / 0x100) % 0x100) as u8,
        (version % 0x100) as u8,
    )
}

/// The bytes of a version word, high byte first.
pub fn split_version(version: u32) -> (bytes: (u8, u8, u8, u8))
    ensures
        bytes == version_bytes(version),
{
    (
        (version / 0x100_0000) as u8,
        ((version / 0x1_0000) % 0x100) as u8,
        ((version / 0x100) % 0x100) as u8,
        (version % 0x100) as u8,
    )
}

/// The immediates among the operands, in order.
pub open spec fn imms_of(operands: Seq<Operand>) -> Seq<Imm>
    decreases operands.len(),
{
    if operands.len() == 0 {
        Seq::empty()
    } else {
        let front = imms_of(operands.drop_last());
        match operands.last() {
            Operand::Imm(imm) => front.push(imm),
            _ => front,
        }
    }
}

/// The IDs that the operands refer to, in order.
pub open spec fn ids_of(operands: Seq<Operand>) -> Seq<u32>
    decreases operands.len(),
{
    if operands.len() == 0 {
        Seq::empty()
    } else {
        let front = ids_of(operands.drop_last());
        match operands.last().spec_id() {
            Some(id) => front.push(id),
            None => front,
        }
    }
}

/// No immediate stands behind a reference.
pub open spec fn imms_before_ids(operands: Seq<Operand>) -> bool {
    forall|i: int, j: int|
        0 <= i < j < operands.len() && operands[i].spec_id() is Some ==> operands[j].spec_id()
            is Some
}

/// The operands of an entry point without its target: the first, then those
/// from the third on.
pub open spec fn entry_point_rest(operands: Seq<Operand>) -> Seq<Operand> {
    seq![operands[0]] + operands.skip(2)
}

/// Whether the instruction has the shape that its opcode calls for: the
/// result IDs that it has, and the operands at the places that lowering reads.
pub open spec fn shape_ok(inst: InstView) -> bool {
    match class_of(inst.opcode) {
        InstClass::Capability => {
            &&& inst.result_type_id is None
            &&& inst.result_id is None
            &&& inst.operands.len() == 1
            &&& inst.operands[0] matches Operand::Imm(imm) && imm is Short
        },
        InstClass::Extension => {
            &&& inst.result_type_id is None
            &&& inst.result_id is None
            &&& is_literal_string(inst.operands)
        },
        InstClass::ExtInstImport => {
            &&& inst.result_type_id is None
            &&& inst.result_id is Some
            &&& is_literal_string(inst.operands)
        },
        InstClass::MemoryModel => {
            &&& inst.result_type_id is None
            &&& inst.result_id is None
            &&& inst.operands.len() == 2
            &&& inst.operands[0] matches Operand::Imm(imm) && imm is Short
            &&& inst.operands[1] matches Operand::Imm(imm) && imm is Short
        },
        InstClass::DebugString => {
            &&& inst.result_type_id is None
            &&& inst.result_id is Some
            &&& is_literal_string(inst.operands)
        },
        InstClass::EntryPoint => {
            &&& inst.result_type_id is None
            &&& inst.result_id is None
            &&& inst.operands.len() >= 2
            &&& inst.operands[1].spec_id() is Some
            &&& imms_before_ids(entry_point_rest(inst.operands))
        },
        InstClass::Annotation => {
            &&& inst.result_type_id is None
            &&& inst.result_id is None
            &&& inst.operands.len() >= 1
            &&& inst.operands[0].spec_id() is Some
        },
        InstClass::Other => true,
    }
}

/// The state of lowering between two instructions, as a mathematical value.
pub struct LoweringView {
    pub dialect: DialectView,
    /// The section of the last instruction, if there was one.
    pub tag: Option<SectionTag>,
    pub has_memory_model: bool,
    /// The attributes that wait for their target to be defined, by target.
    pub pending: Map<u32, Set<AttrView>>,
    /// The definitions kept, by ID.
    pub id_defs: Map<u32, IdDefView>,
    pub top_level: Seq<MiscView>,
}

/// The state before the first instruction, from the five header words; or
/// why the header is rejected.
pub open spec fn begin_spec(header: Seq<u32>) -> Result<LoweringView, LowerErrorView> {
    let (reserved_hi, major, minor, reserved_lo) = version_bytes(header[1]);
    if reserved_hi != 0 || reserved_lo != 0 {
        Err(LowerErrorView::MalformedVersion { version: header[1] })
    } else if header[4] != 0 {
        Err(LowerErrorView::UnknownInstSchema { schema: header[4] })
    } else if header[3] == 0 {
        Err(LowerErrorView::ZeroIdBound)
    } else {
        Ok(
            LoweringView {
                dialect: DialectView {
                    version_major: major,
                    version_minor: minor,
                    original_generator_magic: header[2],
                    original_id_bound: header[3],
                    capabilities: Set::empty(),
                    extensions: Set::empty(),
                    addressing_model: 0,
                    memory_model: 0,
                },
                tag: None,
                has_memory_model: false,
                pending: Map::empty(),
                id_defs: Map::empty(),
                top_level: Seq::empty(),
            },
        )
    }
}

/// The attributes that wait for `target`, with `attr` added.
pub open spec fn add_pending(
    pending: Map<u32, Set<AttrView>>,
    target: u32,
    attr: AttrView,
) -> Map<u32, Set<AttrView>> {
    let waiting = if pending.contains_key(target) {
        pending[target]
    } else {
        Set::empty()
    };
    pending.insert(target, waiting.insert(attr))
}

/// The input that an operand becomes: an ID of which a definition is kept is
/// replaced by that definition.
pub open spec fn resolve_operand(id_defs: Map<u32, IdDefView>, operand: Operand) -> MiscInputView {
    match operand {
        Operand::Imm(imm) => MiscInputView::SpvImm(imm),
        Operand::Id(id) | Operand::ForwardIdRef(id) => if id_defs.contains_key(id) {
            match id_defs[id] {
                IdDefView::SpvExtInstImport(name) => MiscInputView::SpvExtInstImport(name),
                IdDefView::SpvDebugString(s) => MiscInputView::SpvDebugString(s),
            }
        } else {
            MiscInputView::SpvUntrackedId(id)
        },
    }
}

/// The top-level item that an instruction of no special meaning becomes.
pub open spec fn misc_of(st: LoweringView, inst: InstView) -> MiscView {
    MiscView {
        kind: MiscKind::SpvInst { opcode: inst.opcode },
        output: match inst.result_id {
            Some(result_id) => Some(
                MiscOutput::SpvResult { result_type_id: inst.result_type_id, result_id },
            ),
            None => None,
        },
        inputs: Seq::new(
            inst.operands.len(),
            |i: int| resolve_operand(st.id_defs, inst.operands[i]),
        ),
        attrs: match inst.result_id {
            Some(result_id) => if st.pending.contains_key(result_id) {
                Some(st.pending[result_id])
            } else {
                None
            },
            None => None,
        },
    }
}

/// What an instruction does to the state, before its section is checked.
pub open spec fn apply_spec(st: LoweringView, inst: InstView) -> Result<
    LoweringView,
    LowerErrorView,
> {
    match class_of(inst.opcode) {
        InstClass::Capability => Ok(
            LoweringView {
                dialect: DialectView {
                    capabilities: st.dialect.capabilities.insert(
                        operand_words(inst.operands)[0],
                    ),
                    ..st.dialect
                },
                ..st
            },
        ),
        InstClass::Extension => match decode_literal(literal_bytes(inst.operands)) {
            Ok(name) => Ok(
                LoweringView {
                    dialect: DialectView {
                        extensions: st.dialect.extensions.insert(name),
                        ..st.dialect
                    },
                    ..st
                },
            ),
            Err(bytes) => Err(
                LowerErrorView::InvalidLiteralString {
                    opcode: inst.opcode,
                    bytes,
                    error: utf8_error_text(bytes),
                },
            ),
        },
        InstClass::ExtInstImport => match decode_literal(literal_bytes(inst.operands)) {
            Ok(name) => Ok(
                LoweringView {
                    id_defs: st.id_defs.insert(
                        inst.result_id.unwrap(),
                        IdDefView::SpvExtInstImport(name),
                    ),
                    ..st
                },
            ),
            Err(bytes) => Err(
                LowerErrorView::InvalidLiteralString {
                    opcode: inst.opcode,
                    bytes,
                    error: utf8_error_text(bytes),
                },
            ),
        },
        InstClass::MemoryModel => if st.has_memory_model {
            Err(LowerErrorView::DuplicateMemoryModel)
        } else {
            Ok(
                LoweringView {
                    dialect: DialectView {
                        addressing_model: operand_words(inst.operands)[0],
                        memory_model: operand_words(inst.operands)[1],
                        ..st.dialect
                    },
                    has_memory_model: true,
                    ..st
                },
            )
        },
        InstClass::DebugString => match decode_literal(literal_bytes(inst.operands)) {
            Ok(s) => Ok(
                LoweringView {
                    id_defs: st.id_defs.insert(
                        inst.result_id.unwrap(),
                        IdDefView::SpvDebugString(s),
                    ),
                    ..st
                },
            ),
            Err(bytes) => Err(
                LowerErrorView::InvalidLiteralString {
                    opcode: inst.opcode,
                    bytes,
                    error: utf8_error_text(bytes),
                },
            ),
        },
        InstClass::EntryPoint => Ok(
            LoweringView {
                pending: add_pending(
                    st.pending,
                    inst.operands[1].spec_id().unwrap(),
                    AttrView::SpvEntryPoint {
                        params: imms_of(entry_point_rest(inst.operands)),
                        interface_ids: ids_of(entry_point_rest(inst.operands)),
                    },
                ),
                ..st
            },
        ),
        InstClass::Annotation => if ids_of(inst.operands.skip(1)).len() > 0 {
            Err(LowerErrorView::UnsupportedIdInDecoration { opcode: inst.opcode })
        } else {
            Ok(
                LoweringView {
                    pending: add_pending(
                        st.pending,
                        inst.operands[0].spec_id().unwrap(),
                        AttrView::SpvAnnotation {
                            opcode: inst.opcode,
                            params: imms_of(inst.operands.skip(1)),
                        },
                    ),
                    ..st
                },
            )
        },
        InstClass::Other => Ok(
            LoweringView {
                top_level: st.top_level.push(misc_of(st, inst)),
                pending: match inst.result_id {
                    Some(result_id) => st.pending.remove(result_id),
                    None => st.pending,
                },
                ..st
            },
        ),
    }
}

/// The state after an instruction, or why the instruction is rejected: what
/// the instruction itself does comes first, then the check that its section
/// is not an earlier one than that of the instruction before.
pub open spec fn step_spec(st: LoweringView, inst: InstView) -> Result<
    LoweringView,
    LowerErrorView,
> {
    match apply_spec(st, inst) {
        Err(e) => Err(e),
        Ok(applied) => {
            let next = tag_of(inst.opcode);
            match st.tag {
                Some(prev) if prev.spec_rank() > next.spec_rank() => Err(
                    LowerErrorView::OutOfOrder { opcode: inst.opcode, next, prev },
                ),
                _ => Ok(LoweringView { tag: Some(next), ..applied }),
            }
        },
    }
}

/// The state after a sequence of instructions, or the first rejection.
pub open spec fn run_spec(st: LoweringView, insts: Seq<InstView>) -> Result<
    LoweringView,
    LowerErrorView,
>
    decreases insts.len(),
{
    if insts.len() == 0 {
        Ok(st)
    } else {
        match run_spec(st, insts.drop_last()) {
            Err(e) => Err(e),
            Ok(before) => step_spec(before, insts.last()),
        }
    }
}

/// The module that the state after the last instruction gives, or why the
/// module is rejected at its end.
pub open spec fn finish_spec(st: LoweringView, context: u64) -> Result<
    ModuleView,
    LowerErrorView,
> {
    if !st.has_memory_model {
        Err(LowerErrorView::MissingMemoryModel)
    } else if st.pending.dom() != Set::<u32>::empty() {
        Err(LowerErrorView::DecoratedIdsNeverDefined { ids: st.pending.dom() })
    } else {
        Ok(
            ModuleView {
                context,
                dialect: st.dialect,
                top_level: st.top_level,
                exports: Seq::empty(),
                global_vars: Map::empty(),
                funcs: Map::empty(),
            },
        )
    }
}

/// The module of the context of identity `context` that a header and a
/// sequence of instructions lower to, or why they are rejected.
pub open spec fn lower_spec(header: Seq<u32>, insts: Seq<InstView>, context: u64) -> Result<
    ModuleView,
    LowerErrorView,
> {
    match begin_spec(header) {
        Err(e) => Err(e),
        Ok(start) => match run_spec(start, insts) {
            Err(e) => Err(e),
            Ok(end) => finish_spec(end, context),
        },
    }
}

/// The attribute sets of a table, each by its value.
pub open spec fn pending_view(table: Map<u32, AttrSet>) -> Map<u32, Set<AttrView>> {
    Map::new(|id: u32| table.contains_key(id), |id: u32| table[id]@)
}

/// The definitions of a table, each by its value.
pub open spec fn id_defs_view(table: Map<u32, IdDef>) -> Map<u32, IdDefView> {
    Map::new(|id: u32| table.contains_key(id), |id: u32| table[id]@)
}

/// The top-level items of a list, each by its value.
pub open spec fn top_level_view(items: Seq<TopLevel>) -> Seq<MiscView> {
    Seq::new(items.len(), |i: int| items[i]@)
}

/// Every attribute set of the table holds no value twice.
pub open spec fn pending_wf(table: Map<u32, AttrSet>) -> bool {
    forall|id: u32| table.contains_key(id) ==> (#[trigger] table[id]).wf()
}

/// The word of an immediate operand; 0 for a reference.
fn operand_word(operand: Operand) -> (w: u32)
    ensures
        w == (match operand {
            Operand::Imm(imm) => imm.spec_word(),
            _ => 0u32,
        }),
{
    match operand {
        Operand::Imm(imm) => imm.word(),
        _ => 0,
    }
}

/// Appends an operand to the list of its kind.
fn push_operand(params: &mut ImmList, ids: &mut IdList, operand: Operand)
    ensures
        match operand {
            Operand::Imm(imm) => imm_list_items(*final(params)) == imm_list_items(
                *old(params),
            ).push(imm),
            _ => imm_list_items(*final(params)) == imm_list_items(*old(params)),
        },
        match operand.spec_id() {
            Some(id) => id_list_items(*final(ids)) == id_list_items(*old(ids)).push(id),
            None => id_list_items(*final(ids)) == id_list_items(*old(ids)),
        },
{
    match operand {
        Operand::Imm(imm) => params.push(imm),
        Operand::Id(id) => ids.push(id),
        Operand::ForwardIdRef(id) => ids.push(id),
    }
}

proof fn lemma_ids_of_prefix(operands: Seq<Operand>, n: int)
    requires
        0 <= n <= operands.len(),
    ensures
        ids_of(operands.take(n)).len() <= ids_of(operands).len(),
    decreases operands.len(),
{
    if n == operands.len() {
        assert(operands.take(n) =~= operands);
    } else {
        lemma_ids_of_prefix(operands.drop_last(), n);
        assert(operands.drop_last().take(n) =~= operands.take(n));
    }
}

/// The attribute of an entry point, from the operands of its instruction.
fn entry_point_attr(operands: &Vec<Operand>) -> (attr: Attr)
    requires
        operands@.len() >= 2,
    ensures
        attr@ == (AttrView::SpvEntryPoint {
            params: imms_of(entry_point_rest(operands@)),
            interface_ids: ids_of(entry_point_rest(operands@)),
        }),
{
    let mut params = ImmList::new();
    let mut interface_ids = IdList::new();
    let ghost first = seq![operands@[0]];
    push_operand(&mut params, &mut interface_ids, operands[0]);
    proof {
        assert(first.drop_last() =~= Seq::<Operand>::empty());
        assert(imms_of(first.drop_last()) =~= Seq::<Imm>::empty());
        assert(ids_of(first.drop_last()) =~= Seq::<u32>::empty());
        assert(first + operands@.subrange(2, 2) =~= first);
    }
    let mut i: usize = 2;
    while i < operands.len()
        invariant
            2 <= i <= operands@.len(),
            first == seq![operands@[0]],
            imm_list_items(params) == imms_of(first + operands@.subrange(2, i as int)),
            id_list_items(interface_ids) == ids_of(first + operands@.subrange(2, i as int)),
        decreases operands@.len() - i,
    {
        push_operand(&mut params, &mut interface_ids, operands[i]);
        proof {
            let upto = first + operands@.subrange(2, i + 1);
            assert(upto.drop_last() =~= first + operands@.subrange(2, i as int));
            assert(upto.last() == operands@[i as int]);
        }
        i += 1;
    }
    assert(operands@.subrange(2, operands@.len() as int) =~= operands@.skip(2));
    Attr::SpvEntryPoint { params, interface_ids }
}

/// The immediates behind the target of an annotation, or `None` where a
/// reference stands among them.
fn annotation_params(operands: &Vec<Operand>) -> (r: Option<ImmList>)
    requires
        operands@.len() >= 1,
    ensures
        match r {
            Some(params) => ids_of(operands@.skip(1)).len() == 0 && imm_list_items(params)
                == imms_of(operands@.skip(1)),
            None => ids_of(operands@.skip(1)).len() > 0,
        },
{
    let mut params = ImmList::new();
    let ghost rest = operands@.skip(1);
    let mut i: usize = 1;
    proof {
        assert(rest.take(0) =~= Seq::<Operand>::empty());
    }
    while i < operands.len()
        invariant
            1 <= i <= operands@.len(),
            rest == operands@.skip(1),
            imm_list_items(params) == imms_of(rest.take(i - 1)),
            ids_of(rest.take(i - 1)).len() == 0,
        decreases operands@.len() - i,
    {
        proof {
            assert(rest.take(i as int).drop_last() =~= rest.take(i - 1));
            assert(rest.take(i as int).last() == operands@[i as int]);
        }
        match operands[i] {
            Operand::Imm(imm) => params.push(imm),
            _ => {
                proof {
                    lemma_ids_of_prefix(rest, i as int);
                }
                return None;
            },
        }
        i += 1;
    }
    assert(rest.take(operands@.len() - 1) =~= rest);
    Some(params)
}

/// Adds `attr` to the attributes that wait for `target`.
fn add_pending_attr(pending: &mut FxHashMap<u32, AttrSet>, target: u32, attr: Attr)
    requires
        pending_wf(old(pending)@),
    ensures
        pending_wf(final(pending)@),
        pending_view(final(pending)@) == add_pending(pending_view(old(pending)@), target, attr@),
{
    let mut waiting = match id_map_remove(pending, target) {
        Some(set) => set,
        None => AttrSet::new(),
    };
    waiting.insert(attr);
    id_map_insert(pending, target, waiting);
    assert(pending_view(pending@) =~= add_pending(pending_view(old(pending)@), target, attr@));
}

/// The inputs that the operands of an instruction become.
fn resolve_inputs(operands: &Vec<Operand>, id_defs: &FxHashMap<u32, IdDef>) -> (inputs: Vec<
    MiscInput,
>)
    ensures
        inputs@.len() == operands@.len(),
        forall|i: int|
            0 <= i < operands@.len() ==> (#[trigger] inputs@[i])@ == resolve_operand(
                id_defs_view(id_defs@),
                operands@[i],
            ),
{
    let mut inputs: Vec<MiscInput> = Vec::new();
    let mut i: usize = 0;
    while i < operands.len()
        invariant
            i <= operands@.len(),
            inputs@.len() == i,
            forall|j: int|
                0 <= j < i ==> (#[trigger] inputs@[j])@ == resolve_operand(
                    id_defs_view(id_defs@),
                    operands@[j],
                ),
        decreases operands@.len() - i,
    {
        let input = match operands[i] {
            Operand::Imm(imm) => MiscInput::SpvImm(imm),
            Operand::Id(id) | Operand::ForwardIdRef(id) => match id_map_get(id_defs, id) {
                Some(IdDef::SpvExtInstImport(name)) => MiscInput::SpvExtInstImport(name.clone()),
                Some(IdDef::SpvDebugString(s)) => MiscInput::SpvDebugString(s.clone()),
                None => MiscInput::SpvUntrackedId(id),
            },
        };
        inputs.push(input);
        i += 1;
    }
    inputs
}

/// The items of `ids` in ascending order.
fn sorted_ids(ids: Vec<u32>) -> (sorted: Vec<u32>)
    requires
        ids@.no_duplicates(),
    ensures
        sorted@.to_set() == ids@.to_set(),
        forall|i: int, j: int| 0 <= i < j < sorted@.len() ==> sorted@[i] < sorted@[j],
{
    let mut sorted: Vec<u32> = Vec::new();
    let mut n: usize = 0;
    while n < ids.len()
        invariant
            n <= ids@.len(),
            ids@.no_duplicates(),
            sorted@.to_set() == ids@.take(n as int).to_set(),
            forall|i: int, j: int| 0 <= i < j < sorted@.len() ==> sorted@[i] < sorted@[j],
        decreases ids@.len() - n,
    {
        let id = ids[n];
        let mut at: usize = 0;
        while at < sorted.len() && sorted[at] < id
            invariant
                at <= sorted@.len(),
                forall|i: int| 0 <= i < at ==> sorted@[i] < id,
            decreases sorted@.len() - at,
        {
            at += 1;
        }
        let ghost before = sorted@;
        proof {
            // `id` is not among the items sorted so far.
            assert(!before.contains(id)) by {
                if before.contains(id) {
                    let done = ids@.take(n as int);
                    assert(before.to_set().contains(id));
                    assert(done.contains(id));
                    let k = choose|k: int| 0 <= k < done.len() && done[k] == id;
                    assert(ids@[k] == ids@[n as int]);
                }
            }
            if at < before.len() {
                assert(before.contains(before[at as int]));
            }
        }
        sorted.insert(at, id);
        proof {
            let done = ids@.take(n as int);
            let upto = ids@.take(n + 1);
            let after = sorted@;
            assert forall|x: u32| after.to_set().contains(x) <==> upto.to_set().contains(x) by {
                if after.contains(x) {
                    let k = choose|k: int| 0 <= k < after.len() && after[k] == x;
                    if k < at {
                        assert(before[k] == x);
                        assert(before.to_set().contains(x));
                    } else if k > at {
                        assert(before[k - 1] == x);
                        assert(before.to_set().contains(x));
                    }
                    if x != id {
                        assert(done.contains(x));
                        let m = choose|m: int| 0 <= m < done.len() && done[m] == x;
                        assert(upto[m] == x);
                    } else {
                        assert(upto[n as int] == x);
                    }
                }
                if upto.contains(x) {
                    let m = choose|m: int| 0 <= m < upto.len() && upto[m] == x;
                    if m < n {
                        assert(done[m] == x);
                        assert(before.to_set().contains(x));
                        let k = choose|k: int| 0 <= k < before.len() && before[k] == x;
                        if k < at {
                            assert(after[k] == x);
                        } else {
                            assert(after[k + 1] == x);
                        }
                    } else {
                        assert(after[at as int] == x);
                    }
                }
            }
            assert(after.to_set() =~= upto.to_set());
        }
        n += 1;
    }
    assert(ids@.take(ids@.len() as int) =~= ids@);
    sorted
}

/// The state of lowering between two instructions.
#[derive(Debug)]
pub struct Lowering {
    dialect: Dialect,
    tag: Option<SectionTag>,
    has_memory_model: bool,
    pending_attrs: FxHashMap<u32, AttrSet>,
    id_defs: FxHashMap<u32, IdDef>,
    top_level: Vec<TopLevel>,
}

impl View for Lowering {
    type V = LoweringView;

    closed spec fn view(&self) -> LoweringView {
        LoweringView {
            dialect: self.dialect@,
            tag: self.tag,
            has_memory_model: self.has_memory_model,
            pending: pending_view(self.pending_attrs@),
            id_defs: id_defs_view(self.id_defs@),
            top_level: top_level_view(self.top_level@),
        }
    }
}

impl Lowering {
    /// The dialect, the waiting attribute sets and the top-level items are
    /// well-formed.
    pub closed spec fn wf(&self) -> bool {
        &&& self.dialect.wf()
        &&& pending_wf(self.pending_attrs@)
        &&& forall|i: int| 0 <= i < self.top_level@.len() ==> (#[trigger] self.top_level@[i]).wf()
    }

    /// The state before the first instruction, from the header.
    pub fn begin(header: &[u32; 5]) -> (r: Result<Lowering, LowerError>)
        requires
            header@[0] == MAGIC,
        ensures
            match r {
                Ok(st) => st.wf() && begin_spec(header@) == Ok::<LoweringView, LowerErrorView>(
                    st@,
                ),
                Err(e) => e.wf() && begin_spec(header@) == Err::<LoweringView, LowerErrorView>(
                    e@,
                ),
            },
    {
        let version = header[1];
        let generator_magic = header[2];
        let id_bound = header[3];
        let reserved_inst_schema = header[4];
        let (version_reserved_hi, version_major, version_minor, version_reserved_lo) =
            split_version(version);
        if version_reserved_lo != 0 || version_reserved_hi != 0 {
            return Err(LowerError::MalformedVersion { version });
        }
        if reserved_inst_schema != 0 {
            return Err(LowerError::UnknownInstSchema { schema: reserved_inst_schema });
        }
        if id_bound == 0 {
            return Err(LowerError::ZeroIdBound);
        }
        let st = Lowering {
            dialect: Dialect {
                version_major,
                version_minor,
                original_generator_magic: generator_magic,
                original_id_bound: id_bound,
                capabilities: CapabilitySet::new(),
                extensions: ExtensionSet::new(),
                addressing_model: 0,
                memory_model: 0,
            },
            tag: None,
            has_memory_model: false,
            pending_attrs: id_map_new(),
            id_defs: id_map_new(),
            top_level: Vec::new(),
        };
        proof {
            assert(st@.pending =~= Map::empty());
            assert(st@.id_defs =~= Map::empty());
            assert(st@.top_level =~= Seq::empty());
        }
        Ok(st)
    }

    /// What the instruction itself does to the state.
    fn apply(self, inst: &Inst) -> (r: Result<Lowering, LowerError>)
        requires
            self.wf(),
            shape_ok(inst@),
        ensures
            match r {
                Ok(st) => st.wf() && st.tag == self.tag && apply_spec(self@, inst@) == Ok::<
                    LoweringView,
                    LowerErrorView,
                >(st@),
                Err(e) => e.wf() && apply_spec(self@, inst@) == Err::<
                    LoweringView,
                    LowerErrorView,
                >(e@),
            },
    {
        let ghost before = self@;
        let Lowering {
            mut dialect,
            tag,
            mut has_memory_model,
            mut pending_attrs,
            mut id_defs,
            mut top_level,
        } = self;
        let opcode = inst.opcode;
        match classify(opcode) {
            InstClass::Capability => {
                let cap = operand_word(inst.operands[0]);
                dialect.capabilities.insert(cap);
            },
            InstClass::Extension => {
                match extract_literal_string(inst.operands.as_slice()) {
                    Ok(ext) => {
                        dialect.extensions.insert(ext);
                    },
                    Err(e) => {
                        return Err(
                            LowerError::InvalidLiteralString {
                                opcode,
                                bytes: e.bytes,
                                error: e.error,
                            },
                        );
                    },
                }
            },
            InstClass::ExtInstImport => {
                let id = inst.result_id.unwrap();
                match extract_literal_string(inst.operands.as_slice()) {
                    Ok(name) => {
                        id_map_insert(&mut id_defs, id, IdDef::SpvExtInstImport(name));
                    },
                    Err(e) => {
                        return Err(
                            LowerError::InvalidLiteralString {
                                opcode,
                                bytes: e.bytes,
                                error: e.error,
                            },
                        );
                    },
                }
            },
            InstClass::MemoryModel => {
                let addressing_model = operand_word(inst.operands[0]);
                let memory_model = operand_word(inst.operands[1]);
                if has_memory_model {
                    return Err(LowerError::DuplicateMemoryModel);
                }
                has_memory_model = true;
                dialect.addressing_model = addressing_model;
                dialect.memory_model = memory_model;
            },
            InstClass::DebugString => {
                let id = inst.result_id.unwrap();
                match extract_literal_string(inst.operands.as_slice()) {
                    Ok(s) => {
                        id_map_insert(&mut id_defs, id, IdDef::SpvDebugString(s));
                    },
                    Err(e) => {
                        return Err(
                            LowerError::InvalidLiteralString {
                                opcode,
                                bytes: e.bytes,
                                error: e.error,
                            },
                        );
                    },
                }
            },
            InstClass::EntryPoint => {
                let target_id = inst.operands[1].id().unwrap();
                let attr = entry_point_attr(&inst.operands);
                add_pending_attr(&mut pending_attrs, target_id, attr);
            },
            InstClass::Annotation => {
                let target_id = inst.operands[0].id().unwrap();
                match annotation_params(&inst.operands) {
                    Some(params) => {
                        add_pending_attr(
                            &mut pending_attrs,
                            target_id,
                            Attr::SpvAnnotation { opcode, params },
                        );
                    },
                    None => {
                        return Err(LowerError::UnsupportedIdInDecoration { opcode });
                    },
                }
            },
            InstClass::Other => {
                let inputs = resolve_inputs(&inst.operands, &id_defs);
                let (output, attrs) = match inst.result_id {
                    Some(result_id) => (
                        Some(
                            MiscOutput::SpvResult {
                                result_type_id: inst.result_type_id,
                                result_id,
                            },
                        ),
                        id_map_remove(&mut pending_attrs, result_id),
                    ),
                    None => (None, None),
                };
                let misc = Misc { kind: MiscKind::SpvInst { opcode }, output, inputs, attrs };
                proof {
                    assert(misc@.inputs =~= misc_of(before, inst@).inputs);
                    assert(misc@ == misc_of(before, inst@));
                }
                top_level.push(TopLevel::Misc(misc));
            },
        }
        let st = Lowering { dialect, tag, has_memory_model, pending_attrs, id_defs, top_level };
        proof {
            let expected = apply_spec(before, inst@)->Ok_0;
            assert(st@.pending =~= expected.pending);
            assert(st@.id_defs =~= expected.id_defs);
            assert(st@.top_level =~= expected.top_level);
        }
        Ok(st)
    }

    /// The state after the instruction, or why the instruction is rejected.
    pub fn step(self, inst: &Inst) -> (r: Result<Lowering, LowerError>)
        requires
            self.wf(),
            shape_ok(inst@),
        ensures
            match r {
                Ok(st) => st.wf() && step_spec(self@, inst@) == Ok::<LoweringView, LowerErrorView>(
                    st@,
                ),
                Err(e) => e.wf() && step_spec(self@, inst@) == Err::<LoweringView, LowerErrorView>(
                    e@,
                ),
            },
    {
        let prev_tag = self.tag;
        let next = section_tag(inst.opcode);
        match self.apply(inst) {
            Err(e) => Err(e),
            Ok(applied) => {
                match prev_tag {
                    Some(prev) => {
                        if prev.rank() > next.rank() {
                            return Err(
                                LowerError::OutOfOrder { opcode: inst.opcode, next, prev },
                            );
                        }
                    },
                    None => {},
                }
                let mut st = applied;
                st.tag = Some(next);
                Ok(st)
            },
        }
    }

    /// The module of the context `cx` that the state gives after the last
    /// instruction, or why the module is rejected at its end.
    pub fn finish(self, cx: &Context) -> (r: Result<Module, LowerError>)
        requires
            self.wf(),
        ensures
            match r {
                Ok(module) => module.wf() && module@.valid_in(cx@) && finish_spec(
                    self@,
                    cx@.id,
                ) == Ok::<ModuleView, LowerErrorView>(module@),
                Err(e) => e.wf() && finish_spec(self@, cx@.id) == Err::<
                    ModuleView,
                    LowerErrorView,
                >(e@),
            },
    {
        if !self.has_memory_model {
            return Err(LowerError::MissingMemoryModel);
        }
        let keys = id_map_keys(&self.pending_attrs);
        if keys.len() > 0 {
            let ids = sorted_ids(keys);
            proof {
                assert(keys@.to_set().contains(keys@[0]));
                assert(self@.pending.dom() =~= ids@.to_set());
            }
            return Err(LowerError::DecoratedIdsNeverDefined { ids });
        }
        proof {
            assert(self@.pending.dom() =~= Set::<u32>::empty());
        }
        let module = Module::new(cx, ModuleDialect::Spv(self.dialect), self.top_level);
        proof {
            assert(module@.top_level =~= self@.top_level);
        }
        Ok(module)
    }
}

/// Whether no immediate stands behind a reference among the operands of an
/// entry point, its target left out.
fn entry_point_in_order(operands: &Vec<Operand>) -> (r: bool)
    requires
        operands@.len() >= 2,
    ensures
        r == imms_before_ids(entry_point_rest(operands@)),
{
    let ghost rest = entry_point_rest(operands@);
    let mut seen_id = operands[0].id().is_some();
    let mut i: usize = 2;
    assert(rest[0] == operands@[0]);
    assert(rest.len() == operands@.len() - 1);
    while i < operands.len()
        invariant
            2 <= i <= operands@.len(),
            rest == entry_point_rest(operands@),
            seen_id == exists|k: int| 0 <= k < i - 1 && (#[trigger] rest[k]).spec_id() is Some,
            forall|a: int, b: int|
                0 <= a < b < i - 1 && rest[a].spec_id() is Some ==> rest[b].spec_id() is Some,
        decreases operands@.len() - i,
    {
        assert(rest[i - 1] == operands@[i as int]);
        let is_id = operands[i].id().is_some();
        if seen_id && !is_id {
            proof {
                let k = choose|k: int| 0 <= k < i - 1 && (#[trigger] rest[k]).spec_id() is Some;
                assert(rest[k].spec_id() is Some && !(rest[i - 1].spec_id() is Some));
            }
            return false;
        }
        proof {
            if is_id {
                assert(rest[i - 1].spec_id() is Some);
            }
        }
        seen_id = seen_id || is_id;
        i += 1;
    }
    true
}

/// Whether the instruction has the shape that its opcode calls for.
pub fn has_expected_shape(inst: &Inst) -> (r: bool)
    ensures
        r == shape_ok(inst@),
{
    let no_result_type = inst.result_type_id.is_none();
    let no_result = inst.result_id.is_none();
    match classify(inst.opcode) {
        InstClass::Capability => {
            no_result_type && no_result && inst.operands.len() == 1 && match inst.operands[0] {
                Operand::Imm(Imm::Short(_, _)) => true,
                _ => false,
            }
        },
        InstClass::Extension => {
            no_result_type && no_result && read_literal(inst.operands.as_slice()).is_some()
        },
        InstClass::ExtInstImport => {
            no_result_type && !no_result && read_literal(inst.operands.as_slice()).is_some()
        },
        InstClass::MemoryModel => {
            no_result_type && no_result && inst.operands.len() == 2 && match inst.operands[0] {
                Operand::Imm(Imm::Short(_, _)) => true,
                _ => false,
            } && match inst.operands[1] {
                Operand::Imm(Imm::Short(_, _)) => true,
                _ => false,
            }
        },
        InstClass::DebugString => {
            no_result_type && !no_result && read_literal(inst.operands.as_slice()).is_some()
        },
        InstClass::EntryPoint => {
            no_result_type && no_result && inst.operands.len() >= 2
                && inst.operands[1].id().is_some() && entry_point_in_order(&inst.operands)
        },
        InstClass::Annotation => {
            no_result_type && no_result && inst.operands.len() >= 1
                && inst.operands[0].id().is_some()
        },
        InstClass::Other => true,
    }
}

/// A binary module as its reader hands it over: the five header words, and
/// the instructions behind them.
#[derive(Debug)]
pub struct ModuleParser {
    pub header: [u32; 5],
    pub insts: Vec<Inst>,
}

/// The instructions of a list, each by its value.
pub open spec fn inst_views(insts: Seq<Inst>) -> Seq<InstView> {
    Seq::new(insts.len(), |i: int| insts[i]@)
}

proof fn lemma_run_rejects_prefix(st: LoweringView, insts: Seq<InstView>, n: int)
    requires
        0 <= n <= insts.len(),
        run_spec(st, insts.take(n)) is Err,
    ensures
        run_spec(st, insts) == run_spec(st, insts.take(n)),
    decreases insts.len(),
{
    if n == insts.len() {
        assert(insts.take(n) =~= insts);
    } else {
        assert(insts.drop_last().take(n) =~= insts.take(n));
        lemma_run_rejects_prefix(st, insts.drop_last(), n);
    }
}

impl Module {
    /// Lowers a binary module into a module of the context `cx`: the header
    /// is checked, then each instruction in turn updates the state, then the
    /// state is closed into the module.
    pub fn lower_from_spv_module_parser(cx: &Context, parser: ModuleParser) -> (r: Result<
        Module,
        LowerError,
    >)
        requires
            parser.header@[0] == MAGIC,
            forall|i: int| 0 <= i < parser.insts@.len() ==> shape_ok(#[trigger] parser.insts@[i]@),
        ensures
            match r {
                Ok(module) => module.wf() && module@.valid_in(cx@) && lower_spec(
                    parser.header@,
                    inst_views(parser.insts@),
                    cx@.id,
                ) == Ok::<ModuleView, LowerErrorView>(module@),
                Err(e) => e.wf() && lower_spec(
                    parser.header@,
                    inst_views(parser.insts@),
                    cx@.id,
                ) == Err::<ModuleView, LowerErrorView>(e@),
            },
    {
        let ghost insts = inst_views(parser.insts@);
        let mut st = match Lowering::begin(&parser.header) {
            Ok(st) => st,
            Err(e) => {
                return Err(e);
            },
        };
        let ghost start = st@;
        let mut i: usize = 0;
        proof {
            assert(insts.take(0) =~= Seq::<InstView>::empty());
        }
        while i < parser.insts.len()
            invariant
                i <= parser.insts@.len(),
                insts == inst_views(parser.insts@),
                forall|k: int|
                    0 <= k < parser.insts@.len() ==> shape_ok(#[trigger] parser.insts@[k]@),
                st.wf(),
                begin_spec(parser.header@) == Ok::<LoweringView, LowerErrorView>(start),
                run_spec(start, insts.take(i as int)) == Ok::<LoweringView, LowerErrorView>(st@),
            decreases parser.insts@.len() - i,
        {
            proof {
                assert(insts.take(i + 1).drop_last() =~= insts.take(i as int));
                assert(insts.take(i + 1).last() == parser.insts@[i as int]@);
            }
            match st.step(&parser.insts[i]) {
                Ok(next) => {
                    st = next;
                },
                Err(e) => {
                    proof {
                        lemma_run_rejects_prefix(start, insts, i + 1);
                    }
                    return Err(e);
                },
            }
            i += 1;
        }
        proof {
            assert(insts.take(insts.len() as int) =~= insts);
        }
        st.finish(cx)
    }

    /// Lowers the contents of a binary module file, its five header words and
    /// its instructions, into a module of the context `cx`.
    pub fn lower_from_spv_file(cx: &Context, header: [u32; 5], insts: Vec<Inst>) -> (r: Result<
        Module,
        LowerError,
    >)
        requires
            header@[0] == MAGIC,
            forall|i: int| 0 <= i < insts@.len() ==> shape_ok(#[trigger] insts@[i]@),
        ensures
            match r {
                Ok(module) => module.wf() && module@.valid_in(cx@) && lower_spec(
                    header@,
                    inst_views(insts@),
                    cx@.id,
                ) == Ok::<ModuleView, LowerErrorView>(module@),
                Err(e) => e.wf() && lower_spec(header@, inst_views(insts@), cx@.id) == Err::<
                    ModuleView,
                    LowerErrorView,
                >(e@),
            },
    {
        Module::lower_from_spv_module_parser(cx, ModuleParser { header, insts })
    }
}

/// A header is accepted exactly when the two outer bytes of its version word
/// and its schema word are zero and its ID bound is not; the two inner bytes
/// of the version word are then the major and the minor version.
pub proof fn lemma_header_accepted(header: Seq<u32>)
    requires
        header.len() == 5,
    ensures
        begin_spec(header) is Ok <==> header[1] / 0x100_0000 == 0 && header[1] % 0x100 == 0
            && header[4] == 0 && header[3] != 0,
        begin_spec(header) matches Ok(st) ==> header[1] == st.dialect.version_major * 0x1_0000
            + st.dialect.version_minor * 0x100,
        header[1] / 0x100_0000 != 0 || header[1] % 0x100 != 0 ==> begin_spec(header) == Err::<
            LoweringView,
            LowerErrorView,
        >(LowerErrorView::MalformedVersion { version: header[1] }),
{
}

/// The section of every accepted instruction is no earlier than that of any
/// instruction before it, nor than the section that the state started in.
pub proof fn lemma_accepted_in_order(st: LoweringView, insts: Seq<InstView>)
    requires
        run_spec(st, insts) is Ok,
    ensures
        forall|i: int, j: int|
            0 <= i <= j < insts.len() ==> tag_of(insts[i].opcode).spec_rank() <= tag_of(
                insts[j].opcode,
            ).spec_rank(),
        forall|j: int|
            0 <= j < insts.len() && st.tag is Some ==> st.tag->Some_0.spec_rank() <= tag_of(
                #[trigger] insts[j].opcode,
            ).spec_rank(),
        insts.len() > 0 ==> run_spec(st, insts)->Ok_0.tag == Some(tag_of(insts.last().opcode)),
        insts.len() == 0 ==> run_spec(st, insts)->Ok_0.tag == st.tag,
    decreases insts.len(),
{
    if insts.len() > 0 {
        let front = insts.drop_last();
        lemma_accepted_in_order(st, front);
        assert forall|i: int, j: int| 0 <= i <= j < insts.len() implies tag_of(
            insts[i].opcode,
        ).spec_rank() <= tag_of(insts[j].opcode).spec_rank() by {
            if j < front.len() {
                assert(front[i] == insts[i] && front[j] == insts[j]);
            } else if i < front.len() {
                assert(front[i] == insts[i]);
                assert(front[front.len() - 1] == insts[front.len() - 1]);
            }
        }
        assert forall|j: int|
            0 <= j < insts.len() && st.tag is Some implies st.tag->Some_0.spec_rank() <= tag_of(
            #[trigger] insts[j].opcode,
        ).spec_rank() by {
            if j < front.len() {
                assert(front[j] == insts[j]);
            } else if front.len() > 0 {
                assert(front[front.len() - 1] == insts[front.len() - 1]);
            }
        }
    }
}

/// How many of the instructions are memory-model instructions.
pub open spec fn memory_model_count(insts: Seq<InstView>) -> nat
    decreases insts.len(),
{
    if insts.len() == 0 {
        0
    } else {
        memory_model_count(insts.drop_last()) + if insts.last().opcode == OP_MEMORY_MODEL {
            1nat
        } else {
            0nat
        }
    }
}

/// While instructions are accepted, the state has a memory model exactly
/// when it had one before or one of them gave it, and no two of them did.
pub proof fn lemma_memory_model_counted(st: LoweringView, insts: Seq<InstView>)
    requires
        run_spec(st, insts) is Ok,
    ensures
        run_spec(st, insts)->Ok_0.has_memory_model == (st.has_memory_model || memory_model_count(
            insts,
        ) > 0),
        memory_model_count(insts) + (if st.has_memory_model {
            1nat
        } else {
            0nat
        }) <= 1,
    decreases insts.len(),
{
    if insts.len() > 0 {
        lemma_memory_model_counted(st, insts.drop_last());
    }
}

/// A module is lowered only if it has exactly one memory-model instruction.
pub proof fn lemma_lowered_has_one_memory_model(
    header: Seq<u32>,
    insts: Seq<InstView>,
    context: u64,
)
    requires
        lower_spec(header, insts, context) is Ok,
    ensures
        memory_model_count(insts) == 1,
{
    lemma_memory_model_counted(begin_spec(header)->Ok_0, insts);
}

/// The ID that an instruction attaches an attribute to, where it is an entry
/// point, an execution mode, a name or a decoration.
pub open spec fn target_of(inst: InstView) -> Option<u32> {
    match class_of(inst.opcode) {
        InstClass::EntryPoint => inst.operands[1].spec_id(),
        InstClass::Annotation => inst.operands[0].spec_id(),
        _ => None,
    }
}

/// Whether the instruction is kept at the top level and defines `id`.
pub open spec fn defines(inst: InstView, id: u32) -> bool {
    class_of(inst.opcode) is Other && inst.result_id == Some(id)
}

/// While instructions are accepted, the targets that wait are those that
/// waited before and those of the instructions, but for the ones that a
/// later instruction defined.
pub proof fn lemma_pending_targets(st: LoweringView, insts: Seq<InstView>, id: u32)
    requires
        run_spec(st, insts) is Ok,
        forall|i: int| 0 <= i < insts.len() ==> shape_ok(#[trigger] insts[i]),
    ensures
        run_spec(st, insts)->Ok_0.pending.contains_key(id) <==> {
            ||| exists|i: int|
                0 <= i < insts.len() && target_of(#[trigger] insts[i]) == Some(id) && forall|
                    j: int,
                |
                    i < j < insts.len() ==> !defines(#[trigger] insts[j], id)
            ||| st.pending.contains_key(id) && forall|j: int|
                0 <= j < insts.len() ==> !defines(#[trigger] insts[j], id)
        },
    decreases insts.len(),
{
    if insts.len() > 0 {
        let front = insts.drop_last();
        let last = insts.last();
        assert forall|i: int| 0 <= i < front.len() implies shape_ok(#[trigger] front[i]) by {
            assert(front[i] == insts[i]);
        }
        lemma_pending_targets(st, front, id);
        let before = run_spec(st, front)->Ok_0;
        let after = run_spec(st, insts)->Ok_0;
        let from_insts = |s: Seq<InstView>|
            exists|i: int|
                0 <= i < s.len() && target_of(#[trigger] s[i]) == Some(id) && forall|j: int|
                    i < j < s.len() ==> !defines(#[trigger] s[j], id);
        let from_start = |s: Seq<InstView>|
            st.pending.contains_key(id) && forall|j: int|
                0 <= j < s.len() ==> !defines(#[trigger] s[j], id);
        assert(before.pending.contains_key(id) <==> (from_insts(front) || from_start(front)));
        assert(insts[insts.len() - 1] == last);
        if defines(last, id) {
            assert(!after.pending.contains_key(id));
            assert(target_of(last) is None);
            assert(!from_start(insts));
            if from_insts(insts) {
                let i = choose|i: int|
                    0 <= i < insts.len() && target_of(#[trigger] insts[i]) == Some(id)
                        && forall|j: int| i < j < insts.len() ==> !defines(#[trigger] insts[j], id);
                assert(defines(insts[insts.len() - 1], id));
                assert(false);
            }
        } else if target_of(last) == Some(id) {
            assert(after.pending.contains_key(id));
            assert(from_insts(insts)) by {
                assert(target_of(insts[insts.len() - 1]) == Some(id));
            }
        } else {
            assert(after.pending.contains_key(id) == before.pending.contains_key(id));
            if from_insts(front) {
                let i = choose|i: int|
                    0 <= i < front.len() && target_of(#[trigger] front[i]) == Some(id)
                        && forall|j: int| i < j < front.len() ==> !defines(#[trigger] front[j], id);
                assert(insts[i] == front[i]);
                assert forall|j: int| i < j < insts.len() implies !defines(
                    #[trigger] insts[j],
                    id,
                ) by {
                    if j < front.len() {
                        assert(insts[j] == front[j]);
                    }
                }
                assert(from_insts(insts));
            }
            if from_start(front) {
                assert forall|j: int| 0 <= j < insts.len() implies !defines(
                    #[trigger] insts[j],
                    id,
                ) by {
                    if j < front.len() {
                        assert(insts[j] == front[j]);
                    }
                }
                assert(from_start(insts));
            }
            if from_insts(insts) {
                let i = choose|i: int|
                    0 <= i < insts.len() && target_of(#[trigger] insts[i]) == Some(id)
                        && forall|j: int| i < j < insts.len() ==> !defines(#[trigger] insts[j], id);
                assert(i < front.len());
                assert(insts[i] == front[i]);
                assert forall|j: int| i < j < front.len() implies !defines(
                    #[trigger] front[j],
                    id,
                ) by {
                    assert(insts[j] == front[j]);
                }
                assert(from_insts(front));
            }
            if from_start(insts) {
                assert forall|j: int| 0 <= j < front.len() implies !defines(
                    #[trigger] front[j],
                    id,
                ) by {
                    assert(insts[j] == front[j]);
                }
                assert(from_start(front));
            }
        }
    }
}

/// A module is lowered only if every target of an attribute is defined by a
/// later instruction.
pub proof fn lemma_lowered_targets_defined(
    header: Seq<u32>,
    insts: Seq<InstView>,
    context: u64,
    i: int,
)
    requires
        lower_spec(header, insts, context) is Ok,
        forall|k: int| 0 <= k < insts.len() ==> shape_ok(#[trigger] insts[k]),
        0 <= i < insts.len(),
        target_of(insts[i]) is Some,
    ensures
        exists|j: int|
            i < j < insts.len() && defines(#[trigger] insts[j], target_of(insts[i])->Some_0),
{
    let start = begin_spec(header)->Ok_0;
    let end = run_spec(start, insts)->Ok_0;
    let id = target_of(insts[i])->Some_0;
    lemma_pending_targets(start, insts, id);
    assert(end.pending.dom() =~= Set::<u32>::empty());
    assert(!end.pending.dom().contains(id));
}

} // verus!
