//! Instruction encoding and symbol resolution.
//!
//! Encoding walks the program tree and fills an [`Elf`]. A load-address
//! instruction may name a label that has not been encoded yet: the resolver
//! then searches the whole tree for it and encodes it on the spot, so encoding
//! and resolving call one another. A depth bounds how far such resolutions may
//! nest, so that labels which refer to each other in a circle stop encoding
//! instead of keeping it running. [`encode_sections`] allows as many levels as
//! the program has labels.
//!
//! What each function here does is stated by a function of [`model`] on
//! mathematical values.

pub mod depth;
pub mod encode;
pub mod laws;
pub mod model;
pub mod order;

use crate::elf::obj::{
    lemma_grows_reflexive, lemma_grows_transitive, lemma_section_named, lemma_section_named_stable,
    CreateSectionInfo, Elf, ElfError, ElfView, Relocation, RelocationKind, SectionIndex,
    SectionKind, SymbolIndex, SymbolKind,
};
use crate::parser::ast::{lemma_nodes_view, nodes_view, AstNode, Node, SymbolInfo};
use crate::riscv::encode::{
    immediate, le_bytes, register, store, upper, ImmArgs, RegArgs, StoreArgs, UpperArgs,
};
use crate::riscv::model::{
    advance, bytes_of, depth_for, emit_load_address_spec, encode_found_spec, encode_label_spec,
    encode_member_spec, encode_nodes_spec, encode_root_spec, encode_section_spec,
    encode_sections_from, encode_sections_spec, encode_spec, find_label, followed_by, info_of,
    is_encoding_of, label_count, lemma_encode_nodes_step, lemma_encode_section_step,
    lemma_encode_sections_step, lemma_folds_of_nothing, lemma_resolve_targets_step,
    load_address_spec, op_word, placed, resolve_target_spec, resolve_targets_spec,
    section_opts_spec, size_of, EncodeState, Failure, Outcome, Program, INSTRUCTION_ALIGN,
    OPCODE_AUIPC, OPCODE_LUI, OPCODE_OP, OPCODE_OP_IMM, OPCODE_STORE, OPCODE_SYSTEM,
};
use vstd::hash_map::StringHashMap;
use vstd::prelude::*;

verus! {

/// The failure that an error of the encoder stands for.
pub open spec fn failure_of(error: ElfError) -> Option<Failure> {
    match error {
        ElfError::SymbolNotExists(name) => Some(Failure::Unresolved(name@)),
        ElfError::NestingTooDeep(name) => Some(Failure::TooDeep(name@)),
        _ => None,
    }
}

/// Whether an encoder that stopped in state `after` with `result` did what
/// `expected` says: it left the state that `expected` holds, and went
/// through or failed as `expected` did, with the same failure.
pub open spec fn agrees<T>(
    expected: Outcome,
    after: EncodeState,
    result: Result<T, ElfError>,
) -> bool {
    &&& after == expected.state
    &&& match result {
        Ok(_) => expected.result is Ok,
        Err(error) => expected.result matches Err(failure) && failure_of(error) == Some(failure),
    }
}

/// Whether an encoder that stopped in state `after` with `result` did what
/// `expected` says, and where it went through gave the bytes that
/// `expected` holds.
pub open spec fn gives(
    expected: Outcome,
    after: EncodeState,
    result: Result<Vec<u8>, ElfError>,
) -> bool {
    &&& agrees(expected, after, result)
    &&& result matches Ok(bytes) ==> expected.result == Ok::<Seq<u8>, Failure>(bytes@)
}

/// The mathematical value of what [`encode_sections`] gives.
pub open spec fn built_view(built: Result<Elf, ElfError>) -> Result<ElfView, Failure> {
    match built {
        Ok(elf) => Ok(elf@),
        Err(error) => Err(failure_of(error)->0),
    }
}

/// The program that a tree and an attribute table stand for.
pub open spec fn program_of(
    tree: &Vec<AstNode>,
    visibility_map: &StringHashMap<SymbolInfo>,
) -> Program {
    Program { tree: nodes_view(tree@), attrs: visibility_map@ }
}

/// Nothing followed by an outcome is that outcome.
pub proof fn lemma_followed_by_nothing(rest: Outcome)
    ensures
        followed_by(Seq::empty(), rest) == rest,
{
    if rest.result is Ok {
        assert(Seq::<u8>::empty() + rest.result->Ok_0 =~= rest.result->Ok_0);
    }
}

/// Bytes followed by more bytes and an outcome are all the bytes followed
/// by the outcome.
pub proof fn lemma_followed_by_more(bytes: Seq<u8>, more: Seq<u8>, rest: Outcome)
    ensures
        followed_by(bytes, followed_by(more, rest)) == followed_by(bytes + more, rest),
{
    if rest.result is Ok {
        assert(bytes + (more + rest.result->Ok_0) =~= (bytes + more) + rest.result->Ok_0);
    }
}

/// Bytes followed by an outcome without bytes end where the outcome ends,
/// with the bytes.
pub proof fn lemma_followed_by_done(bytes: Seq<u8>, state: EncodeState)
    ensures
        followed_by(bytes, Outcome::done(state)) == (Outcome { state, result: Ok(bytes) }),
{
    assert(bytes + Seq::<u8>::empty() =~= bytes);
}

/// The object section and the kinds that go with a section name of the
/// source: `.text`, `.data` and `.bss` lose their dot, any other name
/// stands for a section of unknown kind.
pub fn section_opts(name: &str) -> (opts: (String, SectionKind, SymbolKind))
    ensures
        opts.0@ == section_opts_spec(name@).0,
        opts.1 == section_opts_spec(name@).1,
        opts.2 == section_opts_spec(name@).2,
{
    let name = name.to_owned();
    if name == ".text".to_owned() {
        ("text".to_owned(), SectionKind::Text, SymbolKind::Text)
    } else if name == ".data".to_owned() {
        ("data".to_owned(), SectionKind::Data, SymbolKind::Data)
    } else if name == ".bss".to_owned() {
        ("bss".to_owned(), SectionKind::UninitializedData, SymbolKind::Data)
    } else {
        (name, SectionKind::Unknown, SymbolKind::Section)
    }
}

/// The attributes that the directives gave to `name`.
pub fn symbol_info(visibility_map: &StringHashMap<SymbolInfo>, name: &String) -> (info: SymbolInfo)
    ensures
        info == info_of(visibility_map@, name@),
{
    match visibility_map.get(name.as_str()) {
        Some(info) => *info,
        None => SymbolInfo::default(),
    }
}

/// The id of the section called `name`, which is created with `kind` where
/// the object has none of that name.
pub fn place_section(elf: &mut Elf, name: &str, kind: SectionKind) -> (id: SectionIndex)
    requires
        old(elf).wf(),
    ensures
        final(elf).wf(),
        final(elf)@.grows_from(old(elf)@),
        (final(elf)@, id) == placed(old(elf)@, name@, kind),
        final(elf)@.section_named(name@) == Some(id),
        final(elf)@.has_section(id),
{
    proof {
        lemma_grows_reflexive(elf@);
    }
    let id = match elf.section_id(&name.to_owned()) {
        Some(id) => id,
        None => elf.create_section(name, kind),
    };
    proof {
        lemma_section_named(elf@, name@);
    }
    id
}

/// Moves the program counter on by `by` bytes.
fn step(pc: &mut u64, by: u64)
    ensures
        *final(pc) == advance(*old(pc), by as nat),
{
    *pc = pc.wrapping_add(by);
}

/// Encodes a register-register arithmetic instruction.
fn arithmetic(rd: u32, rs1: u32, rs2: u32, funct7: u32, funct3: u32) -> (bytes: Vec<u8>)
    ensures
        bytes@ == le_bytes(op_word(rd, rs1, rs2, funct7, funct3)),
{
    register(RegArgs { rs1, rs2, rd, funct7, funct3, opcode: OPCODE_OP })
}

/// Encodes a node that names no symbol.
///
/// An instruction gives its word, least significant byte first, and moves
/// the program counter on by 4. A byte literal gives its bytes and moves the
/// counter on by their number. A section or label gives no bytes and moves
/// the counter on by 4.
pub fn encode_plain(node: &AstNode, pc: &mut u64) -> (bytes: Vec<u8>)
    requires
        node@ !is La,
    ensures
        bytes@ == bytes_of(node@),
        *final(pc) == advance(*old(pc), size_of(node@)),
{
    match node {
        AstNode::Assci { seq } => {
            step(pc, seq.len() as u64);
            seq.clone()
        },
        AstNode::Ecall => {
            step(pc, 4);
            immediate(ImmArgs { imm: 0, rs1: 0, rd: 0, funct3: 0, opcode: OPCODE_SYSTEM })
        },
        AstNode::Addi { rd, rs1, imm } => {
            step(pc, 4);
            immediate(ImmArgs { imm: *imm, rs1: *rs1, rd: *rd, funct3: 0, opcode: OPCODE_OP_IMM })
        },
        AstNode::Sub { rd, rs1, rs2 } => {
            step(pc, 4);
            arithmetic(*rd, *rs1, *rs2, 0x20, 0x0)
        },
        AstNode::Sll { rd, rs1, rs2 } => {
            step(pc, 4);
            arithmetic(*rd, *rs1, *rs2, 0x0, 0x1)
        },
        AstNode::Srl { rd, rs1, rs2 } => {
            step(pc, 4);
            arithmetic(*rd, *rs1, *rs2, 0x0, 0x5)
        },
        AstNode::Sra { rd, rs1, rs2 } => {
            step(pc, 4);
            arithmetic(*rd, *rs1, *rs2, 0x20, 0x5)
        },
        AstNode::Slt { rd, rs1, rs2 } => {
            step(pc, 4);
            arithmetic(*rd, *rs1, *rs2, 0x0, 0x2)
        },
        AstNode::Sltu { rd, rs1, rs2 } => {
            step(pc, 4);
            arithmetic(*rd, *rs1, *rs2, 0x0, 0x3)
        },
        AstNode::Xor { rd, rs1, rs2 } => {
            step(pc, 4);
            arithmetic(*rd, *rs1, *rs2, 0x0, 0x4)
        },
        AstNode::Add { rd, rs1, rs2 } => {
            step(pc, 4);
            arithmetic(*rd, *rs1, *rs2, 0x0, 0x0)
        },
        AstNode::Sb { rs2, imm, rs1 } => {
            step(pc, 4);
            store(StoreArgs { imm: *imm, rs2: *rs2, rs1: *rs1, opcode: OPCODE_STORE, funct3: 0 })
        },
        AstNode::Lui { rd, imm } => {
            step(pc, 4);
            upper(UpperArgs { imm: *imm, rd: *rd, opcode: OPCODE_LUI })
        },
        AstNode::Auipc { rd, imm } => {
            step(pc, 4);
            upper(UpperArgs { imm: *imm, rd: *rd, opcode: OPCODE_AUIPC })
        },
        _ => {
            step(pc, 4);
            Vec::new()
        },
    }
}

/// Gives the two instructions that load the address of symbol `target`
/// into `rd`, and asks for the two relocations that go with them in section
/// `section_id`: one of the high 20 bits at the program counter, one of the
/// low 12 bits four bytes on. The counter moves on by 8.
pub fn emit_load_address(
    rd: u32,
    target: SymbolIndex,
    elf: &mut Elf,
    section_id: SectionIndex,
    pc: &mut u64,
) -> (bytes: Vec<u8>)
    requires
        old(elf).wf(),
        old(elf)@.has_section(section_id),
        old(elf)@.has_symbol(target),
    ensures
        final(elf).wf(),
        final(elf)@.grows_from(old(elf)@),
        emit_load_address_spec(
            rd,
            target,
            section_id,
            EncodeState { elf: old(elf)@, pc: *old(pc) },
        ) == (Outcome {
            state: EncodeState { elf: final(elf)@, pc: *final(pc) },
            result: Ok(bytes@),
        }),
{
    let address: u64 = elf.symbols[target.0].value;
    let mut ops = upper(UpperArgs { imm: address >> 12, rd, opcode: OPCODE_LUI });
    let high = Relocation { offset: *pc, symbol: target, addend: 0, kind: RelocationKind::Hi20 };
    let asked = elf.create_reallocation(section_id, high);
    assert(asked is Ok);
    step(pc, 4);
    let mut second = immediate(
        ImmArgs { imm: address, rs1: rd, rd, funct3: 0, opcode: OPCODE_OP_IMM },
    );
    ops.append(&mut second);
    let low = Relocation { offset: *pc, symbol: target, addend: 0, kind: RelocationKind::Lo12I };
    let ghost halfway = elf@;
    let asked = elf.create_reallocation(section_id, low);
    assert(asked is Ok);
    step(pc, 4);
    proof {
        lemma_grows_transitive(old(elf)@, halfway, elf@);
    }
    ops
}

/// Encodes a load-address instruction.
///
/// Where the object holds no symbol called `symbol` yet, the label of that
/// name is first resolved: see [`search_label_encode`], which starts at the
/// root of `tree` with the name of section `section_id`. The instruction
/// then gives what [`emit_load_address`] gives for the symbol. It fails
/// where resolution fails, and where no label of that name exists.
pub fn load_address(
    rd: u32,
    symbol: &String,
    elf: &mut Elf,
    section_id: SectionIndex,
    pc: &mut u64,
    tree: &Vec<AstNode>,
    visibility_map: &StringHashMap<SymbolInfo>,
    depth: usize,
) -> (bytes: Result<Vec<u8>, ElfError>)
    requires
        old(elf).wf(),
        old(elf)@.has_section(section_id),
    ensures
        final(elf).wf(),
        final(elf)@.grows_from(old(elf)@),
        gives(
            load_address_spec(
                program_of(tree, visibility_map),
                rd,
                symbol@,
                section_id,
                EncodeState { elf: old(elf)@, pc: *old(pc) },
                depth as nat,
            ),
            EncodeState { elf: final(elf)@, pc: *final(pc) },
            bytes,
        ),
    decreases depth, 1nat, tree,
{
    proof {
        lemma_grows_reflexive(elf@);
    }
    if elf.get_symbol(symbol).is_err() {
        let section_name = elf.sections[section_id.0].name.clone();
        match search_label_encode(
            symbol,
            tree,
            elf,
            section_name.as_str(),
            pc,
            tree,
            visibility_map,
            depth,
        ) {
            Err(error) => {
                return Err(error);
            },
            Ok(false) => {
                return Err(ElfError::SymbolNotExists(symbol.clone()));
            },
            Ok(true) => {},
        }
    }
    let ghost resolved = elf@;
    match elf.get_symbol(symbol) {
        Err(error) => Err(error),
        Ok((target, _)) => {
            let ops = emit_load_address(rd, target, elf, section_id, pc);
            proof {
                lemma_grows_transitive(old(elf)@, resolved, elf@);
            }
            Ok(ops)
        },
    }
}

/// Encodes one node into bytes.
///
/// A load-address instruction is encoded as by [`load_address`], and any
/// other node as by [`encode_plain`].
pub fn encode(
    node: &AstNode,
    elf: &mut Elf,
    section_id: SectionIndex,
    pc: &mut u64,
    tree: &Vec<AstNode>,
    visibility_map: &StringHashMap<SymbolInfo>,
    depth: usize,
) -> (bytes: Result<Vec<u8>, ElfError>)
    requires
        old(elf).wf(),
        old(elf)@.has_section(section_id),
    ensures
        final(elf).wf(),
        final(elf)@.grows_from(old(elf)@),
        gives(
            encode_spec(
                program_of(tree, visibility_map),
                node@,
                section_id,
                EncodeState { elf: old(elf)@, pc: *old(pc) },
                depth as nat,
            ),
            EncodeState { elf: final(elf)@, pc: *final(pc) },
            bytes,
        ),
    decreases depth, 2nat, tree,
{
    match node {
        AstNode::La { rd, symbol } => load_address(
            *rd,
            symbol,
            elf,
            section_id,
            pc,
            tree,
            visibility_map,
            depth,
        ),
        _ => {
            proof {
                lemma_grows_reflexive(elf@);
            }
            Ok(encode_plain(node, pc))
        },
    }
}

/// Searches `start_content` depth first for the label called `label`, and
/// encodes the first one found.
///
/// The search goes into every section and every label; a label is looked at
/// before the nodes below it. `section_name` is the name of the section
/// around `start_content`.
///
/// Where no label of that name is found, the result is `Ok(false)` and
/// nothing changes. Where one is found and `depth` is 0, the result is
/// [`ElfError::NestingTooDeep`] and nothing changes. Otherwise the section
/// that goes with the name of the section around the label is created, if
/// the object has none of that name, and the label is encoded into it as by
/// [`encode_label`], with a depth of one less.
pub fn search_label_encode(
    label: &String,
    start_content: &Vec<AstNode>,
    elf: &mut Elf,
    section_name: &str,
    pc: &mut u64,
    tree: &Vec<AstNode>,
    visibility_map: &StringHashMap<SymbolInfo>,
    depth: usize,
) -> (found: Result<bool, ElfError>)
    requires
        old(elf).wf(),
    ensures
        final(elf).wf(),
        final(elf)@.grows_from(old(elf)@),
        match find_label(nodes_view(start_content@), section_name@, label@) {
            None => found matches Ok(false) && final(elf)@ == old(elf)@ && *final(pc) == *old(pc),
            Some((enclosing, content)) => !(found matches Ok(false)) && agrees(
                encode_found_spec(
                    program_of(tree, visibility_map),
                    label@,
                    enclosing,
                    content,
                    EncodeState { elf: old(elf)@, pc: *old(pc) },
                    depth as nat,
                ),
                EncodeState { elf: final(elf)@, pc: *final(pc) },
                found,
            ),
        },
    decreases depth, 0nat, start_content,
{
    let mut i: usize = 0;
    proof {
        lemma_nodes_view(start_content@);
        lemma_grows_reflexive(elf@);
        assert(nodes_view(start_content@).skip(0) =~= nodes_view(start_content@));
    }
    while i < start_content.len()
        invariant
            i <= start_content.len(),
            elf.wf(),
            elf@ == old(elf)@,
            *pc == *old(pc),
            nodes_view(start_content@).len() == start_content@.len(),
            find_label(nodes_view(start_content@), section_name@, label@) == find_label(
                nodes_view(start_content@).skip(i as int),
                section_name@,
                label@,
            ),
        decreases start_content.len() - i,
    {
        let ghost rest = nodes_view(start_content@).skip(i as int);
        proof {
            lemma_nodes_view(start_content@);
            assert(rest[0] == start_content@[i as int]@);
            assert(rest.drop_first() == nodes_view(start_content@).skip(i + 1));
        }
        match &start_content[i] {
            AstNode::Section { name, content } => {
                let below = search_label_encode(
                    label,
                    content,
                    elf,
                    name.as_str(),
                    pc,
                    tree,
                    visibility_map,
                    depth,
                );
                match below {
                    Ok(false) => {},
                    _ => {
                        return below;
                    },
                }
            },
            AstNode::Label { name, content } => {
                if *name == *label {
                    return encode_found(
                        label,
                        content,
                        elf,
                        section_name,
                        pc,
                        tree,
                        visibility_map,
                        depth,
                    );
                }
                let below = search_label_encode(
                    label,
                    content,
                    elf,
                    section_name,
                    pc,
                    tree,
                    visibility_map,
                    depth,
                );
                match below {
                    Ok(false) => {},
                    _ => {
                        return below;
                    },
                }
            },
            _ => {},
        }
        i += 1;
    }
    Ok(false)
}

/// Encodes a label that resolution has found: creates the section that goes
/// with `enclosing`, the name of the section around the label, if the
/// object has none of that name, and encodes the label into it one level
/// deeper. With a depth of 0 it fails and changes nothing.
pub fn encode_found(
    label: &String,
    content: &Vec<AstNode>,
    elf: &mut Elf,
    enclosing: &str,
    pc: &mut u64,
    tree: &Vec<AstNode>,
    visibility_map: &StringHashMap<SymbolInfo>,
    depth: usize,
) -> (found: Result<bool, ElfError>)
    requires
        old(elf).wf(),
    ensures
        final(elf).wf(),
        final(elf)@.grows_from(old(elf)@),
        !(found matches Ok(false)),
        agrees(
            encode_found_spec(
                program_of(tree, visibility_map),
                label@,
                enclosing@,
                nodes_view(content@),
                EncodeState { elf: old(elf)@, pc: *old(pc) },
                depth as nat,
            ),
            EncodeState { elf: final(elf)@, pc: *final(pc) },
            found,
        ),
    decreases depth, 0nat, content,
{
    if depth == 0 {
        proof {
            lemma_grows_reflexive(elf@);
        }
        return Err(ElfError::NestingTooDeep(label.clone()));
    }
    let (section_name, section_kind, symbol_kind) = section_opts(enclosing);
    place_section(elf, section_name.as_str(), section_kind);
    let info = symbol_info(visibility_map, label);
    let ghost ready = elf@;
    let done = encode_label(
        elf,
        section_name.as_str(),
        label.clone(),
        content,
        symbol_kind,
        &info,
        pc,
        tree,
        visibility_map,
        depth - 1,
    );
    proof {
        lemma_grows_transitive(old(elf)@, ready, elf@);
    }
    match done {
        Ok(()) => Ok(true),
        Err(error) => Err(error),
    }
}

/// Resolves the target of `node`, where `node` is a load-address
/// instruction of whose target the object holds no symbol yet: as by
/// [`search_label_encode`] from the root of `tree`, where finding nothing
/// is a failure. Any other node changes nothing.
pub fn resolve_target(
    node: &AstNode,
    elf: &mut Elf,
    section_name: &str,
    pc: &mut u64,
    tree: &Vec<AstNode>,
    visibility_map: &StringHashMap<SymbolInfo>,
    depth: usize,
) -> (done: Result<(), ElfError>)
    requires
        old(elf).wf(),
    ensures
        final(elf).wf(),
        final(elf)@.grows_from(old(elf)@),
        agrees(
            resolve_target_spec(
                program_of(tree, visibility_map),
                node@,
                section_name@,
                EncodeState { elf: old(elf)@, pc: *old(pc) },
                depth as nat,
            ),
            EncodeState { elf: final(elf)@, pc: *final(pc) },
            done,
        ),
    decreases depth, 2nat, tree,
{
    proof {
        lemma_grows_reflexive(elf@);
    }
    match node {
        AstNode::La { rd, symbol } => {
            if elf.get_symbol(symbol).is_err() {
                match search_label_encode(
                    symbol,
                    tree,
                    elf,
                    section_name,
                    pc,
                    tree,
                    visibility_map,
                    depth,
                ) {
                    Err(error) => Err(error),
                    Ok(false) => Err(ElfError::SymbolNotExists(symbol.clone())),
                    Ok(true) => Ok(()),
                }
            } else {
                Ok(())
            }
        },
        _ => Ok(()),
    }
}

/// Resolves every load-address target among `content` of which the object
/// holds no symbol yet, in order, each as by [`resolve_target`]. It stops
/// at the first target that cannot be resolved.
pub fn resolve_targets(
    content: &Vec<AstNode>,
    elf: &mut Elf,
    section_name: &str,
    pc: &mut u64,
    tree: &Vec<AstNode>,
    visibility_map: &StringHashMap<SymbolInfo>,
    depth: usize,
) -> (done: Result<(), ElfError>)
    requires
        old(elf).wf(),
    ensures
        final(elf).wf(),
        final(elf)@.grows_from(old(elf)@),
        agrees(
            resolve_targets_spec(
                program_of(tree, visibility_map),
                nodes_view(content@),
                section_name@,
                EncodeState { elf: old(elf)@, pc: *old(pc) },
                depth as nat,
            ),
            EncodeState { elf: final(elf)@, pc: *final(pc) },
            done,
        ),
    decreases depth, 3nat, tree,
{
    let mut i: usize = 0;
    let ghost whole = resolve_targets_spec(
        program_of(tree, visibility_map),
        nodes_view(content@),
        section_name@,
        EncodeState { elf: old(elf)@, pc: *old(pc) },
        depth as nat,
    );
    proof {
        lemma_nodes_view(content@);
        lemma_grows_reflexive(elf@);
        assert(nodes_view(content@).skip(0) =~= nodes_view(content@));
    }
    while i < content.len()
        invariant
            i <= content.len(),
            elf.wf(),
            elf@.grows_from(old(elf)@),
            nodes_view(content@).len() == content@.len(),
            whole == resolve_targets_spec(
                program_of(tree, visibility_map),
                nodes_view(content@),
                section_name@,
                EncodeState { elf: old(elf)@, pc: *old(pc) },
                depth as nat,
            ),
            whole == resolve_targets_spec(
                program_of(tree, visibility_map),
                nodes_view(content@).skip(i as int),
                section_name@,
                EncodeState { elf: elf@, pc: *pc },
                depth as nat,
            ),
        decreases content.len() - i,
    {
        let ghost rest = nodes_view(content@).skip(i as int);
        let ghost entry = elf@;
        proof {
            lemma_nodes_view(content@);
            assert(rest[0] == content@[i as int]@);
            assert(rest.drop_first() == nodes_view(content@).skip(i + 1));
            lemma_resolve_targets_step(
                program_of(tree, visibility_map),
                rest,
                section_name@,
                EncodeState { elf: elf@, pc: *pc },
                depth as nat,
            );
        }
        let done = resolve_target(&content[i], elf, section_name, pc, tree, visibility_map, depth);
        proof {
            lemma_grows_transitive(old(elf)@, entry, elf@);
        }
        match done {
            Err(error) => {
                return Err(error);
            },
            Ok(()) => {},
        }
        i += 1;
    }
    Ok(())
}

/// Encodes `content` node by node into section `section_id`, as by
/// [`encode`], and gives the bytes of all nodes in order. It stops at the
/// first node that fails.
pub fn encode_nodes(
    content: &Vec<AstNode>,
    elf: &mut Elf,
    section_id: SectionIndex,
    pc: &mut u64,
    tree: &Vec<AstNode>,
    visibility_map: &StringHashMap<SymbolInfo>,
    depth: usize,
) -> (bytes: Result<Vec<u8>, ElfError>)
    requires
        old(elf).wf(),
        old(elf)@.has_section(section_id),
    ensures
        final(elf).wf(),
        final(elf)@.grows_from(old(elf)@),
        gives(
            encode_nodes_spec(
                program_of(tree, visibility_map),
                nodes_view(content@),
                section_id,
                EncodeState { elf: old(elf)@, pc: *old(pc) },
                depth as nat,
            ),
            EncodeState { elf: final(elf)@, pc: *final(pc) },
            bytes,
        ),
    decreases depth, 3nat, tree,
{
    let mut produced: Vec<u8> = Vec::new();
    let mut i: usize = 0;
    let ghost whole = encode_nodes_spec(
        program_of(tree, visibility_map),
        nodes_view(content@),
        section_id,
        EncodeState { elf: old(elf)@, pc: *old(pc) },
        depth as nat,
    );
    proof {
        lemma_nodes_view(content@);
        lemma_grows_reflexive(elf@);
        lemma_followed_by_nothing(whole);
        assert(nodes_view(content@).skip(0) =~= nodes_view(content@));
    }
    while i < content.len()
        invariant
            i <= content.len(),
            elf.wf(),
            elf@.has_section(section_id),
            elf@.grows_from(old(elf)@),
            nodes_view(content@).len() == content@.len(),
            whole == encode_nodes_spec(
                program_of(tree, visibility_map),
                nodes_view(content@),
                section_id,
                EncodeState { elf: old(elf)@, pc: *old(pc) },
                depth as nat,
            ),
            whole == followed_by(
                produced@,
                encode_nodes_spec(
                    program_of(tree, visibility_map),
                    nodes_view(content@).skip(i as int),
                    section_id,
                    EncodeState { elf: elf@, pc: *pc },
                    depth as nat,
                ),
            ),
        decreases content.len() - i,
    {
        let ghost rest = nodes_view(content@).skip(i as int);
        let ghost entry = elf@;
        proof {
            lemma_nodes_view(content@);
            assert(rest[0] == content@[i as int]@);
            assert(rest.drop_first() == nodes_view(content@).skip(i + 1));
            lemma_encode_nodes_step(
                program_of(tree, visibility_map),
                rest,
                section_id,
                EncodeState { elf: elf@, pc: *pc },
                depth as nat,
            );
        }
        let encoded = encode(&content[i], elf, section_id, pc, tree, visibility_map, depth);
        proof {
            lemma_grows_transitive(old(elf)@, entry, elf@);
        }
        match encoded {
            Err(error) => {
                return Err(error);
            },
            Ok(mut bytes) => {
                proof {
                    lemma_followed_by_more(
                        produced@,
                        bytes@,
                        encode_nodes_spec(
                            program_of(tree, visibility_map),
                            nodes_view(content@).skip(i + 1),
                            section_id,
                            EncodeState { elf: elf@, pc: *pc },
                            depth as nat,
                        ),
                    );
                }
                produced.append(&mut bytes);
            },
        }
        i += 1;
    }
    proof {
        lemma_followed_by_done(produced@, EncodeState { elf: elf@, pc: *pc });
    }
    Ok(produced)
}

/// Encodes a label into the section called `section_name`, which must
/// exist.
///
/// First every load-address target among `content` is resolved, as by
/// [`resolve_targets`] with `section_name`. Then `content` is encoded node
/// by node, as by [`encode_nodes`]. Last a symbol called `name` with the
/// given kind and attributes is created in the section, with the encoded
/// bytes as its content, aligned as instructions are.
pub fn encode_label(
    a: &mut Elf,
    section_name: &str,
    name: String,
    content: &Vec<AstNode>,
    kind: SymbolKind,
    symbol_info: &SymbolInfo,
    pc: &mut u64,
    tree: &Vec<AstNode>,
    visibility_map: &StringHashMap<SymbolInfo>,
    depth: usize,
) -> (done: Result<(), ElfError>)
    requires
        old(a).wf(),
        old(a)@.section_named(section_name@) is Some,
    ensures
        final(a).wf(),
        final(a)@.grows_from(old(a)@),
        agrees(
            encode_label_spec(
                program_of(tree, visibility_map),
                old(a)@.section_named(section_name@)->0,
                name@,
                nodes_view(content@),
                kind,
                *symbol_info,
                EncodeState { elf: old(a)@, pc: *old(pc) },
                depth as nat,
            ),
            EncodeState { elf: final(a)@, pc: *final(pc) },
            done,
        ),
    decreases depth, 4nat, tree,
{
    proof {
        lemma_section_named(a@, section_name@);
    }
    let id = match a.section_id(&section_name.to_owned()) {
        Some(id) => id,
        None => {
            assert(false);
            SectionIndex(0)
        },
    };
    match resolve_targets(content, a, section_name, pc, tree, visibility_map, depth) {
        Err(error) => {
            return Err(error);
        },
        Ok(()) => {},
    }
    let ghost resolved = a@;
    let body = encode_nodes(content, a, id, pc, tree, visibility_map, depth);
    proof {
        lemma_grows_transitive(old(a)@, resolved, a@);
    }
    let ghost encoded = a@;
    match body {
        Err(error) => Err(error),
        Ok(symbol_content) => {
            proof {
                assert(4u64 & ((4u64 - 1) as u64) == 0) by (bit_vector);
            }
            a.create_symbol(
                CreateSectionInfo {
                    name,
                    content: symbol_content,
                    section_id: id,
                    symbol_kind: kind,
                    symbol_info: *symbol_info,
                    align: INSTRUCTION_ALIGN,
                },
            );
            proof {
                lemma_grows_transitive(old(a)@, encoded, a@);
            }
            Ok(())
        },
    }
}

/// The number of labels in `nodes`, at any depth, as far as it can be
/// counted.
pub fn count_labels(nodes: &Vec<AstNode>) -> (count: usize)
    ensures
        count == depth_for(nodes_view(nodes@)),
    decreases nodes,
{
    let mut count: usize = 0;
    let mut i: usize = 0;
    proof {
        lemma_nodes_view(nodes@);
        assert(nodes_view(nodes@).skip(0) =~= nodes_view(nodes@));
    }
    while i < nodes.len()
        invariant
            i <= nodes.len(),
            nodes_view(nodes@).len() == nodes@.len(),
            label_count(nodes_view(nodes@)) >= label_count(nodes_view(nodes@).skip(i as int)),
            count == if label_count(nodes_view(nodes@)) - label_count(
                nodes_view(nodes@).skip(i as int),
            ) <= usize::MAX {
                label_count(nodes_view(nodes@)) - label_count(nodes_view(nodes@).skip(i as int))
            } else {
                usize::MAX as int
            },
        decreases nodes.len() - i,
    {
        let ghost rest = nodes_view(nodes@).skip(i as int);
        proof {
            lemma_nodes_view(nodes@);
            assert(rest[0] == nodes@[i as int]@);
            assert(rest.drop_first() == nodes_view(nodes@).skip(i + 1));
        }
        let below: usize = match &nodes[i] {
            AstNode::Section { name, content } => count_labels(content),
            AstNode::Label { name, content } => {
                let inner = count_labels(content);
                if inner < usize::MAX {
                    inner + 1
                } else {
                    usize::MAX
                }
            },
            _ => 0,
        };
        count = if count <= usize::MAX - below {
            count + below
        } else {
            usize::MAX
        };
        i += 1;
    }
    count
}

/// Encodes one node directly below a section into section `section_id`,
/// whose name is `section_name`.
///
/// A label of which the object holds a symbol already is passed over: a
/// label is encoded once. Any other label is encoded as by
/// [`encode_label`], with `symbol_kind` and the attributes that
/// `visibility_map` holds for it, and gives no bytes. Any other node is
/// encoded as by [`encode`].
pub fn encode_member(
    node: &AstNode,
    elf: &mut Elf,
    section_name: &str,
    section_id: SectionIndex,
    symbol_kind: SymbolKind,
    pc: &mut u64,
    tree: &Vec<AstNode>,
    visibility_map: &StringHashMap<SymbolInfo>,
    depth: usize,
) -> (bytes: Result<Vec<u8>, ElfError>)
    requires
        old(elf).wf(),
        old(elf)@.section_named(section_name@) == Some(section_id),
    ensures
        final(elf).wf(),
        final(elf)@.grows_from(old(elf)@),
        final(elf)@.section_named(section_name@) == Some(section_id),
        gives(
            encode_member_spec(
                program_of(tree, visibility_map),
                node@,
                section_id,
                symbol_kind,
                EncodeState { elf: old(elf)@, pc: *old(pc) },
                depth as nat,
            ),
            EncodeState { elf: final(elf)@, pc: *final(pc) },
            bytes,
        ),
{
    proof {
        lemma_grows_reflexive(elf@);
        lemma_section_named(elf@, section_name@);
    }
    let bytes = match node {
        AstNode::Label { name, content } => {
            if elf.get_symbol(name).is_err() {
                let info = symbol_info(visibility_map, name);
                match encode_label(
                    elf,
                    section_name,
                    name.clone(),
                    content,
                    symbol_kind,
                    &info,
                    pc,
                    tree,
                    visibility_map,
                    depth,
                ) {
                    Err(error) => Err(error),
                    Ok(()) => Ok(Vec::new()),
                }
            } else {
                Ok(Vec::new())
            }
        },
        _ => encode(node, elf, section_id, pc, tree, visibility_map, depth),
    };
    proof {
        lemma_section_named_stable(old(elf)@, elf@, section_name@);
    }
    bytes
}

/// Encodes the nodes directly below a section into section `section_id`,
/// whose name is `section_name`, each as by [`encode_member`], and gives
/// the bytes of all of them in order. It stops at the first node that
/// fails.
pub fn encode_section(
    content: &Vec<AstNode>,
    elf: &mut Elf,
    section_name: &str,
    section_id: SectionIndex,
    symbol_kind: SymbolKind,
    pc: &mut u64,
    tree: &Vec<AstNode>,
    visibility_map: &StringHashMap<SymbolInfo>,
    depth: usize,
) -> (bytes: Result<Vec<u8>, ElfError>)
    requires
        old(elf).wf(),
        old(elf)@.section_named(section_name@) == Some(section_id),
    ensures
        final(elf).wf(),
        final(elf)@.grows_from(old(elf)@),
        gives(
            encode_section_spec(
                program_of(tree, visibility_map),
                nodes_view(content@),
                section_id,
                symbol_kind,
                EncodeState { elf: old(elf)@, pc: *old(pc) },
                depth as nat,
            ),
            EncodeState { elf: final(elf)@, pc: *final(pc) },
            bytes,
        ),
{
    let mut produced: Vec<u8> = Vec::new();
    let mut i: usize = 0;
    let ghost whole = encode_section_spec(
        program_of(tree, visibility_map),
        nodes_view(content@),
        section_id,
        symbol_kind,
        EncodeState { elf: old(elf)@, pc: *old(pc) },
        depth as nat,
    );
    proof {
        lemma_nodes_view(content@);
        lemma_grows_reflexive(elf@);
        lemma_followed_by_nothing(whole);
        assert(nodes_view(content@).skip(0) =~= nodes_view(content@));
    }
    while i < content.len()
        invariant
            i <= content.len(),
            elf.wf(),
            elf@.section_named(section_name@) == Some(section_id),
            elf@.grows_from(old(elf)@),
            nodes_view(content@).len() == content@.len(),
            whole == encode_section_spec(
                program_of(tree, visibility_map),
                nodes_view(content@),
                section_id,
                symbol_kind,
                EncodeState { elf: old(elf)@, pc: *old(pc) },
                depth as nat,
            ),
            whole == followed_by(
                produced@,
                encode_section_spec(
                    program_of(tree, visibility_map),
                    nodes_view(content@).skip(i as int),
                    section_id,
                    symbol_kind,
                    EncodeState { elf: elf@, pc: *pc },
                    depth as nat,
                ),
            ),
        decreases content.len() - i,
    {
        let ghost rest = nodes_view(content@).skip(i as int);
        let ghost entry = elf@;
        proof {
            lemma_nodes_view(content@);
            assert(rest[0] == content@[i as int]@);
            assert(rest.drop_first() == nodes_view(content@).skip(i + 1));
            lemma_encode_section_step(
                program_of(tree, visibility_map),
                rest,
                section_id,
                symbol_kind,
                EncodeState { elf: elf@, pc: *pc },
                depth as nat,
            );
        }
        let encoded = encode_member(
            &content[i],
            elf,
            section_name,
            section_id,
            symbol_kind,
            pc,
            tree,
            visibility_map,
            depth,
        );
        proof {
            lemma_grows_transitive(old(elf)@, entry, elf@);
        }
        match encoded {
            Err(error) => {
                return Err(error);
            },
            Ok(mut bytes) => {
                proof {
                    lemma_followed_by_more(
                        produced@,
                        bytes@,
                        encode_section_spec(
                            program_of(tree, visibility_map),
                            nodes_view(content@).skip(i + 1),
                            section_id,
                            symbol_kind,
                            EncodeState { elf: elf@, pc: *pc },
                            depth as nat,
                        ),
                    );
                }
                produced.append(&mut bytes);
            },
        }
        i += 1;
    }
    proof {
        assert(nodes_view(content@).skip(i as int) =~= Seq::<Node>::empty());
        lemma_folds_of_nothing(
            program_of(tree, visibility_map),
            section_id,
            symbol_kind,
            EncodeState { elf: elf@, pc: *pc },
            depth as nat,
        );
        lemma_followed_by_done(produced@, EncodeState { elf: elf@, pc: *pc });
    }
    Ok(produced)
}

/// Encodes one node at the root of the program.
///
/// For a section, the object section that goes with its name is created,
/// if the object has none of that name; the nodes below the section are
/// encoded as by [`encode_section`], and the bytes that this gives are
/// written to the end of the object section, aligned as instructions are.
/// Any other node is passed over.
pub fn encode_root(
    node: &AstNode,
    elf: &mut Elf,
    pc: &mut u64,
    tree: &Vec<AstNode>,
    visibility_map: &StringHashMap<SymbolInfo>,
    depth: usize,
) -> (done: Result<(), ElfError>)
    requires
        old(elf).wf(),
    ensures
        final(elf).wf(),
        final(elf)@.grows_from(old(elf)@),
        agrees(
            encode_root_spec(
                program_of(tree, visibility_map),
                node@,
                EncodeState { elf: old(elf)@, pc: *old(pc) },
                depth as nat,
            ),
            EncodeState { elf: final(elf)@, pc: *final(pc) },
            done,
        ),
{
    proof {
        lemma_grows_reflexive(elf@);
    }
    match node {
        AstNode::Section { name, content } => {
            let (section_name, section_kind, symbol_kind) = section_opts(name.as_str());
            let id = place_section(elf, section_name.as_str(), section_kind);
            let ghost ready = elf@;
            let body = encode_section(
                content,
                elf,
                section_name.as_str(),
                id,
                symbol_kind,
                pc,
                tree,
                visibility_map,
                depth,
            );
            proof {
                lemma_grows_transitive(old(elf)@, ready, elf@);
            }
            let ghost encoded = elf@;
            match body {
                Err(error) => Err(error),
                Ok(opcodes) => {
                    proof {
                        assert(4u64 & ((4u64 - 1) as u64) == 0) by (bit_vector);
                    }
                    elf.write_section(id, opcodes.as_slice(), INSTRUCTION_ALIGN);
                    proof {
                        lemma_grows_transitive(old(elf)@, encoded, elf@);
                    }
                    Ok(())
                },
            }
        },
        _ => Ok(()),
    }
}

/// Encodes a whole program into a new object.
///
/// The program counter starts at 0, and resolutions may nest as deep as the
/// program has labels. The nodes at the root of `sections` are encoded in
/// order, each as by [`encode_root`].
///
/// The result is the object, or the first failure: the name of a
/// load-address target that no label bears, or of a label at which
/// resolutions would have nested deeper than the program has labels, as
/// they do where labels refer to each other in a circle.
pub fn encode_sections(sections: Vec<AstNode>, visibility_map: StringHashMap<SymbolInfo>) -> (built:
    Result<Elf, ElfError>)
    ensures
        built matches Ok(elf) ==> elf.wf(),
        built matches Err(error) ==> failure_of(error) is Some,
        is_encoding_of(program_of(&sections, &visibility_map), built_view(built)),
{
    let mut elf = Elf::new();
    let mut pc: u64 = 0;
    let depth = count_labels(&sections);
    let mut i: usize = 0;
    let ghost whole = encode_sections_spec(program_of(&sections, &visibility_map));
    proof {
        lemma_nodes_view(sections@);
        assert(nodes_view(sections@).skip(0) =~= nodes_view(sections@));
    }
    while i < sections.len()
        invariant
            i <= sections.len(),
            elf.wf(),
            depth == depth_for(nodes_view(sections@)),
            nodes_view(sections@).len() == sections@.len(),
            whole == encode_sections_spec(program_of(&sections, &visibility_map)),
            whole == encode_sections_from(
                program_of(&sections, &visibility_map),
                nodes_view(sections@).skip(i as int),
                EncodeState { elf: elf@, pc },
                depth as nat,
            ),
        decreases sections.len() - i,
    {
        let ghost rest = nodes_view(sections@).skip(i as int);
        proof {
            lemma_nodes_view(sections@);
            assert(rest[0] == sections@[i as int]@);
            assert(rest.drop_first() == nodes_view(sections@).skip(i + 1));
            lemma_encode_sections_step(
                program_of(&sections, &visibility_map),
                rest,
                EncodeState { elf: elf@, pc },
                depth as nat,
            );
        }
        match encode_root(&sections[i], &mut elf, &mut pc, &sections, &visibility_map, depth) {
            Err(error) => {
                return Err(error);
            },
            Ok(()) => {},
        }
        i += 1;
    }
    proof {
        assert(nodes_view(sections@).skip(i as int) =~= Seq::<Node>::empty());
        lemma_folds_of_nothing(
            program_of(&sections, &visibility_map),
            SectionIndex(0),
            SymbolKind::Text,
            EncodeState { elf: elf@, pc },
            depth as nat,
        );
    }
    Ok(elf)
}

} // verus!
