//! What encoding a program means, as functions on mathematical values.
//!
//! Encoding threads a state through the program: the object model and the
//! program counter. Every function here takes the state before and gives an
//! [`Outcome`]: the state after, with the bytes that were produced or the
//! reason why encoding stopped.

use crate::elf::obj::{
    ElfView, Relocation, RelocationKind, SectionIndex, SectionKind, SymbolIndex, SymbolKind,
};
use crate::parser::ast::{Node, SymbolInfo};
use crate::riscv::encode::{
    immediate_word, le_bytes, register_word, store_word, upper_word, ImmArgs, RegArgs, StoreArgs,
    UpperArgs,
};
use vstd::prelude::*;

verus! {

/// The opcode of the system instructions.
pub const OPCODE_SYSTEM: u32 = 0b1110011;

/// The opcode of the register-immediate arithmetic instructions.
pub const OPCODE_OP_IMM: u32 = 0b0010011;

/// The opcode of the register-register arithmetic instructions.
pub const OPCODE_OP: u32 = 0b0110011;

/// The opcode of the store instructions.
pub const OPCODE_STORE: u32 = 0b0100011;

/// The opcode of `lui`.
pub const OPCODE_LUI: u32 = 0b0110111;

/// The opcode of `auipc`.
pub const OPCODE_AUIPC: u32 = 0b0010111;

/// The alignment at which instructions are written to a section.
pub const INSTRUCTION_ALIGN: u64 = 4;

/// The program counter `by` bytes further on. It counts modulo 2^64.
pub open spec fn advance(pc: u64, by: nat) -> u64 {
    ((pc + by) % 0x1_0000_0000_0000_0000) as u64
}

/// The word of a register-register arithmetic instruction.
pub open spec fn op_word(rd: u32, rs1: u32, rs2: u32, funct7: u32, funct3: u32) -> u32 {
    register_word(RegArgs { rs1, rs2, rd, funct7, funct3, opcode: OPCODE_OP })
}

/// The word that encodes `node`, where `node` is an instruction of one word
/// that names no symbol.
pub open spec fn word_of(node: Node) -> Option<u32> {
    match node {
        Node::Ecall => Some(
            immediate_word(ImmArgs { imm: 0, rs1: 0, rd: 0, funct3: 0, opcode: OPCODE_SYSTEM }),
        ),
        Node::Addi { rd, rs1, imm } => Some(
            immediate_word(ImmArgs { imm, rs1, rd, funct3: 0, opcode: OPCODE_OP_IMM }),
        ),
        Node::Sub { rd, rs1, rs2 } => Some(op_word(rd, rs1, rs2, 0x20, 0x0)),
        Node::Sll { rd, rs1, rs2 } => Some(op_word(rd, rs1, rs2, 0x0, 0x1)),
        Node::Srl { rd, rs1, rs2 } => Some(op_word(rd, rs1, rs2, 0x0, 0x5)),
        Node::Sra { rd, rs1, rs2 } => Some(op_word(rd, rs1, rs2, 0x20, 0x5)),
        Node::Slt { rd, rs1, rs2 } => Some(op_word(rd, rs1, rs2, 0x0, 0x2)),
        Node::Sltu { rd, rs1, rs2 } => Some(op_word(rd, rs1, rs2, 0x0, 0x3)),
        Node::Xor { rd, rs1, rs2 } => Some(op_word(rd, rs1, rs2, 0x0, 0x4)),
        Node::Add { rd, rs1, rs2 } => Some(op_word(rd, rs1, rs2, 0x0, 0x0)),
        Node::Sb { rs2, imm, rs1 } => Some(
            store_word(StoreArgs { imm, rs2, rs1, opcode: OPCODE_STORE, funct3: 0 }),
        ),
        Node::Lui { rd, imm } => Some(upper_word(UpperArgs { imm, rd, opcode: OPCODE_LUI })),
        Node::Auipc { rd, imm } => Some(upper_word(UpperArgs { imm, rd, opcode: OPCODE_AUIPC })),
        _ => None,
    }
}

/// The bytes that encode `node`, where `node` names no symbol: the word of
/// an instruction, least significant byte first; the bytes of a byte
/// literal; nothing for a section or a label.
pub open spec fn bytes_of(node: Node) -> Seq<u8> {
    match node {
        Node::Assci { seq } => seq,
        _ => match word_of(node) {
            Some(word) => le_bytes(word),
            None => Seq::empty(),
        },
    }
}

/// By how many bytes encoding `node` moves the program counter on, where
/// `node` names no symbol: by the length of a byte literal, and by 4 for
/// any other node.
pub open spec fn size_of(node: Node) -> nat {
    match node {
        Node::Assci { seq } => seq.len(),
        _ => 4,
    }
}

/// The two words that load `address` into `rd`: an upper-immediate
/// instruction with bits 12 to 31 of the address, then a register-immediate
/// instruction that adds its bits 0 to 11 to `rd`.
pub open spec fn la_bytes(rd: u32, address: u64) -> Seq<u8> {
    le_bytes(upper_word(UpperArgs { imm: address >> 12, rd, opcode: OPCODE_LUI })) + le_bytes(
        immediate_word(ImmArgs { imm: address, rs1: rd, rd, funct3: 0, opcode: OPCODE_OP_IMM }),
    )
}

/// The object section and the kinds that go with a section name of the
/// source.
pub open spec fn section_opts_spec(name: Seq<char>) -> (Seq<char>, SectionKind, SymbolKind) {
    if name == ".text"@ {
        ("text"@, SectionKind::Text, SymbolKind::Text)
    } else if name == ".data"@ {
        ("data"@, SectionKind::Data, SymbolKind::Data)
    } else if name == ".bss"@ {
        ("bss"@, SectionKind::UninitializedData, SymbolKind::Data)
    } else {
        (name, SectionKind::Unknown, SymbolKind::Section)
    }
}

/// The attributes that the directives gave to `name`: local and not weak
/// where they gave none.
pub open spec fn info_of(attrs: Map<Seq<char>, SymbolInfo>, name: Seq<char>) -> SymbolInfo {
    if attrs.contains_key(name) {
        attrs[name]
    } else {
        SymbolInfo::initial()
    }
}

/// The first label called `label` in `nodes`, in depth-first order, with the
/// name of the section around it: `section_name` where no section of
/// `nodes` is around it. A label comes before the nodes below it.
pub open spec fn find_label(nodes: Seq<Node>, section_name: Seq<char>, label: Seq<char>) -> Option<
    (Seq<char>, Seq<Node>),
>
    decreases nodes,
{
    if nodes.len() == 0 {
        None
    } else {
        let below = match nodes[0] {
            Node::Section { name, content } => find_label(content, name, label),
            Node::Label { name, content } => if name == label {
                Some((section_name, content))
            } else {
                find_label(content, section_name, label)
            },
            _ => None,
        };
        match below {
            Some(found) => Some(found),
            None => find_label(nodes.drop_first(), section_name, label),
        }
    }
}

/// The number of labels in `nodes`, at any depth.
pub open spec fn label_count(nodes: Seq<Node>) -> nat
    decreases nodes,
{
    if nodes.len() == 0 {
        0
    } else {
        let below = match nodes[0] {
            Node::Section { name, content } => label_count(content),
            Node::Label { name, content } => 1 + label_count(content),
            _ => 0,
        };
        below + label_count(nodes.drop_first())
    }
}

/// Why encoding stopped.
pub ghost enum Failure {
    /// No label of this name stands anywhere in the program.
    Unresolved(Seq<char>),
    /// This label was found, but encoding it would nest resolutions deeper
    /// than allowed.
    TooDeep(Seq<char>),
}

/// What encoding works on: the object model and the program counter.
pub ghost struct EncodeState {
    pub elf: ElfView,
    pub pc: u64,
}

/// Where encoding left its state, and the bytes it produced or the reason
/// why it stopped.
pub ghost struct Outcome {
    pub state: EncodeState,
    pub result: Result<Seq<u8>, Failure>,
}

/// What the encoder reads and never changes: the whole program and the
/// attributes of its symbols.
pub ghost struct Program {
    pub tree: Seq<Node>,
    pub attrs: Map<Seq<char>, SymbolInfo>,
}

impl Outcome {
    /// Encoding that went through from `state` without producing bytes.
    pub open spec fn done(state: EncodeState) -> Outcome {
        Outcome { state, result: Ok(Seq::empty()) }
    }

    /// Encoding that stopped in `state`.
    pub open spec fn failed(state: EncodeState, failure: Failure) -> Outcome {
        Outcome { state, result: Err(failure) }
    }

    /// This outcome without its bytes.
    pub open spec fn silent(self) -> Outcome {
        match self.result {
            Ok(_) => Outcome::done(self.state),
            Err(_) => self,
        }
    }
}

/// The object with a section called `name` in it, and the id of that
/// section: the section is created with `kind` where the object has none of
/// that name.
pub open spec fn placed(elf: ElfView, name: Seq<char>, kind: SectionKind) -> (
    ElfView,
    SectionIndex,
) {
    match elf.section_named(name) {
        Some(id) => (elf, id),
        None => (elf.create_section(name, kind), SectionIndex(elf.sections.len() as usize)),
    }
}

/// The two instructions of a load-address of symbol `target`, in section
/// `section_id`: two relocations against the target, one of the high 20
/// bits at the program counter and one of the low 12 bits four bytes on,
/// and the counter eight bytes on.
pub open spec fn emit_load_address_spec(
    rd: u32,
    target: SymbolIndex,
    section_id: SectionIndex,
    state: EncodeState,
) -> Outcome {
    let high = Relocation {
        offset: state.pc,
        symbol: target,
        addend: 0,
        kind: RelocationKind::Hi20,
    };
    let low = Relocation {
        offset: advance(state.pc, 4),
        symbol: target,
        addend: 0,
        kind: RelocationKind::Lo12I,
    };
    Outcome {
        state: EncodeState {
            elf: state.elf.create_reallocation(section_id, high).create_reallocation(
                section_id,
                low,
            ),
            pc: advance(advance(state.pc, 4), 4),
        },
        result: Ok(la_bytes(rd, state.elf.symbols[target.0 as int].value)),
    }
}

/// Encoding of a load-address instruction: see
/// [`load_address`](crate::riscv::load_address).
pub open spec fn load_address_spec(
    program: Program,
    rd: u32,
    symbol: Seq<char>,
    section_id: SectionIndex,
    state: EncodeState,
    depth: nat,
) -> Outcome
    decreases depth, 1nat, 0nat,
{
    let resolved = if state.elf.symbol_named(symbol) is Some {
        Outcome::done(state)
    } else {
        resolve_spec(program, symbol, state.elf.sections[section_id.0 as int].name, state, depth)
    };
    match (resolved.result, resolved.state.elf.symbol_named(symbol)) {
        (Err(failure), _) => resolved,
        (Ok(_), None) => Outcome::failed(resolved.state, Failure::Unresolved(symbol)),
        (Ok(_), Some(target)) => emit_load_address_spec(rd, target, section_id, resolved.state),
    }
}

/// Encoding of one node: see [`encode`](crate::riscv::encode).
pub open spec fn encode_spec(
    program: Program,
    node: Node,
    section_id: SectionIndex,
    state: EncodeState,
    depth: nat,
) -> Outcome
    decreases depth, 2nat, 0nat,
{
    match node {
        Node::La { rd, symbol } => load_address_spec(program, rd, symbol, section_id, state, depth),
        _ => Outcome {
            state: EncodeState { pc: advance(state.pc, size_of(node)), ..state },
            result: Ok(bytes_of(node)),
        },
    }
}

/// Resolution of `symbol`: the search of
/// [`search_label_encode`](crate::riscv::search_label_encode), started at
/// the root of the program, where finding nothing is a failure.
pub open spec fn resolve_spec(
    program: Program,
    symbol: Seq<char>,
    section_name: Seq<char>,
    state: EncodeState,
    depth: nat,
) -> Outcome
    decreases depth, 0nat, 1nat,
{
    match find_label(program.tree, section_name, symbol) {
        None => Outcome::failed(state, Failure::Unresolved(symbol)),
        Some((enclosing, content)) => encode_found_spec(
            program,
            symbol,
            enclosing,
            content,
            state,
            depth,
        ),
    }
}

/// What resolution does with the label it found: it creates the label's
/// section where the object has none of that name, and encodes the label
/// there, one level deeper.
pub open spec fn encode_found_spec(
    program: Program,
    symbol: Seq<char>,
    enclosing: Seq<char>,
    content: Seq<Node>,
    state: EncodeState,
    depth: nat,
) -> Outcome
    decreases depth, 0nat, 0nat,
{
    if depth == 0 {
        Outcome::failed(state, Failure::TooDeep(symbol))
    } else {
        let (section_name, section_kind, symbol_kind) = section_opts_spec(enclosing);
        let (elf, section_id) = placed(state.elf, section_name, section_kind);
        encode_label_spec(
            program,
            section_id,
            symbol,
            content,
            symbol_kind,
            info_of(program.attrs, symbol),
            EncodeState { elf, ..state },
            (depth - 1) as nat,
        ).silent()
    }
}

/// Encoding of a label into section `section_id`: see
/// [`encode_label`](crate::riscv::encode_label).
pub open spec fn encode_label_spec(
    program: Program,
    section_id: SectionIndex,
    name: Seq<char>,
    content: Seq<Node>,
    kind: SymbolKind,
    info: SymbolInfo,
    state: EncodeState,
    depth: nat,
) -> Outcome
    decreases depth, 4nat, 0nat,
{
    let resolved = resolve_targets_spec(
        program,
        content,
        state.elf.sections[section_id.0 as int].name,
        state,
        depth,
    );
    match resolved.result {
        Err(failure) => resolved,
        Ok(_) => {
            let body = encode_nodes_spec(program, content, section_id, resolved.state, depth);
            match body.result {
                Err(failure) => body,
                Ok(bytes) => Outcome {
                    state: EncodeState {
                        elf: body.state.elf.create_symbol(
                            name,
                            bytes,
                            section_id,
                            kind,
                            info,
                            INSTRUCTION_ALIGN,
                        ),
                        ..body.state
                    },
                    result: Ok(bytes),
                },
            }
        },
    }
}

/// Resolution of the target of `node`, where `node` is a load-address
/// instruction of whose target the object holds no symbol yet; nothing for
/// any other node.
pub open spec fn resolve_target_spec(
    program: Program,
    node: Node,
    section_name: Seq<char>,
    state: EncodeState,
    depth: nat,
) -> Outcome
    decreases depth, 2nat, 0nat,
{
    match node {
        Node::La { rd, symbol } => if state.elf.symbol_named(symbol) is Some {
            Outcome::done(state)
        } else {
            resolve_spec(program, symbol, section_name, state, depth)
        },
        _ => Outcome::done(state),
    }
}

/// Resolution of the targets of `nodes`, in order, up to the first
/// failure: see [`resolve_targets`](crate::riscv::resolve_targets).
pub open spec fn resolve_targets_spec(
    program: Program,
    nodes: Seq<Node>,
    section_name: Seq<char>,
    state: EncodeState,
    depth: nat,
) -> Outcome
    decreases depth, 3nat, nodes.len(),
{
    if nodes.len() == 0 {
        Outcome::done(state)
    } else {
        let first = resolve_target_spec(program, nodes[0], section_name, state, depth);
        match first.result {
            Err(failure) => first,
            Ok(_) => resolve_targets_spec(
                program,
                nodes.drop_first(),
                section_name,
                first.state,
                depth,
            ),
        }
    }
}

/// The outcome of a first step that went through and gave `bytes`,
/// followed by `rest`.
pub open spec fn followed_by(bytes: Seq<u8>, rest: Outcome) -> Outcome {
    match rest.result {
        Err(failure) => rest,
        Ok(more) => Outcome { state: rest.state, result: Ok(bytes + more) },
    }
}

/// Encoding of `nodes` one after the other into section `section_id`: the
/// bytes of all of them in order, or the first failure.
pub open spec fn encode_nodes_spec(
    program: Program,
    nodes: Seq<Node>,
    section_id: SectionIndex,
    state: EncodeState,
    depth: nat,
) -> Outcome
    decreases depth, 3nat, nodes.len(),
{
    if nodes.len() == 0 {
        Outcome::done(state)
    } else {
        let first = encode_spec(program, nodes[0], section_id, state, depth);
        match first.result {
            Err(failure) => first,
            Ok(bytes) => followed_by(
                bytes,
                encode_nodes_spec(program, nodes.drop_first(), section_id, first.state, depth),
            ),
        }
    }
}

/// Encoding of one node directly below a section: a label of which the
/// object holds a symbol already is passed over, any other label is encoded
/// as a label and gives no bytes, any other node is encoded as a node.
pub open spec fn encode_member_spec(
    program: Program,
    node: Node,
    section_id: SectionIndex,
    symbol_kind: SymbolKind,
    state: EncodeState,
    depth: nat,
) -> Outcome {
    match node {
        Node::Label { name, content } => if state.elf.symbol_named(name) is Some {
            Outcome::done(state)
        } else {
            encode_label_spec(
                program,
                section_id,
                name,
                content,
                symbol_kind,
                info_of(program.attrs, name),
                state,
                depth,
            ).silent()
        },
        _ => encode_spec(program, node, section_id, state, depth),
    }
}

/// Encoding of the nodes directly below a section, one after the other,
/// into section `section_id`: see
/// [`encode_section`](crate::riscv::encode_section).
#[verifier::opaque]
pub open spec fn encode_section_spec(
    program: Program,
    nodes: Seq<Node>,
    section_id: SectionIndex,
    symbol_kind: SymbolKind,
    state: EncodeState,
    depth: nat,
) -> Outcome
    decreases nodes.len(),
{
    if nodes.len() == 0 {
        Outcome::done(state)
    } else {
        let first = encode_member_spec(program, nodes[0], section_id, symbol_kind, state, depth);
        match first.result {
            Err(failure) => first,
            Ok(bytes) => followed_by(
                bytes,
                encode_section_spec(
                    program,
                    nodes.drop_first(),
                    section_id,
                    symbol_kind,
                    first.state,
                    depth,
                ),
            ),
        }
    }
}

/// Encoding of one node at the root of the program: a section has its
/// object section created, where the object has none of that name, the
/// nodes below it encoded, and the bytes that this gives written to the end
/// of the object section; any other node is passed over.
pub open spec fn encode_root_spec(
    program: Program,
    node: Node,
    state: EncodeState,
    depth: nat,
) -> Outcome {
    match node {
        Node::Section { name, content } => {
            let (section_name, section_kind, symbol_kind) = section_opts_spec(name);
            let (elf, section_id) = placed(state.elf, section_name, section_kind);
            let body = encode_section_spec(
                program,
                content,
                section_id,
                symbol_kind,
                EncodeState { elf, ..state },
                depth,
            );
            match body.result {
                Err(failure) => body,
                Ok(opcodes) => Outcome::done(
                    EncodeState {
                        elf: body.state.elf.write_section(section_id, opcodes, INSTRUCTION_ALIGN),
                        ..body.state
                    },
                ),
            }
        },
        _ => Outcome::done(state),
    }
}

/// Encoding of the nodes at the root of the program, in order, up to the
/// first failure.
#[verifier::opaque]
pub open spec fn encode_sections_from(
    program: Program,
    nodes: Seq<Node>,
    state: EncodeState,
    depth: nat,
) -> Outcome
    decreases nodes.len(),
{
    if nodes.len() == 0 {
        Outcome::done(state)
    } else {
        let first = encode_root_spec(program, nodes[0], state, depth);
        match first.result {
            Err(failure) => first,
            Ok(_) => encode_sections_from(program, nodes.drop_first(), first.state, depth),
        }
    }
}

/// How deep resolutions may nest when a whole program is encoded: as deep
/// as the program has labels, as far as that can be counted.
pub open spec fn depth_for(tree: Seq<Node>) -> nat {
    if label_count(tree) <= usize::MAX {
        label_count(tree)
    } else {
        usize::MAX as nat
    }
}

/// Encoding of a whole program into an empty object, with the program
/// counter at 0: see [`encode_sections`](crate::riscv::encode_sections).
pub open spec fn encode_sections_spec(program: Program) -> Outcome {
    encode_sections_from(
        program,
        program.tree,
        EncodeState { elf: ElfView::empty(), pc: 0 },
        depth_for(program.tree),
    )
}

/// Whether `built` is what encoding the program gives: the object, or the
/// reason why encoding stopped.
pub open spec fn is_encoding_of(program: Program, built: Result<ElfView, Failure>) -> bool {
    match built {
        Ok(elf) => encode_sections_spec(program).result is Ok && elf == encode_sections_spec(
            program,
        ).state.elf,
        Err(failure) => encode_sections_spec(program).result == Err::<Seq<u8>, Failure>(failure),
    }
}

/// [`resolve_targets_spec`], one step unfolded.
pub proof fn lemma_resolve_targets_step(
    program: Program,
    nodes: Seq<Node>,
    section_name: Seq<char>,
    state: EncodeState,
    depth: nat,
)
    requires
        nodes.len() > 0,
    ensures
        resolve_targets_spec(program, nodes, section_name, state, depth) == ({
            let first = resolve_target_spec(program, nodes[0], section_name, state, depth);
            if first.result is Err {
                first
            } else {
                resolve_targets_spec(program, nodes.drop_first(), section_name, first.state, depth)
            }
        }),
{
}

/// [`encode_nodes_spec`], one step unfolded.
pub proof fn lemma_encode_nodes_step(
    program: Program,
    nodes: Seq<Node>,
    section_id: SectionIndex,
    state: EncodeState,
    depth: nat,
)
    requires
        nodes.len() > 0,
    ensures
        encode_nodes_spec(program, nodes, section_id, state, depth) == ({
            let first = encode_spec(program, nodes[0], section_id, state, depth);
            if first.result is Err {
                first
            } else {
                followed_by(
                    first.result->Ok_0,
                    encode_nodes_spec(program, nodes.drop_first(), section_id, first.state, depth),
                )
            }
        }),
{
}

/// [`encode_section_spec`], one step unfolded.
pub proof fn lemma_encode_section_step(
    program: Program,
    nodes: Seq<Node>,
    section_id: SectionIndex,
    symbol_kind: SymbolKind,
    state: EncodeState,
    depth: nat,
)
    requires
        nodes.len() > 0,
    ensures
        encode_section_spec(program, nodes, section_id, symbol_kind, state, depth) == ({
            let first = encode_member_spec(
                program,
                nodes[0],
                section_id,
                symbol_kind,
                state,
                depth,
            );
            if first.result is Err {
                first
            } else {
                followed_by(
                    first.result->Ok_0,
                    encode_section_spec(
                        program,
                        nodes.drop_first(),
                        section_id,
                        symbol_kind,
                        first.state,
                        depth,
                    ),
                )
            }
        }),
{
    reveal(encode_section_spec);
}

/// [`encode_sections_from`], one step unfolded.
pub proof fn lemma_encode_sections_step(
    program: Program,
    nodes: Seq<Node>,
    state: EncodeState,
    depth: nat,
)
    requires
        nodes.len() > 0,
    ensures
        encode_sections_from(program, nodes, state, depth) == ({
            let first = encode_root_spec(program, nodes[0], state, depth);
            if first.result is Err {
                first
            } else {
                encode_sections_from(program, nodes.drop_first(), first.state, depth)
            }
        }),
{
    reveal(encode_sections_from);
}

/// The folds over no nodes change nothing.
pub proof fn lemma_folds_of_nothing(
    program: Program,
    section_id: SectionIndex,
    symbol_kind: SymbolKind,
    state: EncodeState,
    depth: nat,
)
    ensures
        encode_section_spec(program, Seq::empty(), section_id, symbol_kind, state, depth)
            == Outcome::done(state),
        encode_sections_from(program, Seq::empty(), state, depth) == Outcome::done(state),
{
    reveal(encode_section_spec);
    reveal(encode_sections_from);
}

} // verus!
