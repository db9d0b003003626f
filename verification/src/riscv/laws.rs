//! What holds of encoding, whatever the program.

use crate::elf::obj::{ElfView, Relocation, RelocationKind, SectionIndex, SymbolKind};
use crate::parser::ast::{Node, SymbolInfo};
use crate::riscv::encode::{immediate_word, le_bytes, ImmArgs};
use crate::riscv::model::{
    advance, emit_load_address_spec, encode_found_spec, encode_label_spec, encode_member_spec,
    encode_nodes_spec, encode_root_spec, encode_section_spec, encode_sections_from,
    encode_sections_spec, encode_spec, find_label, info_of, is_encoding_of, load_address_spec,
    placed, resolve_spec, resolve_target_spec, resolve_targets_spec, section_opts_spec, word_of,
    EncodeState, Failure, Outcome, Program, OPCODE_SYSTEM,
};
use vstd::prelude::*;

verus! {

/// A label of a program, where the depth-first walk meets it.
pub ghost struct LabelSite {
    pub name: Seq<char>,
    /// The name of the section around the label.
    pub section: Seq<char>,
    pub content: Seq<Node>,
}

/// The labels of `nodes` in depth-first order, a label before the labels
/// below it. `section_name` is the name of the section around `nodes`.
pub open spec fn labels_in_order(nodes: Seq<Node>, section_name: Seq<char>) -> Seq<LabelSite>
    decreases nodes,
{
    if nodes.len() == 0 {
        Seq::empty()
    } else {
        let first = match nodes[0] {
            Node::Section { name, content } => labels_in_order(content, name),
            Node::Label { name, content } => seq![
                LabelSite { name, section: section_name, content },
            ] + labels_in_order(content, section_name),
            _ => Seq::empty(),
        };
        first + labels_in_order(nodes.drop_first(), section_name)
    }
}

/// Whether place `i` of `sites` is the first that holds a label called
/// `label`.
pub open spec fn is_first_site(sites: Seq<LabelSite>, label: Seq<char>, i: int) -> bool {
    &&& 0 <= i < sites.len()
    &&& sites[i].name == label
    &&& forall|j: int| 0 <= j < i ==> sites[j].name != label
}

/// Whether `found` is what a search for `label` among `sites` gives that
/// takes the first label of that name in order: nothing where no label
/// bears the name.
pub open spec fn is_first_match(
    sites: Seq<LabelSite>,
    label: Seq<char>,
    found: Option<(Seq<char>, Seq<Node>)>,
) -> bool {
    match found {
        None => forall|i: int| 0 <= i < sites.len() ==> sites[i].name != label,
        Some((section, content)) => exists|i: int|
            is_first_site(sites, label, i) && sites[i].section == section && sites[i].content
                == content,
    }
}

/// The first match among two runs of labels is the first match of the
/// first run, and that of the second run where the first has none.
pub proof fn lemma_first_match_of_two(
    front: Seq<LabelSite>,
    back: Seq<LabelSite>,
    label: Seq<char>,
    in_front: Option<(Seq<char>, Seq<Node>)>,
    in_back: Option<(Seq<char>, Seq<Node>)>,
)
    requires
        is_first_match(front, label, in_front),
        is_first_match(back, label, in_back),
    ensures
        is_first_match(
            front + back,
            label,
            match in_front {
                Some(found) => Some(found),
                None => in_back,
            },
        ),
{
    let both = front + back;
    match in_front {
        Some((section, content)) => {
            let i = choose|i: int|
                is_first_site(front, label, i) && front[i].section == section && front[i].content
                    == content;
            assert(both[i] == front[i]);
            assert forall|j: int| 0 <= j < i implies both[j].name != label by {
                assert(both[j] == front[j]);
            }
            assert(is_first_site(both, label, i));
        },
        None => {
            match in_back {
                Some((section, content)) => {
                    let i = choose|i: int|
                        is_first_site(back, label, i) && back[i].section == section
                            && back[i].content == content;
                    let k = front.len() + i;
                    assert(both[k] == back[i]);
                    assert forall|j: int| 0 <= j < k implies both[j].name != label by {
                        if j < front.len() {
                            assert(both[j] == front[j]);
                        } else {
                            assert(both[j] == back[j - front.len()]);
                        }
                    }
                    assert(is_first_site(both, label, k));
                },
                None => {
                    assert forall|j: int| 0 <= j < both.len() implies both[j].name != label by {
                        if j < front.len() {
                            assert(both[j] == front[j]);
                        } else {
                            assert(both[j] == back[j - front.len()]);
                        }
                    }
                },
            }
        },
    }
}

/// Where several labels share a name, at whatever depth and in whatever
/// sections, resolution takes the one that comes first in depth-first order
/// of the program, with the section that is around that one; it finds
/// nothing only where no label bears the name.
pub proof fn lemma_find_label_is_first(nodes: Seq<Node>, section_name: Seq<char>, label: Seq<char>)
    ensures
        is_first_match(
            labels_in_order(nodes, section_name),
            label,
            find_label(nodes, section_name, label),
        ),
    decreases nodes,
{
    if nodes.len() > 0 {
        let rest = nodes.drop_first();
        lemma_find_label_is_first(rest, section_name, label);
        match nodes[0] {
            Node::Section { name, content } => {
                lemma_find_label_is_first(content, name, label);
                lemma_first_match_of_two(
                    labels_in_order(content, name),
                    labels_in_order(rest, section_name),
                    label,
                    find_label(content, name, label),
                    find_label(rest, section_name, label),
                );
            },
            Node::Label { name, content } => {
                lemma_find_label_is_first(content, section_name, label);
                let this = seq![LabelSite { name, section: section_name, content }];
                let here: Option<(Seq<char>, Seq<Node>)> = if name == label {
                    Some((section_name, content))
                } else {
                    None
                };
                if name == label {
                    assert(is_first_site(this, label, 0));
                }
                assert(is_first_match(this, label, here));
                lemma_first_match_of_two(
                    this,
                    labels_in_order(content, section_name),
                    label,
                    here,
                    find_label(content, section_name, label),
                );
                lemma_first_match_of_two(
                    this + labels_in_order(content, section_name),
                    labels_in_order(rest, section_name),
                    label,
                    match here {
                        Some(found) => Some(found),
                        None => find_label(content, section_name, label),
                    },
                    find_label(rest, section_name, label),
                );
            },
            _ => {
                assert(Seq::<LabelSite>::empty() + labels_in_order(rest, section_name)
                    =~= labels_in_order(rest, section_name));
            },
        }
    }
}

/// The system call instruction encodes to the word `0x00000073`, whatever
/// the program, the section, the object and the program counter; it leaves
/// the object as it was and moves the counter on by 4.
pub proof fn lemma_ecall_is_fixed(
    program: Program,
    section_id: SectionIndex,
    state: EncodeState,
    depth: nat,
)
    ensures
        word_of(Node::Ecall) == Some(0x0000_0073u32),
        encode_spec(program, Node::Ecall, section_id, state, depth) == (Outcome {
            state: EncodeState { elf: state.elf, pc: advance(state.pc, 4) },
            result: Ok(seq![0x73u8, 0x00u8, 0x00u8, 0x00u8]),
        }),
{
    let word = immediate_word(ImmArgs { imm: 0, rs1: 0, rd: 0, funct3: 0, opcode: OPCODE_SYSTEM });
    assert((((0u64 & 0xFFF) as u32) << 20) | (0u32 << 15) | (0u32 << 12) | (0u32 << 7)
        | 0b1110011u32 == 0x73u32) by (bit_vector);
    assert(word == 0x73u32);
    assert((0x73u32 & 0xff) as u8 == 0x73u8 && ((0x73u32 >> 8) & 0xff) as u8 == 0u8 && ((0x73u32
        >> 16) & 0xff) as u8 == 0u8 && ((0x73u32 >> 24) & 0xff) as u8 == 0u8) by (bit_vector);
    assert(le_bytes(0x73u32) =~= seq![0x73u8, 0x00u8, 0x00u8, 0x00u8]);
}

/// Whether the last two relocations of `elf` are the pair that goes with a
/// load-address instruction at program counter `pc` in section
/// `section_id` against symbol `target`: one of the high 20 bits at `pc`,
/// then one of the low 12 bits four bytes on, both with addend 0.
pub open spec fn ends_with_pair(
    elf: ElfView,
    section_id: SectionIndex,
    target: crate::elf::obj::SymbolIndex,
    pc: u64,
) -> bool {
    let count = elf.relocations.len();
    &&& count >= 2
    &&& elf.relocations[count - 2] == (
        section_id,
        Relocation { offset: pc, symbol: target, addend: 0, kind: RelocationKind::Hi20 },
    )
    &&& elf.relocations[count - 1] == (
        section_id,
        Relocation {
            offset: advance(pc, 4),
            symbol: target,
            addend: 0,
            kind: RelocationKind::Lo12I,
        },
    )
}

/// A load-address instruction that goes through leaves the same pair of
/// relocations whether its target was a symbol of the object before, as
/// with a reference backward, or had to be resolved on the way, as with a
/// reference forward: a high-20 relocation followed by a low-12 one, four
/// bytes apart, against the symbol that bears the target's name, ending
/// eight bytes before the program counter. With a backward reference they
/// start at the counter as it was, and the object changes in nothing else.
pub proof fn lemma_load_address_pair(
    program: Program,
    rd: u32,
    symbol: Seq<char>,
    section_id: SectionIndex,
    state: EncodeState,
    depth: nat,
)
    requires
        load_address_spec(program, rd, symbol, section_id, state, depth).result is Ok,
    ensures
        ({
            let after = load_address_spec(program, rd, symbol, section_id, state, depth).state;
            &&& after.elf.symbol_named(symbol) is Some
            &&& exists|pc: u64|
                after.pc == advance(advance(pc, 4), 4) && ends_with_pair(
                    after.elf,
                    section_id,
                    after.elf.symbol_named(symbol)->0,
                    pc,
                )
            &&& state.elf.symbol_named(symbol) is Some ==> {
                &&& ends_with_pair(
                    after.elf,
                    section_id,
                    state.elf.symbol_named(symbol)->0,
                    state.pc,
                )
                &&& after.elf.relocations.len() == state.elf.relocations.len() + 2
                &&& after.elf.sections == state.elf.sections
                &&& after.elf.symbols == state.elf.symbols
            }
        }),
{
    let resolved = if state.elf.symbol_named(symbol) is Some {
        Outcome::done(state)
    } else {
        resolve_spec(program, symbol, state.elf.sections[section_id.0 as int].name, state, depth)
    };
    let target = resolved.state.elf.symbol_named(symbol)->0;
    let out = emit_load_address_spec(rd, target, section_id, resolved.state);
    assert(out == load_address_spec(program, rd, symbol, section_id, state, depth));
    assert(out.state.elf.symbol_names() =~= resolved.state.elf.symbol_names());
    assert(ends_with_pair(out.state.elf, section_id, target, resolved.state.pc));
}

/// Encoding is a function of the program: two runs on the same tree and
/// the same attributes give the same sections, symbols and relocations,
/// with the same ids and offsets, or stop for the same reason.
pub proof fn lemma_encoding_is_deterministic(
    program: Program,
    first: Result<ElfView, Failure>,
    second: Result<ElfView, Failure>,
)
    requires
        is_encoding_of(program, first),
        is_encoding_of(program, second),
    ensures
        first == second,
{
}

/// Whether every symbol of `elf` bears the attributes that `attrs` holds
/// for its name: those that the directives gave, wherever they stood.
pub open spec fn follows(elf: ElfView, attrs: Map<Seq<char>, SymbolInfo>) -> bool {
    forall|i: int|
        0 <= i < elf.symbols.len() ==> (#[trigger] elf.symbols[i]).info == info_of(
            attrs,
            elf.symbols[i].name,
        )
}

/// Resolving a symbol keeps the symbols in line with the attributes.
pub proof fn lemma_resolve_follows(
    program: Program,
    symbol: Seq<char>,
    section_name: Seq<char>,
    state: EncodeState,
    depth: nat,
)
    requires
        follows(state.elf, program.attrs),
    ensures
        follows(resolve_spec(program, symbol, section_name, state, depth).state.elf, program.attrs),
    decreases depth, 0nat, 1nat,
{
    match find_label(program.tree, section_name, symbol) {
        None => {},
        Some((enclosing, content)) => {
            lemma_found_follows(program, symbol, enclosing, content, state, depth);
        },
    }
}

/// Encoding a label that was found keeps the symbols in line with the
/// attributes.
pub proof fn lemma_found_follows(
    program: Program,
    symbol: Seq<char>,
    enclosing: Seq<char>,
    content: Seq<Node>,
    state: EncodeState,
    depth: nat,
)
    requires
        follows(state.elf, program.attrs),
    ensures
        follows(
            encode_found_spec(program, symbol, enclosing, content, state, depth).state.elf,
            program.attrs,
        ),
    decreases depth, 0nat, 0nat,
{
    if depth > 0 {
        let (section_name, section_kind, symbol_kind) = section_opts_spec(enclosing);
        let (elf, section_id) = placed(state.elf, section_name, section_kind);
        lemma_label_follows(
            program,
            section_id,
            symbol,
            content,
            symbol_kind,
            EncodeState { elf, ..state },
            (depth - 1) as nat,
        );
    }
}

/// Encoding a label with the attributes of its name keeps the symbols in
/// line with the attributes.
pub proof fn lemma_label_follows(
    program: Program,
    section_id: SectionIndex,
    name: Seq<char>,
    content: Seq<Node>,
    kind: SymbolKind,
    state: EncodeState,
    depth: nat,
)
    requires
        follows(state.elf, program.attrs),
    ensures
        follows(
            encode_label_spec(
                program,
                section_id,
                name,
                content,
                kind,
                info_of(program.attrs, name),
                state,
                depth,
            ).state.elf,
            program.attrs,
        ),
    decreases depth, 4nat, 0nat,
{
    let section_name = state.elf.sections[section_id.0 as int].name;
    lemma_targets_follow(program, content, section_name, state, depth);
    let resolved = resolve_targets_spec(program, content, section_name, state, depth);
    if resolved.result is Ok {
        lemma_nodes_follow(program, content, section_id, resolved.state, depth);
    }
}

/// Encoding a load-address instruction keeps the symbols in line with the
/// attributes.
pub proof fn lemma_load_address_follows(
    program: Program,
    rd: u32,
    symbol: Seq<char>,
    section_id: SectionIndex,
    state: EncodeState,
    depth: nat,
)
    requires
        follows(state.elf, program.attrs),
    ensures
        follows(
            load_address_spec(program, rd, symbol, section_id, state, depth).state.elf,
            program.attrs,
        ),
    decreases depth, 1nat, 0nat,
{
    if state.elf.symbol_named(symbol) is None {
        lemma_resolve_follows(
            program,
            symbol,
            state.elf.sections[section_id.0 as int].name,
            state,
            depth,
        );
    }
}

/// Encoding a node keeps the symbols in line with the attributes.
pub proof fn lemma_node_follows(
    program: Program,
    node: Node,
    section_id: SectionIndex,
    state: EncodeState,
    depth: nat,
)
    requires
        follows(state.elf, program.attrs),
    ensures
        follows(encode_spec(program, node, section_id, state, depth).state.elf, program.attrs),
    decreases depth, 2nat, 0nat,
{
    match node {
        Node::La { rd, symbol } => {
            lemma_load_address_follows(program, rd, symbol, section_id, state, depth);
        },
        _ => {},
    }
}

/// Resolving the targets of nodes keeps the symbols in line with the
/// attributes.
pub proof fn lemma_targets_follow(
    program: Program,
    nodes: Seq<Node>,
    section_name: Seq<char>,
    state: EncodeState,
    depth: nat,
)
    requires
        follows(state.elf, program.attrs),
    ensures
        follows(
            resolve_targets_spec(program, nodes, section_name, state, depth).state.elf,
            program.attrs,
        ),
    decreases depth, 3nat, nodes.len(),
{
    if nodes.len() > 0 {
        match nodes[0] {
            Node::La { rd, symbol } => {
                if state.elf.symbol_named(symbol) is None {
                    lemma_resolve_follows(program, symbol, section_name, state, depth);
                }
            },
            _ => {},
        }
        let first = resolve_target_spec(program, nodes[0], section_name, state, depth);
        if first.result is Ok {
            lemma_targets_follow(program, nodes.drop_first(), section_name, first.state, depth);
        }
    }
}

/// Encoding nodes one after the other keeps the symbols in line with the
/// attributes.
pub proof fn lemma_nodes_follow(
    program: Program,
    nodes: Seq<Node>,
    section_id: SectionIndex,
    state: EncodeState,
    depth: nat,
)
    requires
        follows(state.elf, program.attrs),
    ensures
        follows(
            encode_nodes_spec(program, nodes, section_id, state, depth).state.elf,
            program.attrs,
        ),
    decreases depth, 3nat, nodes.len(),
{
    if nodes.len() > 0 {
        lemma_node_follows(program, nodes[0], section_id, state, depth);
        let first = encode_spec(program, nodes[0], section_id, state, depth);
        if first.result is Ok {
            lemma_nodes_follow(program, nodes.drop_first(), section_id, first.state, depth);
        }
    }
}

/// Encoding the nodes below a section keeps the symbols in line with the
/// attributes.
pub proof fn lemma_section_follows(
    program: Program,
    nodes: Seq<Node>,
    section_id: SectionIndex,
    symbol_kind: SymbolKind,
    state: EncodeState,
    depth: nat,
)
    requires
        follows(state.elf, program.attrs),
    ensures
        follows(
            encode_section_spec(program, nodes, section_id, symbol_kind, state, depth).state.elf,
            program.attrs,
        ),
    decreases nodes.len(),
{
    reveal(encode_section_spec);
    if nodes.len() > 0 {
        match nodes[0] {
            Node::Label { name, content } => {
                if state.elf.symbol_named(name) is None {
                    lemma_label_follows(
                        program,
                        section_id,
                        name,
                        content,
                        symbol_kind,
                        state,
                        depth,
                    );
                }
            },
            _ => {
                lemma_node_follows(program, nodes[0], section_id, state, depth);
            },
        }
        let first = encode_member_spec(program, nodes[0], section_id, symbol_kind, state, depth);
        if first.result is Ok {
            lemma_section_follows(
                program,
                nodes.drop_first(),
                section_id,
                symbol_kind,
                first.state,
                depth,
            );
        }
    }
}

/// Encoding the nodes at the root keeps the symbols in line with the
/// attributes.
pub proof fn lemma_sections_follow(
    program: Program,
    nodes: Seq<Node>,
    state: EncodeState,
    depth: nat,
)
    requires
        follows(state.elf, program.attrs),
    ensures
        follows(encode_sections_from(program, nodes, state, depth).state.elf, program.attrs),
    decreases nodes.len(),
{
    reveal(encode_sections_from);
    if nodes.len() > 0 {
        match nodes[0] {
            Node::Section { name, content } => {
                let (section_name, section_kind, symbol_kind) = section_opts_spec(name);
                let (elf, section_id) = placed(state.elf, section_name, section_kind);
                lemma_section_follows(
                    program,
                    content,
                    section_id,
                    symbol_kind,
                    EncodeState { elf, ..state },
                    depth,
                );
            },
            _ => {},
        }
        let first = encode_root_spec(program, nodes[0], state, depth);
        if first.result is Ok {
            lemma_sections_follow(program, nodes.drop_first(), first.state, depth);
        }
    }
}

/// Every symbol of an encoded program bears the attributes that the
/// attribute table holds for its name. The table is complete before
/// encoding begins, so a directive counts wherever it stood in the source:
/// before the label that it names or after it.
pub proof fn lemma_symbols_follow_attributes(program: Program)
    ensures
        follows(encode_sections_spec(program).state.elf, program.attrs),
{
    lemma_sections_follow(
        program,
        program.tree,
        EncodeState { elf: ElfView::empty(), pc: 0 },
        crate::riscv::model::depth_for(program.tree),
    );
}

} // verus!
