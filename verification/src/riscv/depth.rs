//! The depth is a bound and nothing more.
//!
//! Encoding takes a depth that bounds how far resolutions may nest, so that
//! labels which refer to each other in a circle stop it. Where encoding at
//! some depth does not run into that bound, the depth plays no part in what
//! it gives: every greater depth gives the same.

use crate::elf::obj::{SectionIndex, SymbolKind};
use crate::parser::ast::{Node, SymbolInfo};
use crate::riscv::model::{
    encode_found_spec, encode_label_spec, encode_member_spec, encode_nodes_spec, encode_root_spec,
    encode_section_spec, encode_sections_from, encode_spec, find_label, info_of, load_address_spec,
    placed, resolve_spec, resolve_target_spec, resolve_targets_spec, section_opts_spec, EncodeState,
    Failure, Outcome, Program,
};
use vstd::prelude::*;

verus! {

/// Whether encoding stopped because resolutions would have nested too
/// deep.
pub open spec fn ran_too_deep(outcome: Outcome) -> bool {
    outcome.result matches Err(Failure::TooDeep(_))
}

/// Resolution that does not run too deep gives the same at every greater
/// depth.
pub proof fn lemma_resolve_at_depth(
    program: Program,
    symbol: Seq<char>,
    section_name: Seq<char>,
    state: EncodeState,
    depth: nat,
    more: nat,
)
    requires
        depth <= more,
        !ran_too_deep(resolve_spec(program, symbol, section_name, state, depth)),
    ensures
        resolve_spec(program, symbol, section_name, state, more) == resolve_spec(
            program,
            symbol,
            section_name,
            state,
            depth,
        ),
    decreases depth, 0nat, 1nat,
{
    match find_label(program.tree, section_name, symbol) {
        None => {},
        Some((enclosing, content)) => {
            lemma_found_at_depth(program, symbol, enclosing, content, state, depth, more);
        },
    }
}

/// Encoding a label that was found, where it does not run too deep, gives
/// the same at every greater depth.
pub proof fn lemma_found_at_depth(
    program: Program,
    symbol: Seq<char>,
    enclosing: Seq<char>,
    content: Seq<Node>,
    state: EncodeState,
    depth: nat,
    more: nat,
)
    requires
        depth <= more,
        !ran_too_deep(encode_found_spec(program, symbol, enclosing, content, state, depth)),
    ensures
        encode_found_spec(program, symbol, enclosing, content, state, more) == encode_found_spec(
            program,
            symbol,
            enclosing,
            content,
            state,
            depth,
        ),
    decreases depth, 0nat, 0nat,
{
    if depth > 0 {
        let (section_name, section_kind, symbol_kind) = section_opts_spec(enclosing);
        let (elf, section_id) = placed(state.elf, section_name, section_kind);
        lemma_label_at_depth(
            program,
            section_id,
            symbol,
            content,
            symbol_kind,
            info_of(program.attrs, symbol),
            EncodeState { elf, ..state },
            (depth - 1) as nat,
            (more - 1) as nat,
        );
    }
}

/// Encoding a label, where it does not run too deep, gives the same at
/// every greater depth.
pub proof fn lemma_label_at_depth(
    program: Program,
    section_id: SectionIndex,
    name: Seq<char>,
    content: Seq<Node>,
    kind: SymbolKind,
    info: SymbolInfo,
    state: EncodeState,
    depth: nat,
    more: nat,
)
    requires
        depth <= more,
        !ran_too_deep(
            encode_label_spec(program, section_id, name, content, kind, info, state, depth),
        ),
    ensures
        encode_label_spec(program, section_id, name, content, kind, info, state, more)
            == encode_label_spec(program, section_id, name, content, kind, info, state, depth),
    decreases depth, 4nat, 0nat,
{
    let section_name = state.elf.sections[section_id.0 as int].name;
    let resolved = resolve_targets_spec(program, content, section_name, state, depth);
    lemma_targets_at_depth(program, content, section_name, state, depth, more);
    if resolved.result is Ok {
        lemma_nodes_at_depth(program, content, section_id, resolved.state, depth, more);
    }
}

/// Encoding a load-address instruction, where it does not run too deep,
/// gives the same at every greater depth.
pub proof fn lemma_load_address_at_depth(
    program: Program,
    rd: u32,
    symbol: Seq<char>,
    section_id: SectionIndex,
    state: EncodeState,
    depth: nat,
    more: nat,
)
    requires
        depth <= more,
        !ran_too_deep(load_address_spec(program, rd, symbol, section_id, state, depth)),
    ensures
        load_address_spec(program, rd, symbol, section_id, state, more) == load_address_spec(
            program,
            rd,
            symbol,
            section_id,
            state,
            depth,
        ),
    decreases depth, 1nat, 0nat,
{
    if state.elf.symbol_named(symbol) is None {
        lemma_resolve_at_depth(
            program,
            symbol,
            state.elf.sections[section_id.0 as int].name,
            state,
            depth,
            more,
        );
    }
}

/// Encoding a node, where it does not run too deep, gives the same at
/// every greater depth.
pub proof fn lemma_node_at_depth(
    program: Program,
    node: Node,
    section_id: SectionIndex,
    state: EncodeState,
    depth: nat,
    more: nat,
)
    requires
        depth <= more,
        !ran_too_deep(encode_spec(program, node, section_id, state, depth)),
    ensures
        encode_spec(program, node, section_id, state, more) == encode_spec(
            program,
            node,
            section_id,
            state,
            depth,
        ),
    decreases depth, 2nat, 0nat,
{
    match node {
        Node::La { rd, symbol } => {
            lemma_load_address_at_depth(program, rd, symbol, section_id, state, depth, more);
        },
        _ => {},
    }
}

/// Resolving the targets of nodes, where it does not run too deep, gives
/// the same at every greater depth.
pub proof fn lemma_targets_at_depth(
    program: Program,
    nodes: Seq<Node>,
    section_name: Seq<char>,
    state: EncodeState,
    depth: nat,
    more: nat,
)
    requires
        depth <= more,
        !ran_too_deep(resolve_targets_spec(program, nodes, section_name, state, depth)),
    ensures
        resolve_targets_spec(program, nodes, section_name, state, more) == resolve_targets_spec(
            program,
            nodes,
            section_name,
            state,
            depth,
        ),
    decreases depth, 3nat, nodes.len(),
{
    if nodes.len() > 0 {
        match nodes[0] {
            Node::La { rd, symbol } => {
                if state.elf.symbol_named(symbol) is None {
                    lemma_resolve_at_depth(program, symbol, section_name, state, depth, more);
                }
            },
            _ => {},
        }
        let first = resolve_target_spec(program, nodes[0], section_name, state, depth);
        assert(resolve_target_spec(program, nodes[0], section_name, state, more) == first);
        if first.result is Ok {
            lemma_targets_at_depth(
                program,
                nodes.drop_first(),
                section_name,
                first.state,
                depth,
                more,
            );
        }
    }
}

/// Encoding nodes one after the other, where it does not run too deep,
/// gives the same at every greater depth.
pub proof fn lemma_nodes_at_depth(
    program: Program,
    nodes: Seq<Node>,
    section_id: SectionIndex,
    state: EncodeState,
    depth: nat,
    more: nat,
)
    requires
        depth <= more,
        !ran_too_deep(encode_nodes_spec(program, nodes, section_id, state, depth)),
    ensures
        encode_nodes_spec(program, nodes, section_id, state, more) == encode_nodes_spec(
            program,
            nodes,
            section_id,
            state,
            depth,
        ),
    decreases depth, 3nat, nodes.len(),
{
    if nodes.len() > 0 {
        lemma_node_at_depth(program, nodes[0], section_id, state, depth, more);
        let first = encode_spec(program, nodes[0], section_id, state, depth);
        if first.result is Ok {
            lemma_nodes_at_depth(program, nodes.drop_first(), section_id, first.state, depth, more);
        }
    }
}

/// Encoding the nodes below a section, where it does not run too deep,
/// gives the same at every greater depth.
pub proof fn lemma_section_at_depth(
    program: Program,
    nodes: Seq<Node>,
    section_id: SectionIndex,
    symbol_kind: SymbolKind,
    state: EncodeState,
    depth: nat,
    more: nat,
)
    requires
        depth <= more,
        !ran_too_deep(encode_section_spec(program, nodes, section_id, symbol_kind, state, depth)),
    ensures
        encode_section_spec(program, nodes, section_id, symbol_kind, state, more)
            == encode_section_spec(program, nodes, section_id, symbol_kind, state, depth),
    decreases nodes.len(),
{
    reveal(encode_section_spec);
    if nodes.len() > 0 {
        match nodes[0] {
            Node::Label { name, content } => {
                if state.elf.symbol_named(name) is None {
                    lemma_label_at_depth(
                        program,
                        section_id,
                        name,
                        content,
                        symbol_kind,
                        info_of(program.attrs, name),
                        state,
                        depth,
                        more,
                    );
                }
            },
            _ => {
                lemma_node_at_depth(program, nodes[0], section_id, state, depth, more);
            },
        }
        let first = encode_member_spec(program, nodes[0], section_id, symbol_kind, state, depth);
        if first.result is Ok {
            lemma_section_at_depth(
                program,
                nodes.drop_first(),
                section_id,
                symbol_kind,
                first.state,
                depth,
                more,
            );
        }
    }
}

/// Encoding a program at some depth, where it does not run too deep,
/// gives the same at every greater depth: the same object and the same
/// program counter, or the same target that no label bears.
pub proof fn lemma_depth_is_only_a_bound(
    program: Program,
    nodes: Seq<Node>,
    state: EncodeState,
    depth: nat,
    more: nat,
)
    requires
        depth <= more,
        !ran_too_deep(encode_sections_from(program, nodes, state, depth)),
    ensures
        encode_sections_from(program, nodes, state, more) == encode_sections_from(
            program,
            nodes,
            state,
            depth,
        ),
    decreases nodes.len(),
{
    reveal(encode_sections_from);
    if nodes.len() > 0 {
        match nodes[0] {
            Node::Section { name, content } => {
                let (section_name, section_kind, symbol_kind) = section_opts_spec(name);
                let (elf, section_id) = placed(state.elf, section_name, section_kind);
                lemma_section_at_depth(
                    program,
                    content,
                    section_id,
                    symbol_kind,
                    EncodeState { elf, ..state },
                    depth,
                    more,
                );
            },
            _ => {},
        }
        let first = encode_root_spec(program, nodes[0], state, depth);
        if first.result is Ok {
            lemma_depth_is_only_a_bound(program, nodes.drop_first(), first.state, depth, more);
        }
    }
}

} // verus!
