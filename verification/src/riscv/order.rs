//! A reference forward and the same reference backward.
//!
//! Take a section with two labels, of which the first loads the address of
//! the second. The second is then encoded before the first, as if it stood
//! first in the source. So the object is the same as for the section with
//! the two labels the other way round, where the reference goes backward:
//! the same bytes, the same symbols with the same ids and addresses, and
//! the same relocations.

use crate::elf::obj::{
    first_named, is_first_named, lemma_create_section_named, lemma_first_named,
    lemma_first_named_none, ElfView, SectionIndex, SymbolKind,
};
use crate::parser::ast::{Node, SymbolInfo};
use crate::riscv::model::{
    depth_for, encode_found_spec, encode_label_spec, encode_member_spec, encode_nodes_spec,
    encode_root_spec, encode_section_spec, encode_sections_spec, encode_spec, find_label, info_of,
    label_count, lemma_encode_section_step, lemma_encode_sections_step, lemma_folds_of_nothing,
    placed, resolve_spec, resolve_target_spec, resolve_targets_spec, section_opts_spec, EncodeState,
    Outcome, Program, INSTRUCTION_ALIGN,
};
use vstd::prelude::*;

verus! {

/// Whether `node` is an instruction that names no symbol, or a byte
/// literal.
pub open spec fn is_plain(node: Node) -> bool {
    !(node is La) && !(node is Section) && !(node is Label)
}

/// Whether every node of `nodes` is plain, or a load-address instruction
/// with target `target`.
pub open spec fn refers_only_to(nodes: Seq<Node>, target: Seq<char>) -> bool {
    forall|i: int|
        0 <= i < nodes.len() ==> is_plain(#[trigger] nodes[i]) || (nodes[i] matches Node::La {
            symbol,
            ..
        } && symbol == target)
}

/// Whether every node of `nodes` is plain.
pub open spec fn all_plain(nodes: Seq<Node>) -> bool {
    forall|i: int| 0 <= i < nodes.len() ==> is_plain(#[trigger] nodes[i])
}

/// Whether some node of `nodes` is a load-address instruction with target
/// `target`.
pub open spec fn refers_to(nodes: Seq<Node>, target: Seq<char>) -> bool {
    exists|i: int|
        0 <= i < nodes.len() && (#[trigger] nodes[i] matches Node::La { symbol, .. } && symbol
            == target)
}

/// Among nodes that are no sections and no labels, no label is found.
pub proof fn lemma_no_label_below(
    nodes: Seq<Node>,
    target: Seq<char>,
    section_name: Seq<char>,
    label: Seq<char>,
)
    requires
        refers_only_to(nodes, target),
    ensures
        find_label(nodes, section_name, label) is None,
    decreases nodes.len(),
{
    if nodes.len() > 0 {
        assert(is_plain(nodes[0]) || nodes[0] is La);
        assert forall|i: int| 0 <= i < nodes.drop_first().len() implies is_plain(
            #[trigger] nodes.drop_first()[i],
        ) || (nodes.drop_first()[i] matches Node::La { symbol, .. } && symbol == target) by {
            assert(nodes.drop_first()[i] == nodes[i + 1]);
        }
        lemma_no_label_below(nodes.drop_first(), target, section_name, label);
    }
}

/// A symbol that was just created is found by its name, and every other
/// name finds what it found before.
pub proof fn lemma_create_symbol_named(
    elf: ElfView,
    name: Seq<char>,
    content: Seq<u8>,
    section_id: SectionIndex,
    kind: SymbolKind,
    info: SymbolInfo,
    align: u64,
)
    ensures
        elf.create_symbol(name, content, section_id, kind, info, align).symbol_named(name) is Some,
        forall|other: Seq<char>|
            other != name ==> elf.create_symbol(
                name,
                content,
                section_id,
                kind,
                info,
                align,
            ).symbol_named(other) == elf.symbol_named(other),
        elf.symbol_named(name) is Some ==> elf.create_symbol(
            name,
            content,
            section_id,
            kind,
            info,
            align,
        ).symbol_named(name) == elf.symbol_named(name),
{
    reveal(first_named);
    let after = elf.create_symbol(name, content, section_id, kind, info, align);
    assert(after.symbol_names() =~= elf.symbol_names().push(name));
    lemma_names_pushed(elf.symbol_names(), name);
}

/// In a sequence of names with one more name at its end, the new name has
/// a first place, a name that had a first place keeps it, and any other
/// name that had none has none.
pub proof fn lemma_names_pushed(names: Seq<Seq<char>>, name: Seq<char>)
    ensures
        first_named(names.push(name), name) is Some,
        forall|other: Seq<char>|
            first_named(names, other) is Some ==> first_named(names.push(name), other)
                == first_named(names, other),
        forall|other: Seq<char>|
            other != name ==> first_named(names.push(name), other) == first_named(names, other),
{
    reveal(first_named);
    let longer = names.push(name);
    lemma_first_named_none(longer, name);
    assert(longer[names.len() as int] == name);
    assert forall|other: Seq<char>| first_named(names, other) is Some implies first_named(
        longer,
        other,
    ) == first_named(names, other) by {
        let i = choose|i: int| is_first_named(names, other, i);
        assert(longer[i] == names[i]);
        assert forall|j: int| 0 <= j < i implies longer[j] != other by {
            assert(longer[j] == names[j]);
        }
        assert(is_first_named(longer, other, i));
        lemma_first_named(longer, other, i);
    }
    assert forall|other: Seq<char>| other != name implies first_named(longer, other)
        == first_named(names, other) by {
        if first_named(names, other) is None {
            lemma_first_named_none(names, other);
            lemma_first_named_none(longer, other);
            assert forall|i: int| 0 <= i < longer.len() implies longer[i] != other by {
                if i < names.len() {
                    assert(longer[i] == names[i]);
                }
            }
        }
    }
}

/// Nodes of which every target is a symbol of the object need no
/// resolution, and their encoding depends neither on the program nor on the
/// depth: it leaves the sections and symbols as they were.
pub proof fn lemma_settled_nodes(
    one: Program,
    other: Program,
    nodes: Seq<Node>,
    target: Seq<char>,
    section_id: SectionIndex,
    section_name: Seq<char>,
    state: EncodeState,
    depth: nat,
    other_depth: nat,
)
    requires
        refers_only_to(nodes, target),
        state.elf.symbol_named(target) is Some || all_plain(nodes),
    ensures
        resolve_targets_spec(one, nodes, section_name, state, depth) == Outcome::done(state),
        encode_nodes_spec(one, nodes, section_id, state, depth) == encode_nodes_spec(
            other,
            nodes,
            section_id,
            state,
            other_depth,
        ),
        encode_nodes_spec(one, nodes, section_id, state, depth).result is Ok,
        encode_nodes_spec(one, nodes, section_id, state, depth).state.elf.symbols
            == state.elf.symbols,
        encode_nodes_spec(one, nodes, section_id, state, depth).state.elf.sections
            == state.elf.sections,
    decreases nodes.len(),
{
    if nodes.len() > 0 {
        let rest = nodes.drop_first();
        assert forall|i: int| 0 <= i < rest.len() implies is_plain(#[trigger] rest[i]) || (
        rest[i] matches Node::La { symbol, .. } && symbol == target) by {
            assert(rest[i] == nodes[i + 1]);
        }
        if all_plain(nodes) {
            assert forall|i: int| 0 <= i < rest.len() implies is_plain(#[trigger] rest[i]) by {
                assert(rest[i] == nodes[i + 1]);
            }
        }
        assert(is_plain(nodes[0]) || (nodes[0] matches Node::La { symbol, .. } && symbol
            == target));
        let first = encode_spec(one, nodes[0], section_id, state, depth);
        assert(first == encode_spec(other, nodes[0], section_id, state, other_depth));
        assert(first.result is Ok);
        assert(first.state.elf.symbols == state.elf.symbols);
        assert(first.state.elf.sections == state.elf.sections);
        assert(first.state.elf.symbol_names() =~= state.elf.symbol_names());
        assert(resolve_target_spec(one, nodes[0], section_name, state, depth) == Outcome::done(
            state,
        ));
        lemma_settled_nodes(
            one,
            other,
            rest,
            target,
            section_id,
            section_name,
            state,
            depth,
            other_depth,
        );
        lemma_settled_nodes(
            one,
            other,
            rest,
            target,
            section_id,
            section_name,
            first.state,
            depth,
            other_depth,
        );
    }
}

/// A label of which every target is a symbol of the object is encoded the
/// same in every program and at every depth; encoding goes through, and
/// afterwards the label's own name finds a symbol and every other name
/// finds what it found before.
pub proof fn lemma_settled_label(
    one: Program,
    other: Program,
    section_id: SectionIndex,
    name: Seq<char>,
    content: Seq<Node>,
    target: Seq<char>,
    kind: SymbolKind,
    info: SymbolInfo,
    state: EncodeState,
    depth: nat,
    other_depth: nat,
)
    requires
        refers_only_to(content, target),
        state.elf.symbol_named(target) is Some || all_plain(content),
    ensures
        encode_label_spec(one, section_id, name, content, kind, info, state, depth)
            == encode_label_spec(
            other,
            section_id,
            name,
            content,
            kind,
            info,
            state,
            other_depth,
        ),
        encode_label_spec(one, section_id, name, content, kind, info, state, depth).result is Ok,
        encode_label_spec(
            one,
            section_id,
            name,
            content,
            kind,
            info,
            state,
            depth,
        ).state.elf.symbol_named(name) is Some,
        forall|any: Seq<char>|
            any != name ==> encode_label_spec(
                one,
                section_id,
                name,
                content,
                kind,
                info,
                state,
                depth,
            ).state.elf.symbol_named(any) == state.elf.symbol_named(any),
{
    let section_name = state.elf.sections[section_id.0 as int].name;
    lemma_settled_nodes(
        one,
        other,
        content,
        target,
        section_id,
        section_name,
        state,
        depth,
        other_depth,
    );
    lemma_settled_nodes(
        other,
        one,
        content,
        target,
        section_id,
        section_name,
        state,
        other_depth,
        depth,
    );
    let body = encode_nodes_spec(one, content, section_id, state, depth);
    let out = encode_label_spec(one, section_id, name, content, kind, info, state, depth);
    assert(body.state.elf.symbol_names() =~= state.elf.symbol_names());
    lemma_create_symbol_named(
        body.state.elf,
        name,
        body.result->Ok_0,
        section_id,
        kind,
        info,
        INSTRUCTION_ALIGN,
    );
    assert(out.state.elf == body.state.elf.create_symbol(
        name,
        body.result->Ok_0,
        section_id,
        kind,
        info,
        INSTRUCTION_ALIGN,
    ));
    assert forall|any: Seq<char>| any != name implies out.state.elf.symbol_named(any)
        == state.elf.symbol_named(any) by {
        assert(body.state.elf.symbol_named(any) == state.elf.symbol_named(any));
    }
}

/// Where the first reference among nodes goes to a label that resolution
/// can encode, resolving the targets of the nodes is resolving that one
/// label.
pub proof fn lemma_first_reference_resolves(
    program: Program,
    nodes: Seq<Node>,
    target: Seq<char>,
    section_name: Seq<char>,
    state: EncodeState,
    depth: nat,
)
    requires
        refers_only_to(nodes, target),
        refers_to(nodes, target),
        state.elf.symbol_named(target) is None,
        resolve_spec(program, target, section_name, state, depth).result is Ok,
        resolve_spec(program, target, section_name, state, depth).state.elf.symbol_named(
            target,
        ) is Some,
    ensures
        resolve_targets_spec(program, nodes, section_name, state, depth) == Outcome::done(
            resolve_spec(program, target, section_name, state, depth).state,
        ),
    decreases nodes.len(),
{
    let resolved = resolve_spec(program, target, section_name, state, depth);
    let rest = nodes.drop_first();
    let at = choose|i: int|
        0 <= i < nodes.len() && (#[trigger] nodes[i] matches Node::La { symbol, .. } && symbol
            == target);
    assert forall|i: int| 0 <= i < rest.len() implies is_plain(#[trigger] rest[i]) || (
    rest[i] matches Node::La { symbol, .. } && symbol == target) by {
        assert(rest[i] == nodes[i + 1]);
    }
    assert(is_plain(nodes[0]) || (nodes[0] matches Node::La { symbol, .. } && symbol == target));
    if nodes[0] is La {
        assert(resolve_target_spec(program, nodes[0], section_name, state, depth) == resolved);
        lemma_settled_nodes(
            program,
            program,
            rest,
            target,
            SectionIndex(0),
            section_name,
            resolved.state,
            depth,
            depth,
        );
    } else {
        assert(resolve_target_spec(program, nodes[0], section_name, state, depth)
            == Outcome::done(state));
        assert(at != 0);
        assert(rest[at - 1] == nodes[at]);
        lemma_first_reference_resolves(program, rest, target, section_name, state, depth);
    }
}

/// The tree of one section that holds two labels, one after the other.
pub open spec fn two_labels(
    section: Seq<char>,
    first: Seq<char>,
    first_content: Seq<Node>,
    second: Seq<char>,
    second_content: Seq<Node>,
) -> Seq<Node> {
    seq![
        Node::Section {
            name: section,
            content: seq![
                Node::Label { name: first, content: first_content },
                Node::Label { name: second, content: second_content },
            ],
        },
    ]
}

/// In a section with two labels of which the first holds no labels, the
/// second label is found by its name, with the section around it.
pub proof fn lemma_second_label_is_found(
    section: Seq<char>,
    first: Seq<char>,
    first_content: Seq<Node>,
    second: Seq<char>,
    second_content: Seq<Node>,
    section_name: Seq<char>,
)
    requires
        first != second,
        refers_only_to(first_content, second),
    ensures
        find_label(
            two_labels(section, first, first_content, second, second_content),
            section_name,
            second,
        ) == Some((section, second_content)),
{
    let tree = two_labels(section, first, first_content, second, second_content);
    let below = seq![
        Node::Label { name: first, content: first_content },
        Node::Label { name: second, content: second_content },
    ];
    lemma_no_label_below(first_content, second, section, second);
    assert(below.drop_first()[0] == below[1]);
    assert(find_label(below.drop_first(), section, second) == Some((section, second_content)));
    assert(find_label(below, section, second) == Some((section, second_content)));
    assert(tree[0] == Node::Section { name: section, content: below });
    assert(find_label(tree, section_name, second) == Some((section, second_content)));
}

/// The nodes below a section, where they are two.
pub proof fn lemma_two_members(
    program: Program,
    first: Node,
    second: Node,
    section_id: SectionIndex,
    kind: SymbolKind,
    state: EncodeState,
    depth: nat,
)
    ensures
        encode_section_spec(program, seq![first, second], section_id, kind, state, depth) == ({
            let one = encode_member_spec(program, first, section_id, kind, state, depth);
            if one.result is Err {
                one
            } else {
                let two = encode_member_spec(program, second, section_id, kind, one.state, depth);
                if two.result is Err {
                    two
                } else {
                    Outcome {
                        state: two.state,
                        result: Ok(one.result->Ok_0 + two.result->Ok_0),
                    }
                }
            }
        }),
{
    let nodes = seq![first, second];
    let one = encode_member_spec(program, first, section_id, kind, state, depth);
    lemma_encode_section_step(program, nodes, section_id, kind, state, depth);
    assert(nodes.drop_first() =~= seq![second]);
    lemma_encode_section_step(program, seq![second], section_id, kind, one.state, depth);
    assert(seq![second].drop_first() =~= Seq::<Node>::empty());
    if one.result is Ok {
        let two = encode_member_spec(program, second, section_id, kind, one.state, depth);
        lemma_folds_of_nothing(program, section_id, kind, two.state, depth);
        if two.result is Ok {
            assert(one.result->Ok_0 + (two.result->Ok_0 + Seq::<u8>::empty()) =~= one.result->Ok_0
                + two.result->Ok_0);
        }
    }
}

/// With a reference forward, encoding the first label takes the second
/// with it: it gives what encoding the second label and then the first
/// gives where the reference goes backward.
pub proof fn lemma_label_forward_is_backward(
    attrs: Map<Seq<char>, SymbolInfo>,
    section: Seq<char>,
    first: Seq<char>,
    first_content: Seq<Node>,
    second: Seq<char>,
    second_content: Seq<Node>,
    state: EncodeState,
    forward_depth: nat,
    backward_depth: nat,
)
    requires
        first != second,
        refers_only_to(first_content, second),
        refers_to(first_content, second),
        all_plain(second_content),
        forward_depth > 0,
        state.elf.symbol_named(second) is None,
        state.elf.section_named(section_opts_spec(section).0) is Some,
    ensures
        ({
            let forward = Program {
                tree: two_labels(section, first, first_content, second, second_content),
                attrs,
            };
            let backward = Program {
                tree: two_labels(section, second, second_content, first, first_content),
                attrs,
            };
            let section_id = state.elf.section_named(section_opts_spec(section).0)->0;
            let kind = section_opts_spec(section).2;
            let second_done = encode_label_spec(
                backward,
                section_id,
                second,
                second_content,
                kind,
                info_of(attrs, second),
                state,
                backward_depth,
            );
            &&& second_done.result is Ok
            &&& encode_label_spec(
                forward,
                section_id,
                first,
                first_content,
                kind,
                info_of(attrs, first),
                state,
                forward_depth,
            ) == encode_label_spec(
                backward,
                section_id,
                first,
                first_content,
                kind,
                info_of(attrs, first),
                second_done.state,
                backward_depth,
            )
        }),
{
    let forward = Program {
        tree: two_labels(section, first, first_content, second, second_content),
        attrs,
    };
    let backward = Program {
        tree: two_labels(section, second, second_content, first, first_content),
        attrs,
    };
    let (section_name, section_kind, kind) = section_opts_spec(section);
    let section_id = state.elf.section_named(section_name)->0;
    let here = state.elf.sections[section_id.0 as int].name;
    assert forall|i: int| 0 <= i < second_content.len() implies is_plain(
        #[trigger] second_content[i],
    ) || (second_content[i] matches Node::La { symbol, .. } && symbol == second) by {}

    // The second label, encoded while the first one waits, is what it is
    // when it is encoded in its own turn.
    let early = encode_label_spec(
        forward,
        section_id,
        second,
        second_content,
        kind,
        info_of(attrs, second),
        state,
        (forward_depth - 1) as nat,
    );
    let in_turn = encode_label_spec(
        backward,
        section_id,
        second,
        second_content,
        kind,
        info_of(attrs, second),
        state,
        backward_depth,
    );
    lemma_settled_label(
        forward,
        backward,
        section_id,
        second,
        second_content,
        second,
        kind,
        info_of(attrs, second),
        state,
        (forward_depth - 1) as nat,
        backward_depth,
    );
    assert(early == in_turn);

    // Resolving the targets of the first label encodes the second.
    lemma_second_label_is_found(section, first, first_content, second, second_content, here);
    assert(placed(state.elf, section_name, section_kind) == (state.elf, section_id));
    assert(encode_found_spec(forward, second, section, second_content, state, forward_depth)
        == early.silent());
    assert(resolve_spec(forward, second, here, state, forward_depth) == early.silent());
    lemma_first_reference_resolves(forward, first_content, second, here, state, forward_depth);

    // The first label is then encoded with its target in place.
    lemma_settled_nodes(
        forward,
        backward,
        first_content,
        second,
        section_id,
        here,
        in_turn.state,
        forward_depth,
        backward_depth,
    );
    lemma_settled_nodes(
        backward,
        forward,
        first_content,
        second,
        section_id,
        in_turn.state.elf.sections[section_id.0 as int].name,
        in_turn.state,
        backward_depth,
        forward_depth,
    );
}

/// With a reference forward, the label that is referred to is encoded
/// first: the nodes below a section with two labels, of which the first
/// refers to the second and to nothing else and the second refers to
/// nothing, are encoded as if the labels stood the other way round.
pub proof fn lemma_section_forward_is_backward(
    attrs: Map<Seq<char>, SymbolInfo>,
    section: Seq<char>,
    first: Seq<char>,
    first_content: Seq<Node>,
    second: Seq<char>,
    second_content: Seq<Node>,
    state: EncodeState,
    forward_depth: nat,
    backward_depth: nat,
)
    requires
        first != second,
        refers_only_to(first_content, second),
        refers_to(first_content, second),
        all_plain(second_content),
        forward_depth > 0,
        state.elf.symbol_named(first) is None,
        state.elf.symbol_named(second) is None,
        state.elf.section_named(section_opts_spec(section).0) is Some,
    ensures
        ({
            let forward = Program {
                tree: two_labels(section, first, first_content, second, second_content),
                attrs,
            };
            let backward = Program {
                tree: two_labels(section, second, second_content, first, first_content),
                attrs,
            };
            let section_id = state.elf.section_named(section_opts_spec(section).0)->0;
            let kind = section_opts_spec(section).2;
            encode_section_spec(
                forward,
                forward.tree[0]->Section_content,
                section_id,
                kind,
                state,
                forward_depth,
            ) == encode_section_spec(
                backward,
                backward.tree[0]->Section_content,
                section_id,
                kind,
                state,
                backward_depth,
            )
        }),
{
    let forward = Program {
        tree: two_labels(section, first, first_content, second, second_content),
        attrs,
    };
    let backward = Program {
        tree: two_labels(section, second, second_content, first, first_content),
        attrs,
    };
    let kind = section_opts_spec(section).2;
    let section_id = state.elf.section_named(section_opts_spec(section).0)->0;
    let first_label = Node::Label { name: first, content: first_content };
    let second_label = Node::Label { name: second, content: second_content };
    assert(forward.tree[0]->Section_content == seq![first_label, second_label]);
    assert(backward.tree[0]->Section_content == seq![second_label, first_label]);
    assert forall|i: int| 0 <= i < second_content.len() implies is_plain(
        #[trigger] second_content[i],
    ) || (second_content[i] matches Node::La { symbol, .. } && symbol == second) by {}

    lemma_label_forward_is_backward(
        attrs,
        section,
        first,
        first_content,
        second,
        second_content,
        state,
        forward_depth,
        backward_depth,
    );
    let in_turn = encode_label_spec(
        backward,
        section_id,
        second,
        second_content,
        kind,
        info_of(attrs, second),
        state,
        backward_depth,
    );
    lemma_settled_label(
        backward,
        backward,
        section_id,
        second,
        second_content,
        second,
        kind,
        info_of(attrs, second),
        state,
        backward_depth,
        backward_depth,
    );
    let with_backward = encode_label_spec(
        backward,
        section_id,
        first,
        first_content,
        kind,
        info_of(attrs, first),
        in_turn.state,
        backward_depth,
    );
    lemma_settled_label(
        backward,
        backward,
        section_id,
        first,
        first_content,
        second,
        kind,
        info_of(attrs, first),
        in_turn.state,
        backward_depth,
        backward_depth,
    );
    assert(in_turn.state.elf.symbol_named(first) is None);
    assert(with_backward.state.elf.symbol_named(second) is Some);

    lemma_two_members(forward, first_label, second_label, section_id, kind, state, forward_depth);
    lemma_two_members(
        backward,
        second_label,
        first_label,
        section_id,
        kind,
        state,
        backward_depth,
    );
    assert(encode_member_spec(forward, first_label, section_id, kind, state, forward_depth)
        == with_backward.silent());
    assert(encode_member_spec(
        forward,
        second_label,
        section_id,
        kind,
        with_backward.state,
        forward_depth,
    ) == Outcome::done(with_backward.state));
    assert(encode_member_spec(backward, second_label, section_id, kind, state, backward_depth)
        == in_turn.silent());
    assert(encode_member_spec(
        backward,
        first_label,
        section_id,
        kind,
        in_turn.state,
        backward_depth,
    ) == with_backward.silent());
}

/// A program of one section with two labels has at least one label.
pub proof fn lemma_two_labels_counted(
    section: Seq<char>,
    first: Seq<char>,
    first_content: Seq<Node>,
    second: Seq<char>,
    second_content: Seq<Node>,
)
    ensures
        depth_for(two_labels(section, first, first_content, second, second_content)) > 0,
{
    let tree = two_labels(section, first, first_content, second, second_content);
    let below = seq![
        Node::Label { name: first, content: first_content },
        Node::Label { name: second, content: second_content },
    ];
    assert(tree[0] == Node::Section { name: section, content: below });
    assert(label_count(below) >= 1 + label_count(first_content));
    assert(label_count(tree) >= label_count(below));
}

/// A program of one section with two labels is encoded by encoding the
/// labels into the section that goes with the section's name, which is the
/// first of the object.
pub proof fn lemma_one_section(
    attrs: Map<Seq<char>, SymbolInfo>,
    section: Seq<char>,
    first: Seq<char>,
    first_content: Seq<Node>,
    second: Seq<char>,
    second_content: Seq<Node>,
)
    ensures
        ({
            let program = Program {
                tree: two_labels(section, first, first_content, second, second_content),
                attrs,
            };
            let (section_name, section_kind, kind) = section_opts_spec(section);
            let placed_in = ElfView::empty().create_section(section_name, section_kind);
            &&& placed_in.section_named(section_name) == Some(SectionIndex(0))
            &&& placed_in.symbol_named(first) is None
            &&& placed_in.symbol_named(second) is None
            &&& encode_sections_spec(program) == encode_root_spec(
                program,
                program.tree[0],
                EncodeState { elf: ElfView::empty(), pc: 0 },
                depth_for(program.tree),
            ).silent()
            &&& encode_root_spec(
                program,
                program.tree[0],
                EncodeState { elf: ElfView::empty(), pc: 0 },
                depth_for(program.tree),
            ) == ({
                let body = encode_section_spec(
                    program,
                    program.tree[0]->Section_content,
                    SectionIndex(0),
                    kind,
                    EncodeState { elf: placed_in, pc: 0 },
                    depth_for(program.tree),
                );
                match body.result {
                    Err(failure) => body,
                    Ok(opcodes) => Outcome::done(
                        EncodeState {
                            elf: body.state.elf.write_section(
                                SectionIndex(0),
                                opcodes,
                                INSTRUCTION_ALIGN,
                            ),
                            ..body.state
                        },
                    ),
                }
            })
        }),
{
    reveal(first_named);
    let program = Program {
        tree: two_labels(section, first, first_content, second, second_content),
        attrs,
    };
    let (section_name, section_kind, kind) = section_opts_spec(section);
    let start = EncodeState { elf: ElfView::empty(), pc: 0 };
    let depth = depth_for(program.tree);
    assert(ElfView::empty().section_names() =~= Seq::<Seq<char>>::empty());
    assert(ElfView::empty().section_named(section_name) is None);
    lemma_create_section_named(ElfView::empty(), section_name, section_kind);
    let placed_in = ElfView::empty().create_section(section_name, section_kind);
    assert(placed_in.symbol_names() =~= Seq::<Seq<char>>::empty());
    assert(placed(ElfView::empty(), section_name, section_kind) == (placed_in, SectionIndex(0)));
    lemma_encode_sections_step(program, program.tree, start, depth);
    assert(program.tree.drop_first() =~= Seq::<Node>::empty());
    let root = encode_root_spec(program, program.tree[0], start, depth);
    lemma_folds_of_nothing(program, SectionIndex(0), kind, root.state, depth);
}

/// A forward reference is encoded as the same reference backward.
///
/// Take one section with two labels. The first label refers to the second,
/// and besides it holds only instructions that name no symbol and byte
/// literals; the second holds only such. Then the object is the same as for
/// the section with the two labels the other way round: the same bytes in
/// the section, the same two symbols with the same ids and addresses, and
/// the same relocations, each pair of a high-20 and a low-12 relocation at
/// the same offsets against the same symbol.
pub proof fn lemma_forward_reference_is_backward_reference(
    attrs: Map<Seq<char>, SymbolInfo>,
    section: Seq<char>,
    first: Seq<char>,
    first_content: Seq<Node>,
    second: Seq<char>,
    second_content: Seq<Node>,
)
    requires
        first != second,
        refers_only_to(first_content, second),
        refers_to(first_content, second),
        all_plain(second_content),
    ensures
        encode_sections_spec(
            Program {
                tree: two_labels(section, first, first_content, second, second_content),
                attrs,
            },
        ) == encode_sections_spec(
            Program {
                tree: two_labels(section, second, second_content, first, first_content),
                attrs,
            },
        ),
        encode_sections_spec(
            Program {
                tree: two_labels(section, first, first_content, second, second_content),
                attrs,
            },
        ).result is Ok,
{
    let forward = Program {
        tree: two_labels(section, first, first_content, second, second_content),
        attrs,
    };
    let backward = Program {
        tree: two_labels(section, second, second_content, first, first_content),
        attrs,
    };
    let (section_name, section_kind, kind) = section_opts_spec(section);
    let placed_in = ElfView::empty().create_section(section_name, section_kind);
    let state = EncodeState { elf: placed_in, pc: 0 };
    lemma_two_labels_counted(section, first, first_content, second, second_content);
    lemma_one_section(attrs, section, first, first_content, second, second_content);
    lemma_one_section(attrs, section, second, second_content, first, first_content);
    lemma_section_forward_is_backward(
        attrs,
        section,
        first,
        first_content,
        second,
        second_content,
        state,
        depth_for(forward.tree),
        depth_for(backward.tree),
    );
    // With the reference backward nothing is left to resolve, so encoding
    // goes through.
    assert forall|i: int| 0 <= i < second_content.len() implies is_plain(
        #[trigger] second_content[i],
    ) || (second_content[i] matches Node::La { symbol, .. } && symbol == second) by {}
    let in_turn = encode_label_spec(
        backward,
        SectionIndex(0),
        second,
        second_content,
        kind,
        info_of(attrs, second),
        state,
        depth_for(backward.tree),
    );
    lemma_settled_label(
        backward,
        backward,
        SectionIndex(0),
        second,
        second_content,
        second,
        kind,
        info_of(attrs, second),
        state,
        depth_for(backward.tree),
        depth_for(backward.tree),
    );
    lemma_settled_label(
        backward,
        backward,
        SectionIndex(0),
        first,
        first_content,
        second,
        kind,
        info_of(attrs, first),
        in_turn.state,
        depth_for(backward.tree),
        depth_for(backward.tree),
    );
    lemma_two_members(
        backward,
        Node::Label { name: second, content: second_content },
        Node::Label { name: first, content: first_content },
        SectionIndex(0),
        kind,
        state,
        depth_for(backward.tree),
    );
    assert(backward.tree[0]->Section_content == seq![
        Node::Label { name: second, content: second_content },
        Node::Label { name: first, content: first_content },
    ]);
}

} // verus!
