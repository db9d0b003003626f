use rvasm::elf::obj::{
    CreateSectionInfo, Elf, ElfError, Relocation, RelocationKind, SectionIndex, SectionKind,
    SymbolIndex, SymbolKind,
};
use rvasm::parser::ast::{nodes_from_tokens, AstNode, ParserCtx, SymbolInfo, Visibility};
use rvasm::parser::token::{Lexeme, Token, TokenStream};
use rvasm::riscv::{
    count_labels, emit_load_address, encode, encode_label, encode_nodes, encode_plain,
    encode_sections, load_address, place_section, resolve_targets, search_label_encode,
    section_opts, symbol_info,
};
use vstd::hash_map::StringHashMap;

fn no_attributes() -> StringHashMap<SymbolInfo> {
    ParserCtx::new().get().1
}

fn attributes(globals: &[&str], weaks: &[&str]) -> StringHashMap<SymbolInfo> {
    let mut ctx = ParserCtx::new();
    for name in globals {
        ctx.set_visibility(name.to_string(), Visibility::Global);
    }
    for name in weaks {
        ctx.set_weakness(name.to_string(), true);
    }
    ctx.get().1
}

fn section(name: &str, content: Vec<AstNode>) -> AstNode {
    AstNode::Section { name: name.to_string(), content }
}

fn label(name: &str, content: Vec<AstNode>) -> AstNode {
    AstNode::Label { name: name.to_string(), content }
}

fn la(rd: u32, symbol: &str) -> AstNode {
    AstNode::La { rd, symbol: symbol.to_string() }
}

fn words(bytes: &[u8]) -> Vec<u32> {
    assert_eq!(bytes.len() % 4, 0);
    bytes.chunks(4).map(|w| u32::from_le_bytes([w[0], w[1], w[2], w[3]])).collect()
}

fn pair(section: SectionIndex, symbol: SymbolIndex, offset: u64) -> Vec<(SectionIndex, Relocation)> {
    vec![
        (section, Relocation { offset, symbol, addend: 0, kind: RelocationKind::Hi20 }),
        (section, Relocation { offset: offset + 4, symbol, addend: 0, kind: RelocationKind::Lo12I }),
    ]
}

#[test]
fn section_names_of_the_source_map_to_object_sections() {
    assert_eq!(
        section_opts(".text"),
        ("text".to_string(), SectionKind::Text, SymbolKind::Text)
    );
    assert_eq!(
        section_opts(".data"),
        ("data".to_string(), SectionKind::Data, SymbolKind::Data)
    );
    assert_eq!(
        section_opts(".bss"),
        ("bss".to_string(), SectionKind::UninitializedData, SymbolKind::Data)
    );
    assert_eq!(
        section_opts(".rodata"),
        (".rodata".to_string(), SectionKind::Unknown, SymbolKind::Section)
    );
    assert_eq!(
        section_opts("text"),
        ("text".to_string(), SectionKind::Unknown, SymbolKind::Section)
    );
}

#[test]
fn attributes_default_to_local_and_not_weak() {
    let table = attributes(&["main"], &["frail"]);
    assert_eq!(
        symbol_info(&table, &"main".to_string()),
        SymbolInfo { visibility: Visibility::Global, weak: false }
    );
    assert_eq!(
        symbol_info(&table, &"frail".to_string()),
        SymbolInfo { visibility: Visibility::Local, weak: true }
    );
    assert_eq!(
        symbol_info(&table, &"plain".to_string()),
        SymbolInfo { visibility: Visibility::Local, weak: false }
    );
}

#[test]
fn every_plain_instruction_has_its_word() {
    let cases: Vec<(AstNode, u32)> = vec![
        (AstNode::Ecall, 0x0000_0073),
        (AstNode::Addi { rd: 10, rs1: 0, imm: 10 }, 0x00A0_0513),
        (AstNode::Addi { rd: 1, rs1: 1, imm: u64::MAX }, 0xFFF0_8093),
        (AstNode::Add { rd: 1, rs1: 2, rs2: 3 }, 0x0031_00B3),
        (AstNode::Sub { rd: 1, rs1: 2, rs2: 3 }, 0x4031_00B3),
        (AstNode::Xor { rd: 1, rs1: 2, rs2: 3 }, 0x0031_40B3),
        (AstNode::Sll { rd: 1, rs1: 2, rs2: 3 }, 0x0031_10B3),
        (AstNode::Srl { rd: 1, rs1: 2, rs2: 3 }, 0x0031_50B3),
        (AstNode::Sra { rd: 1, rs1: 2, rs2: 3 }, 0x4031_50B3),
        (AstNode::Slt { rd: 1, rs1: 2, rs2: 3 }, 0x0031_20B3),
        (AstNode::Sltu { rd: 1, rs1: 2, rs2: 3 }, 0x0031_30B3),
        (AstNode::Sb { rs2: 28, imm: 20, rs1: 2 }, 0x01C1_0A23),
        (AstNode::Lui { rd: 5, imm: 0x12345 }, 0x1234_52B7),
        (AstNode::Auipc { rd: 5, imm: 1 }, 0x0000_1297),
    ];
    let mut pc: u64 = 100;
    for (i, (node, word)) in cases.iter().enumerate() {
        let bytes = encode_plain(node, &mut pc);
        assert_eq!(words(&bytes), vec![*word], "{:?}", node);
        assert_eq!(pc, 100 + 4 * (i as u64 + 1));
    }
}

#[test]
fn ecall_is_the_same_in_every_context() {
    let tree = vec![section(".text", vec![label("x", vec![AstNode::Ecall])])];
    let table = attributes(&["x"], &[]);
    let mut elf = Elf::new();
    elf.create_section("one", SectionKind::Data);
    let two = elf.create_section("two", SectionKind::Text);
    let before = elf.clone();
    for start in [0u64, 4, 1 << 40, u64::MAX - 3] {
        let mut pc = start;
        let bytes = encode(&AstNode::Ecall, &mut elf, two, &mut pc, &tree, &table, 3);
        assert_eq!(bytes, Ok(vec![0x73, 0, 0, 0]));
        assert_eq!(pc, start.wrapping_add(4));
    }
    assert_eq!(elf, before);
}

#[test]
fn a_byte_literal_passes_through_and_moves_the_counter_by_its_length() {
    let mut pc: u64 = 8;
    let bytes = encode_plain(&AstNode::Assci { seq: b"hello".to_vec() }, &mut pc);
    assert_eq!(bytes, b"hello".to_vec());
    assert_eq!(pc, 13);
    let bytes = encode_plain(&AstNode::Assci { seq: Vec::new() }, &mut pc);
    assert!(bytes.is_empty());
    assert_eq!(pc, 13);
}

#[test]
fn a_node_that_is_no_instruction_gives_no_bytes_and_moves_the_counter_by_four() {
    let mut pc: u64 = 0;
    assert!(encode_plain(&label("inner", vec![AstNode::Ecall]), &mut pc).is_empty());
    assert_eq!(pc, 4);
    assert!(encode_plain(&section(".text", vec![]), &mut pc).is_empty());
    assert_eq!(pc, 8);
}

#[test]
fn the_counter_wraps_at_its_end() {
    let mut pc: u64 = u64::MAX - 1;
    encode_plain(&AstNode::Ecall, &mut pc);
    assert_eq!(pc, 2);
}

#[test]
fn load_address_splits_the_address_and_asks_for_two_relocations() {
    let mut elf = Elf::new();
    let text = elf.create_section("text", SectionKind::Text);
    let data = elf.create_section("data", SectionKind::Data);
    elf.write_section(data, &vec![0u8; 0x1234], 4);
    let target = elf.create_symbol(CreateSectionInfo {
        name: "target".to_string(),
        content: vec![1, 2, 3, 4],
        section_id: data,
        symbol_kind: SymbolKind::Data,
        symbol_info: SymbolInfo::default(),
        align: 4,
    });
    assert_eq!(elf.symbols[0].value, 0x1234);

    let mut pc: u64 = 0x40;
    let bytes = emit_load_address(11, target, &mut elf, text, &mut pc);
    // lui a1, 0x1 ; addi a1, a1, 0x234
    assert_eq!(words(&bytes), vec![0x0000_15B7, 0x2345_8593]);
    assert_eq!(pc, 0x48);
    assert_eq!(elf.relocations, pair(text, target, 0x40));
}

#[test]
fn a_backward_reference_uses_the_symbol_that_exists() {
    let tree: Vec<AstNode> = Vec::new();
    let table = no_attributes();
    let mut elf = Elf::new();
    let text = elf.create_section("text", SectionKind::Text);
    let target = elf.create_symbol(CreateSectionInfo {
        name: "back".to_string(),
        content: vec![0; 4],
        section_id: text,
        symbol_kind: SymbolKind::Text,
        symbol_info: SymbolInfo::default(),
        align: 4,
    });
    let symbols = elf.symbols.clone();
    let mut pc: u64 = 4;
    let bytes = encode(&la(10, "back"), &mut elf, text, &mut pc, &tree, &table, 0);
    assert_eq!(bytes.map(|b| words(&b)), Ok(vec![0x0000_0537, 0x0005_0513]));
    assert_eq!(pc, 12);
    assert_eq!(elf.symbols, symbols);
    assert_eq!(elf.relocations, pair(text, target, 4));
}

#[test]
fn a_forward_reference_is_resolved_on_the_way() {
    let tree = vec![section(
        ".text",
        vec![label("main", vec![la(10, "later")]), label("later", vec![AstNode::Ecall])],
    )];
    let table = no_attributes();
    let mut elf = Elf::new();
    let text = elf.create_section("text", SectionKind::Text);
    let mut pc: u64 = 0;
    let bytes = load_address(10, &"later".to_string(), &mut elf, text, &mut pc, &tree, &table, 2);
    assert_eq!(bytes.map(|b| words(&b)), Ok(vec![0x0000_0537, 0x0005_0513]));
    // The label was encoded first: four bytes, then the two instructions.
    assert_eq!(pc, 12);
    assert_eq!(elf.symbols.len(), 1);
    assert_eq!(elf.symbols[0].name, "later");
    assert_eq!(elf.symbols[0].value, 0);
    assert_eq!(elf.sections[0].data, vec![0x73, 0, 0, 0]);
    assert_eq!(elf.relocations, pair(text, SymbolIndex(0), 4));
}

#[test]
fn forward_and_backward_references_give_the_same_relocations() {
    let main = || label("main", vec![AstNode::Addi { rd: 10, rs1: 0, imm: 1 }, la(11, "msg"), AstNode::Ecall]);
    let msg = || label("msg", vec![AstNode::Assci { seq: b"text".to_vec() }]);
    let forward = vec![section(".text", vec![main(), msg()])];
    let backward = vec![section(".text", vec![msg(), main()])];
    let forward = encode_sections(forward, no_attributes()).expect("msg is defined");
    let backward = encode_sections(backward, no_attributes()).expect("msg is defined");
    assert_eq!(forward.relocations, pair(SectionIndex(0), SymbolIndex(0), 8));
    assert_eq!(forward.relocations, backward.relocations);
    assert_eq!(forward, backward);
}

#[test]
fn a_forward_reference_into_a_later_section_creates_that_section() {
    let tree = vec![
        section(".text", vec![label("main", vec![la(11, "msg"), AstNode::Ecall])]),
        section(".data", vec![label("msg", vec![AstNode::Assci { seq: b"hello!!!".to_vec() }])]),
    ];
    let elf = encode_sections(tree, no_attributes()).expect("msg is defined");
    assert_eq!(elf.sections.len(), 2);
    assert_eq!(elf.sections[0].name, "text");
    assert_eq!(elf.sections[1].name, "data");
    assert_eq!(elf.sections[1].kind, SectionKind::Data);
    assert_eq!(elf.sections[1].data, b"hello!!!".to_vec());
    // `msg` is encoded first and once.
    assert_eq!(elf.symbols.len(), 2);
    assert_eq!(elf.symbols[0].name, "msg");
    assert_eq!(elf.symbols[0].section, SectionIndex(1));
    assert_eq!(elf.symbols[0].kind, SymbolKind::Data);
    assert_eq!(elf.symbols[1].name, "main");
    assert_eq!(elf.symbols[1].section, SectionIndex(0));
    assert_eq!(elf.symbols[1].kind, SymbolKind::Text);
    // The counter runs on over the eight bytes of `msg`.
    assert_eq!(elf.relocations, pair(SectionIndex(0), SymbolIndex(0), 8));
    assert_eq!(words(&elf.sections[0].data), vec![0x0000_05B7, 0x0005_8593, 0x0000_0073]);
}

#[test]
fn of_two_labels_with_one_name_the_first_in_depth_first_order_wins() {
    let tree = vec![
        section(".text", vec![label("main", vec![la(5, "twin")])]),
        section(".data", vec![label("twin", vec![AstNode::Assci { seq: b"A".to_vec() }])]),
        section(".bss", vec![label("twin", vec![AstNode::Assci { seq: b"BB".to_vec() }])]),
    ];
    let elf = encode_sections(tree, no_attributes()).expect("twin is defined");
    let twins: Vec<_> = elf.symbols.iter().filter(|symbol| symbol.name == "twin").collect();
    assert_eq!(twins.len(), 1);
    assert_eq!(twins[0].size, 1);
    assert_eq!(elf.sections[twins[0].section.0].name, "data");
    assert_eq!(elf.get_symbol(&"twin".to_string()), Ok((SymbolIndex(0), SectionIndex(1))));
    // The second label of that name is passed over: its section stays empty.
    assert_eq!(elf.sections[2].name, "bss");
    assert!(elf.sections[2].data.is_empty());
}

#[test]
fn the_search_looks_at_a_label_before_the_labels_below_it() {
    let tree = vec![
        section(
            ".data",
            vec![label("outer", vec![label("twin", vec![AstNode::Assci { seq: b"in".to_vec() }])])],
        ),
        section(".text", vec![label("twin", vec![AstNode::Ecall])]),
    ];
    let table = no_attributes();
    let mut elf = Elf::new();
    let mut pc: u64 = 0;
    let found = search_label_encode(
        &"twin".to_string(),
        &tree,
        &mut elf,
        "none",
        &mut pc,
        &tree,
        &table,
        4,
    );
    assert_eq!(found, Ok(true));
    assert_eq!(elf.symbols.len(), 1);
    assert_eq!(elf.symbols[0].size, 2);
    assert_eq!(elf.sections[elf.symbols[0].section.0].name, "data");
}

#[test]
fn a_search_that_finds_nothing_changes_nothing() {
    let tree = vec![section(".text", vec![label("main", vec![AstNode::Ecall])])];
    let table = no_attributes();
    let mut elf = Elf::new();
    let mut pc: u64 = 16;
    let found = search_label_encode(
        &"absent".to_string(),
        &tree,
        &mut elf,
        "text",
        &mut pc,
        &tree,
        &table,
        4,
    );
    assert_eq!(found, Ok(false));
    assert_eq!(elf, Elf::new());
    assert_eq!(pc, 16);
}

#[test]
fn a_label_at_the_root_goes_into_the_section_of_the_search() {
    let tree = vec![
        label("early", vec![AstNode::Ecall]),
        section(".text", vec![label("main", vec![la(5, "early")])]),
    ];
    let elf = encode_sections(tree, no_attributes()).expect("early is defined");
    assert_eq!(elf.sections.len(), 1);
    assert_eq!(elf.symbols[0].name, "early");
    assert_eq!(elf.symbols[0].section, SectionIndex(0));
    // The name of the object section is no section name of the source.
    assert_eq!(elf.symbols[0].kind, SymbolKind::Section);
    assert_eq!(elf.symbols[1].name, "main");
}

#[test]
fn an_undefined_target_stops_encoding() {
    let tree = vec![section(".text", vec![label("main", vec![la(5, "nowhere")])])];
    assert_eq!(
        encode_sections(tree, no_attributes()),
        Err(ElfError::SymbolNotExists("nowhere".to_string()))
    );
}

#[test]
fn an_undefined_target_outside_any_label_stops_encoding() {
    let tree = vec![section(".text", vec![AstNode::Ecall, la(5, "nowhere")])];
    assert_eq!(
        encode_sections(tree, no_attributes()),
        Err(ElfError::SymbolNotExists("nowhere".to_string()))
    );
}

#[test]
fn references_in_a_circle_stop_encoding() {
    let tree = vec![section(
        ".text",
        vec![label("a", vec![la(5, "b")]), label("b", vec![la(6, "a")])],
    )];
    assert!(matches!(
        encode_sections(tree, no_attributes()),
        Err(ElfError::NestingTooDeep(_))
    ));
    let tree = vec![section(".text", vec![label("narcissus", vec![la(5, "narcissus")])])];
    assert_eq!(
        encode_sections(tree, no_attributes()),
        Err(ElfError::NestingTooDeep("narcissus".to_string()))
    );
}

#[test]
fn a_chain_of_forward_references_is_resolved_from_its_end() {
    let tree = vec![section(
        ".text",
        vec![
            label("a", vec![la(5, "b")]),
            label("b", vec![la(6, "c")]),
            label("c", vec![AstNode::Ecall]),
        ],
    )];
    let elf = encode_sections(tree, no_attributes()).expect("every label is defined");
    let names: Vec<&str> = elf.symbols.iter().map(|symbol| symbol.name.as_str()).collect();
    assert_eq!(names, vec!["c", "b", "a"]);
    let values: Vec<u64> = elf.symbols.iter().map(|symbol| symbol.value).collect();
    assert_eq!(values, vec![0, 4, 12]);
    let mut expected = pair(SectionIndex(0), SymbolIndex(0), 4);
    expected.extend(pair(SectionIndex(0), SymbolIndex(1), 12));
    assert_eq!(elf.relocations, expected);
    assert_eq!(elf.sections[0].data.len(), 20);
}

#[test]
fn a_depth_of_zero_allows_no_resolution() {
    let tree = vec![section(".text", vec![label("later", vec![AstNode::Ecall])])];
    let table = no_attributes();
    let mut elf = Elf::new();
    let text = elf.create_section("text", SectionKind::Text);
    let before = elf.clone();
    let mut pc: u64 = 0;
    let bytes = encode(&la(5, "later"), &mut elf, text, &mut pc, &tree, &table, 0);
    assert_eq!(bytes, Err(ElfError::NestingTooDeep("later".to_string())));
    assert_eq!(elf, before);
    assert_eq!(pc, 0);
}

#[test]
fn a_label_that_is_referenced_twice_is_encoded_once() {
    let tree = vec![section(
        ".text",
        vec![
            label("main", vec![la(5, "msg"), la(6, "msg")]),
            label("other", vec![la(7, "msg")]),
            label("msg", vec![AstNode::Ecall]),
        ],
    )];
    let elf = encode_sections(tree, no_attributes()).expect("msg is defined");
    let names: Vec<&str> = elf.symbols.iter().map(|symbol| symbol.name.as_str()).collect();
    assert_eq!(names, vec!["msg", "main", "other"]);
    assert_eq!(elf.sections[0].data.len(), 4 + 16 + 8);
    assert_eq!(elf.relocations.len(), 6);
    assert!(elf.relocations.iter().all(|(_, relocation)| relocation.symbol == SymbolIndex(0)));
    let offsets: Vec<u64> = elf.relocations.iter().map(|(_, relocation)| relocation.offset).collect();
    assert_eq!(offsets, vec![4, 8, 12, 16, 20, 24]);
}

#[test]
fn the_targets_of_a_label_are_resolved_before_its_content_is_encoded() {
    let tree = vec![section(
        ".text",
        vec![
            label("main", vec![AstNode::Ecall, la(5, "one"), la(6, "two")]),
            label("one", vec![AstNode::Ecall]),
            label("two", vec![AstNode::Ecall, AstNode::Ecall]),
        ],
    )];
    let table = no_attributes();
    let mut elf = Elf::new();
    let text = place_section(&mut elf, "text", SectionKind::Text);
    let mut pc: u64 = 0;
    let content = match &tree[0] {
        AstNode::Section { content, .. } => match &content[0] {
            AstNode::Label { content, .. } => content,
            _ => unreachable!(),
        },
        _ => unreachable!(),
    };
    assert_eq!(
        resolve_targets(content, &mut elf, "text", &mut pc, &tree, &table, 3),
        Ok(())
    );
    assert_eq!(pc, 12);
    let names: Vec<&str> = elf.symbols.iter().map(|symbol| symbol.name.as_str()).collect();
    assert_eq!(names, vec!["one", "two"]);
    let bytes = encode_nodes(content, &mut elf, text, &mut pc, &tree, &table, 3).expect("resolved");
    assert_eq!(bytes.len(), 20);
    assert_eq!(pc, 32);
    let mut expected = pair(text, SymbolIndex(0), 16);
    expected.extend(pair(text, SymbolIndex(1), 24));
    assert_eq!(elf.relocations, expected);
}

#[test]
fn a_label_becomes_a_symbol_with_its_bytes() {
    let tree: Vec<AstNode> = Vec::new();
    let table = no_attributes();
    let mut elf = Elf::new();
    let data = elf.create_section("data", SectionKind::Data);
    elf.write_section(data, &[9, 9], 1);
    let mut pc: u64 = 0;
    let content = vec![AstNode::Assci { seq: b"abc".to_vec() }, AstNode::Ecall];
    let info = SymbolInfo { visibility: Visibility::Global, weak: true };
    let done = encode_label(
        &mut elf,
        "data",
        "blob".to_string(),
        &content,
        SymbolKind::Data,
        &info,
        &mut pc,
        &tree,
        &table,
        0,
    );
    assert_eq!(done, Ok(()));
    assert_eq!(pc, 7);
    assert_eq!(elf.symbols.len(), 1);
    assert_eq!(elf.symbols[0].name, "blob");
    assert_eq!(elf.symbols[0].value, 2);
    assert_eq!(elf.symbols[0].size, 7);
    assert_eq!(elf.symbols[0].info, info);
    assert_eq!(elf.sections[0].data, vec![9, 9, 0, 0, b'a', b'b', b'c', 0x73, 0, 0, 0]);
    assert_eq!(elf.sections[0].cursor, 9);
}

#[test]
fn instructions_outside_labels_are_written_at_the_end_of_their_section() {
    let tree = vec![section(
        ".text",
        vec![AstNode::Ecall, label("main", vec![AstNode::Addi { rd: 0, rs1: 0, imm: 0 }]), AstNode::Ecall],
    )];
    let elf = encode_sections(tree, no_attributes()).expect("nothing is referenced");
    assert_eq!(words(&elf.sections[0].data), vec![0x13, 0x73, 0x73]);
    assert_eq!(elf.symbols[0].value, 0);
    assert_eq!(elf.sections[0].cursor, 12);
}

#[test]
fn nodes_at_the_root_that_are_no_sections_are_passed_over() {
    let tree = vec![AstNode::Ecall, label("stray", vec![AstNode::Ecall])];
    let elf = encode_sections(tree, no_attributes()).expect("nothing is referenced");
    assert_eq!(elf, Elf::new());
}

#[test]
fn two_sections_of_one_name_share_one_object_section() {
    let tree = vec![
        section(".text", vec![label("a", vec![AstNode::Ecall])]),
        section(".text", vec![label("b", vec![AstNode::Ecall])]),
    ];
    let elf = encode_sections(tree, no_attributes()).expect("nothing is referenced");
    assert_eq!(elf.sections.len(), 1);
    assert_eq!(elf.symbols[1].value, 4);
}

#[test]
fn a_directive_after_its_label_still_applies() {
    let lx = |token: Token, text: &str, line: u64| Lexeme {
        token: Some(token),
        text: text.to_string(),
        line,
    };
    let lexemes = vec![
        lx(Token::Section, ".section", 1),
        lx(Token::Name(".text".to_string()), ".text", 1),
        lx(Token::Label("main".to_string()), "main:", 2),
        lx(Token::Ecall, "ecall", 3),
        lx(Token::Label("helper".to_string()), "helper:", 4),
        lx(Token::Ecall, "ecall", 5),
        lx(Token::Global, ".global", 6),
        lx(Token::Identifier("main".to_string()), "main", 6),
        lx(Token::Weak, ".weak", 7),
        lx(Token::Identifier("helper".to_string()), "helper", 7),
    ];
    let mut stream = TokenStream::new(&lexemes);
    let (nodes, table) = nodes_from_tokens(&mut stream).expect("the source is well formed");
    let elf = encode_sections(nodes, table).expect("nothing is referenced");
    assert_eq!(elf.symbols[0].name, "main");
    assert_eq!(elf.symbols[0].info, SymbolInfo { visibility: Visibility::Global, weak: false });
    assert_eq!(elf.symbols[1].name, "helper");
    assert_eq!(elf.symbols[1].info, SymbolInfo { visibility: Visibility::Local, weak: true });
}

#[test]
fn labels_are_counted_at_every_depth() {
    assert_eq!(count_labels(&Vec::new()), 0);
    let tree = vec![
        label("a", vec![label("b", vec![AstNode::Ecall])]),
        section(".text", vec![label("c", vec![]), AstNode::Ecall, label("d", vec![])]),
        AstNode::Ecall,
    ];
    assert_eq!(count_labels(&tree), 4);
}

#[test]
fn encoding_twice_gives_the_same_object() {
    let tree = || {
        vec![
            section(".text", vec![label("main", vec![la(10, "msg"), AstNode::Ecall]), AstNode::Ecall]),
            section(".data", vec![label("msg", vec![AstNode::Assci { seq: b"hi".to_vec() }])]),
        ]
    };
    let first = encode_sections(tree(), attributes(&["main"], &["msg"])).expect("defined");
    let second = encode_sections(tree(), attributes(&["main"], &["msg"])).expect("defined");
    assert_eq!(first, second);
    assert_eq!(first.write(), second.write());
}
