use rvasm::parser::ast::{
    expect_token, next_identifier, next_in_paren, next_name, next_num, next_reg, next_string,
    nodes_from_tokens, parse_statement, AstError, AstNode, OperandClass, ParserCtx, SymbolInfo,
    Visibility,
};
use rvasm::parser::token::{Lexeme, Token, TokenStream};

fn lx(token: Token, text: &str, line: u64) -> Lexeme {
    Lexeme { token: Some(token), text: text.to_string(), line }
}

fn ident(name: &str, line: u64) -> Lexeme {
    lx(Token::Identifier(name.to_string()), name, line)
}

fn label(name: &str, line: u64) -> Lexeme {
    Lexeme { token: Some(Token::Label(name.to_string())), text: format!("{}:", name), line }
}

fn section(name: &str, line: u64) -> Vec<Lexeme> {
    vec![lx(Token::Section, ".section", line), lx(Token::Name(name.to_string()), name, line)]
}

fn parse(lexemes: &Vec<Lexeme>) -> Result<Vec<AstNode>, Vec<AstError>> {
    let mut stream = TokenStream::new(lexemes);
    nodes_from_tokens(&mut stream).map(|parsed| parsed.0)
}

fn info(lexemes: &Vec<Lexeme>, name: &str) -> Option<SymbolInfo> {
    let mut stream = TokenStream::new(lexemes);
    let (_, attributes) = nodes_from_tokens(&mut stream).expect("the source is well formed");
    attributes.get(name).copied()
}

#[test]
fn a_new_context_has_gathered_nothing() {
    let ctx = ParserCtx::new();
    assert!(ctx.nodes.is_empty());
    assert!(ctx.current_section.is_none());
    assert!(ctx.current_label.is_none());
    assert_eq!(ctx.functions_info.len(), 0);
    assert!(ctx.errors.is_empty());
    let (nodes, attributes) = ctx.get();
    assert!(nodes.is_empty());
    assert_eq!(attributes.len(), 0);
}

#[test]
fn default_symbol_info_is_local_and_not_weak() {
    assert_eq!(SymbolInfo::default(), SymbolInfo { visibility: Visibility::Local, weak: false });
}

#[test]
fn visibility_and_weakness_keep_each_other() {
    let mut ctx = ParserCtx::new();
    ctx.set_weakness("f".to_string(), true);
    assert_eq!(
        ctx.functions_info.get("f").copied(),
        Some(SymbolInfo { visibility: Visibility::Local, weak: true })
    );
    ctx.set_visibility("f".to_string(), Visibility::Global);
    assert_eq!(
        ctx.functions_info.get("f").copied(),
        Some(SymbolInfo { visibility: Visibility::Global, weak: true })
    );
    ctx.set_weakness("f".to_string(), false);
    assert_eq!(
        ctx.functions_info.get("f").copied(),
        Some(SymbolInfo { visibility: Visibility::Global, weak: false })
    );
    ctx.set_visibility("g".to_string(), Visibility::Global);
    assert_eq!(
        ctx.functions_info.get("g").copied(),
        Some(SymbolInfo { visibility: Visibility::Global, weak: false })
    );
    assert_eq!(ctx.functions_info.len(), 2);
}

#[test]
fn push_goes_to_the_innermost_open_thing() {
    let mut ctx = ParserCtx::new();
    ctx.push(AstNode::Ecall);
    assert_eq!(ctx.nodes, vec![AstNode::Ecall]);

    ctx.current_section = Some((".text".to_string(), Vec::new()));
    ctx.push(AstNode::Addi { rd: 1, rs1: 2, imm: 3 });
    assert_eq!(ctx.nodes.len(), 1);
    assert_eq!(
        ctx.current_section,
        Some((".text".to_string(), vec![AstNode::Addi { rd: 1, rs1: 2, imm: 3 }]))
    );

    ctx.current_label = Some(("main".to_string(), Vec::new()));
    ctx.push(AstNode::Ecall);
    assert_eq!(ctx.current_label, Some(("main".to_string(), vec![AstNode::Ecall])));
    assert_eq!(ctx.current_section.as_ref().map(|open| open.1.len()), Some(1));
    assert_eq!(ctx.nodes.len(), 1);
}

#[test]
fn push_label_closes_the_label_into_the_section() {
    let mut ctx = ParserCtx::new();
    ctx.push_label();
    assert!(ctx.nodes.is_empty());

    ctx.current_section = Some((".text".to_string(), Vec::new()));
    ctx.current_label = Some(("main".to_string(), vec![AstNode::Ecall]));
    ctx.push_label();
    assert!(ctx.current_label.is_none());
    assert_eq!(
        ctx.current_section,
        Some((
            ".text".to_string(),
            vec![AstNode::Label { name: "main".to_string(), content: vec![AstNode::Ecall] }]
        ))
    );
}

#[test]
fn push_label_without_a_section_closes_the_label_into_the_root() {
    let mut ctx = ParserCtx::new();
    ctx.current_label = Some(("main".to_string(), vec![AstNode::Ecall]));
    ctx.push_label();
    assert_eq!(
        ctx.nodes,
        vec![AstNode::Label { name: "main".to_string(), content: vec![AstNode::Ecall] }]
    );
}

#[test]
fn get_seals_the_open_section() {
    let mut ctx = ParserCtx::new();
    ctx.push(AstNode::Ecall);
    ctx.current_section = Some((".data".to_string(), vec![AstNode::Assci { seq: vec![1, 2] }]));
    ctx.set_visibility("x".to_string(), Visibility::Global);
    let (nodes, attributes) = ctx.get();
    assert_eq!(
        nodes,
        vec![
            AstNode::Ecall,
            AstNode::Section {
                name: ".data".to_string(),
                content: vec![AstNode::Assci { seq: vec![1, 2] }]
            }
        ]
    );
    assert!(attributes.contains_key("x"));
}

#[test]
fn a_clone_of_a_tree_equals_the_tree() {
    let tree = AstNode::Section {
        name: ".text".to_string(),
        content: vec![
            AstNode::Label {
                name: "main".to_string(),
                content: vec![
                    AstNode::La { rd: 5, symbol: "msg".to_string() },
                    AstNode::Sb { rs2: 1, imm: 2, rs1: 3 },
                ],
            },
            AstNode::Assci { seq: vec![b'x'] },
        ],
    };
    assert_eq!(tree.clone(), tree);
}

#[test]
fn every_mnemonic_builds_its_node() {
    let mut lexemes = Vec::new();
    lexemes.extend(vec![lx(Token::Addi, "addi", 1), lx(Token::A0, "a0", 1), lx(Token::Zero, "zero", 1), lx(Token::Number(10), "10", 1)]);
    for (token, text) in [
        (Token::Sub, "sub"),
        (Token::Add, "add"),
        (Token::Xor, "xor"),
        (Token::Sll, "sll"),
        (Token::Srl, "srl"),
        (Token::Sra, "sra"),
        (Token::Slt, "slt"),
        (Token::Sltu, "sltu"),
    ] {
        lexemes.extend(vec![lx(token, text, 2), lx(Token::X1, "x1", 2), lx(Token::X2, "x2", 2), lx(Token::X3, "x3", 2)]);
    }
    lexemes.extend(vec![lx(Token::La, "la", 3), lx(Token::T0, "t0", 3), ident("msg", 3)]);
    lexemes.extend(vec![lx(Token::Lui, "lui", 4), lx(Token::T1, "t1", 4), lx(Token::Number(0x12345), "74565", 4)]);
    lexemes.extend(vec![lx(Token::Auipc, "auipc", 5), lx(Token::T2, "t2", 5), lx(Token::NegNumber(-1), "-1", 5)]);
    lexemes.extend(vec![
        lx(Token::Sb, "sb", 6),
        lx(Token::T3, "t3", 6),
        lx(Token::Number(20), "20", 6),
        lx(Token::ParenthesisStart, "(", 6),
        lx(Token::Sp, "sp", 6),
        lx(Token::ParenthesisEnd, ")", 6),
    ]);
    lexemes.push(lx(Token::Ecall, "ecall", 7));
    lexemes.push(lx(Token::Nop, "nop", 8));
    lexemes.push(lx(Token::Comment, "# done", 9));
    lexemes.extend(vec![lx(Token::Assci, ".ascii", 10), lx(Token::Str("hi".to_string()), "hi\"", 10)]);

    let nodes = parse(&lexemes).expect("the source is well formed");
    assert_eq!(
        nodes,
        vec![
            AstNode::Addi { rd: 10, rs1: 0, imm: 10 },
            AstNode::Sub { rd: 1, rs1: 2, rs2: 3 },
            AstNode::Add { rd: 1, rs1: 2, rs2: 3 },
            AstNode::Xor { rd: 1, rs1: 2, rs2: 3 },
            AstNode::Sll { rd: 1, rs1: 2, rs2: 3 },
            AstNode::Srl { rd: 1, rs1: 2, rs2: 3 },
            AstNode::Sra { rd: 1, rs1: 2, rs2: 3 },
            AstNode::Slt { rd: 1, rs1: 2, rs2: 3 },
            AstNode::Sltu { rd: 1, rs1: 2, rs2: 3 },
            AstNode::La { rd: 5, symbol: "msg".to_string() },
            AstNode::Lui { rd: 6, imm: 0x12345 },
            AstNode::Auipc { rd: 7, imm: u64::MAX },
            AstNode::Sb { rs2: 28, imm: 20, rs1: 2 },
            AstNode::Ecall,
            AstNode::Addi { rd: 0, rs1: 0, imm: 0 },
            AstNode::Assci { seq: b"hi".to_vec() },
        ]
    );
}

#[test]
fn sections_and_labels_nest() {
    let mut lexemes = vec![lx(Token::Ecall, "ecall", 1)];
    lexemes.extend(section(".text", 2));
    lexemes.push(lx(Token::Nop, "nop", 3));
    lexemes.push(label("a", 4));
    lexemes.push(lx(Token::Ecall, "ecall", 5));
    lexemes.push(label("b", 6));
    lexemes.extend(section(".data", 7));
    lexemes.push(label("c", 8));
    lexemes.push(lx(Token::Nop, "nop", 9));

    let nodes = parse(&lexemes).expect("the source is well formed");
    assert_eq!(
        nodes,
        vec![
            AstNode::Ecall,
            AstNode::Section {
                name: ".text".to_string(),
                content: vec![
                    AstNode::Addi { rd: 0, rs1: 0, imm: 0 },
                    AstNode::Label { name: "a".to_string(), content: vec![AstNode::Ecall] },
                    AstNode::Label { name: "b".to_string(), content: vec![] },
                ],
            },
            AstNode::Section {
                name: ".data".to_string(),
                content: vec![AstNode::Label {
                    name: "c".to_string(),
                    content: vec![AstNode::Addi { rd: 0, rs1: 0, imm: 0 }],
                }],
            },
        ]
    );
}

#[test]
fn a_label_before_any_section_is_closed_into_the_root_by_the_section() {
    let mut lexemes = vec![label("early", 1), lx(Token::Ecall, "ecall", 2)];
    lexemes.extend(section(".text", 3));
    lexemes.push(lx(Token::Nop, "nop", 4));
    let nodes = parse(&lexemes).expect("the source is well formed");
    assert_eq!(
        nodes,
        vec![
            AstNode::Label { name: "early".to_string(), content: vec![AstNode::Ecall] },
            AstNode::Section {
                name: ".text".to_string(),
                content: vec![AstNode::Addi { rd: 0, rs1: 0, imm: 0 }],
            },
        ]
    );
}

#[test]
fn empty_input_gives_an_empty_program() {
    assert_eq!(parse(&Vec::new()), Ok(Vec::new()));
}

#[test]
fn directives_set_attributes_wherever_they_stand() {
    let mut lexemes = section(".text", 1);
    lexemes.push(label("main", 2));
    lexemes.push(lx(Token::Ecall, "ecall", 3));
    lexemes.extend(vec![lx(Token::Global, ".global", 4), ident("main", 4)]);
    lexemes.extend(vec![lx(Token::Weak, ".weak", 5), ident("main", 5)]);
    lexemes.extend(vec![lx(Token::Globl, ".globl", 6), ident("other", 6)]);
    lexemes.extend(vec![lx(Token::Weak, ".weak", 7), ident("frail", 7)]);
    assert_eq!(info(&lexemes, "main"), Some(SymbolInfo { visibility: Visibility::Global, weak: true }));
    assert_eq!(info(&lexemes, "other"), Some(SymbolInfo { visibility: Visibility::Global, weak: false }));
    assert_eq!(info(&lexemes, "frail"), Some(SymbolInfo { visibility: Visibility::Local, weak: true }));
    assert_eq!(info(&lexemes, "absent"), None);
    // The directive is no node of the tree.
    assert_eq!(
        parse(&lexemes),
        Ok(vec![AstNode::Section {
            name: ".text".to_string(),
            content: vec![AstNode::Label {
                name: "main".to_string(),
                content: vec![AstNode::Ecall]
            }],
        }])
    );
}

#[test]
fn every_error_is_reported_and_no_tree_is_given() {
    let lexemes = vec![
        // A register where a statement should begin.
        lx(Token::A0, "a0", 1),
        // An unrecognised lexeme.
        Lexeme { token: None, text: "$".to_string(), line: 2 },
        // A number where a register is due.
        lx(Token::Addi, "addi", 3),
        lx(Token::Number(1), "1", 3),
        lx(Token::A0, "a0", 3),
        lx(Token::Number(2), "2", 3),
        // A reserved mnemonic that has no encoding.
        lx(Token::Mv, "mv", 4),
        // A name where an identifier is due.
        lx(Token::Global, ".global", 5),
        lx(Token::Name(".main".to_string()), ".main", 5),
        // An identifier where a name is due.
        lx(Token::Section, ".section", 6),
        ident("text", 6),
        // A number where a string is due.
        lx(Token::Assci, ".ascii", 7),
        lx(Token::Number(3), "3", 7),
        // A missing parenthesis.
        lx(Token::Sb, "sb", 8),
        lx(Token::A0, "a0", 8),
        lx(Token::Number(0), "0", 8),
        lx(Token::A1, "a1", 8),
        lx(Token::A2, "a2", 8),
        lx(Token::ParenthesisEnd, ")", 8),
    ];
    let errors = parse(&lexemes).expect_err("the source is wrong");
    let mismatch = |expected, found: &str, line| AstError::Mismatch {
        expected,
        found: found.to_string(),
        line,
    };
    assert_eq!(
        errors,
        vec![
            AstError::Unexpected { found: "a0".to_string(), line: 1 },
            AstError::Lexical { found: "$".to_string(), line: 2 },
            mismatch(OperandClass::Register, "1", 3),
            AstError::Unexpected { found: "mv".to_string(), line: 4 },
            mismatch(OperandClass::Identifier, ".main", 5),
            mismatch(OperandClass::Name, "text", 6),
            mismatch(OperandClass::String, "3", 7),
            mismatch(OperandClass::ParenthesisStart, "a1", 8),
        ]
    );
}

#[test]
fn an_operand_that_is_missing_at_the_end_is_a_mismatch() {
    let lexemes = vec![lx(Token::La, "la", 4), lx(Token::A0, "a0", 4)];
    assert_eq!(
        parse(&lexemes),
        Err(vec![AstError::Mismatch {
            expected: OperandClass::Identifier,
            found: String::new(),
            line: 4
        }])
    );
    let lexemes = vec![lx(Token::Addi, "addi", 7)];
    let errors = parse(&lexemes).expect_err("all operands are missing");
    assert_eq!(
        errors,
        vec![
            AstError::Mismatch { expected: OperandClass::Register, found: String::new(), line: 7 },
            AstError::Mismatch { expected: OperandClass::Register, found: String::new(), line: 7 },
            AstError::Mismatch { expected: OperandClass::Number, found: String::new(), line: 7 },
        ]
    );
}

#[test]
fn an_operand_error_is_reported_on_the_line_of_its_statement() {
    let lexemes = vec![lx(Token::Lui, "lui", 2), lx(Token::A0, "a0", 2), ident("oops", 3)];
    assert_eq!(
        parse(&lexemes),
        Err(vec![AstError::Mismatch {
            expected: OperandClass::Number,
            found: "oops".to_string(),
            line: 2
        }])
    );
}

#[test]
fn an_unrecognised_operand_is_a_mismatch() {
    let lexemes = vec![
        lx(Token::Lui, "lui", 1),
        Lexeme { token: None, text: "%".to_string(), line: 1 },
        lx(Token::Number(1), "1", 1),
    ];
    assert_eq!(
        parse(&lexemes),
        Err(vec![AstError::Mismatch {
            expected: OperandClass::Register,
            found: "%".to_string(),
            line: 1
        }])
    );
}

#[test]
fn readers_take_one_lexeme_each() {
    let lexemes = vec![
        lx(Token::T6, "t6", 1),
        lx(Token::NegNumber(-2), "-2", 1),
        lx(Token::Name(".bss".to_string()), ".bss", 1),
        ident("loop_1", 1),
        lx(Token::Str("text".to_string()), "text\"", 1),
        lx(Token::ParenthesisStart, "(", 2),
        lx(Token::S11, "s11", 2),
        lx(Token::ParenthesisEnd, ")", 2),
        lx(Token::ParenthesisEnd, ")", 3),
    ];
    let mut stream = TokenStream::new(&lexemes);
    let mut ctx = ParserCtx::new();
    assert_eq!(next_reg(&mut stream, &mut ctx), 31);
    assert_eq!(next_num(&mut stream, &mut ctx), 0xFFFF_FFFF_FFFF_FFFE);
    assert_eq!(next_name(&mut stream, &mut ctx), ".bss");
    assert_eq!(next_identifier(&mut stream, &mut ctx), "loop_1");
    assert_eq!(next_string(&mut stream, &mut ctx), "text");
    assert_eq!(next_in_paren(&mut stream, &mut ctx), 27);
    assert_eq!(stream.next, 8);
    assert!(ctx.errors.is_empty());
    expect_token(&mut stream, OperandClass::ParenthesisStart, &mut ctx);
    assert_eq!(
        ctx.errors,
        vec![AstError::Mismatch {
            expected: OperandClass::ParenthesisStart,
            found: ")".to_string(),
            line: 0
        }]
    );
    assert_eq!(stream.next, 9);
    // Nothing is left: every further read is a mismatch and leaves the
    // stream at its end.
    assert_eq!(next_reg(&mut stream, &mut ctx), 0);
    assert_eq!(stream.next, 9);
    assert_eq!(ctx.errors.len(), 2);
}

#[test]
fn a_statement_reads_exactly_its_operands() {
    let lexemes = vec![
        lx(Token::La, "la", 5),
        lx(Token::A0, "a0", 5),
        ident("msg", 5),
        lx(Token::Ecall, "ecall", 6),
    ];
    let mut stream = TokenStream::new(&lexemes);
    let mut ctx = ParserCtx::new();
    assert!(stream.advance());
    parse_statement(&mut stream, &mut ctx);
    assert_eq!(stream.next, 3);
    assert_eq!(ctx.line, 5);
    assert_eq!(ctx.nodes, vec![AstNode::La { rd: 10, symbol: "msg".to_string() }]);
}
