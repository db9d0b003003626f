use rvasm::elf::obj::{RelocationKind, SectionKind, SymbolKind};
use rvasm::parser::ast::{nodes_from_tokens, AstNode, Visibility};
use rvasm::parser::token::{Lexeme, Token, TokenStream};
use rvasm::riscv::encode_sections;

fn lexeme(token: Token, text: &str, line: u64) -> Lexeme {
    Lexeme { token: Some(token), text: text.to_string(), line }
}

fn hello_program() -> Vec<Lexeme> {
    vec![
        lexeme(Token::Global, ".global", 1),
        lexeme(Token::Identifier("_start".to_string()), "_start", 1),
        lexeme(Token::Section, ".section", 2),
        lexeme(Token::Name(".text".to_string()), ".text", 2),
        lexeme(Token::Label("_start".to_string()), "_start:", 3),
        lexeme(Token::Addi, "addi", 4),
        lexeme(Token::A0, "a0", 4),
        lexeme(Token::Zero, "zero", 4),
        lexeme(Token::Number(1), "1", 4),
        lexeme(Token::La, "la", 5),
        lexeme(Token::A1, "a1", 5),
        lexeme(Token::Identifier("msg".to_string()), "msg", 5),
        lexeme(Token::Ecall, "ecall", 6),
        lexeme(Token::Section, ".section", 7),
        lexeme(Token::Name(".data".to_string()), ".data", 7),
        lexeme(Token::Label("msg".to_string()), "msg:", 8),
        lexeme(Token::Assci, ".ascii", 9),
        lexeme(Token::Str("hello".to_string()), "hello\"", 9),
    ]
}

#[test]
fn hello_program_parses_into_two_sections() {
    let lexemes = hello_program();
    let mut stream = TokenStream::new(&lexemes);
    let (nodes, attributes) = nodes_from_tokens(&mut stream).expect("the program is well formed");
    assert_eq!(nodes.len(), 2);
    match &nodes[0] {
        AstNode::Section { name, content } => {
            assert_eq!(name, ".text");
            assert_eq!(content.len(), 1);
            match &content[0] {
                AstNode::Label { name, content } => {
                    assert_eq!(name, "_start");
                    assert_eq!(content.len(), 3);
                    assert!(matches!(content[0], AstNode::Addi { rd: 10, rs1: 0, imm: 1 }));
                    assert!(matches!(&content[1], AstNode::La { rd: 11, symbol } if symbol == "msg"));
                    assert!(matches!(content[2], AstNode::Ecall));
                }
                other => panic!("expected a label, found {:?}", other),
            }
        }
        other => panic!("expected a section, found {:?}", other),
    }
    assert_eq!(attributes.get("_start").map(|info| info.visibility), Some(Visibility::Global));
    assert!(attributes.get("msg").is_none());
}

#[test]
fn hello_program_encodes_with_a_forward_reference() {
    let lexemes = hello_program();
    let mut stream = TokenStream::new(&lexemes);
    let (nodes, attributes) = nodes_from_tokens(&mut stream).expect("the program is well formed");
    let elf = encode_sections(nodes, attributes).expect("every symbol is defined");
    // `msg` is pulled forward: its section is created when `la` needs it.
    assert_eq!(elf.sections.len(), 2);
    assert_eq!(elf.sections[0].name, "text");
    assert_eq!(elf.sections[0].kind, SectionKind::Text);
    assert_eq!(elf.sections[1].name, "data");
    assert_eq!(elf.sections[1].kind, SectionKind::Data);
    // The end of the section is padded to the alignment of instructions.
    assert_eq!(elf.sections[1].data, b"hello\0\0\0".to_vec());
    assert_eq!(elf.sections[1].cursor, 5);
    assert_eq!(elf.symbols.len(), 2);
    assert_eq!(elf.symbols[0].name, "msg");
    assert_eq!(elf.symbols[0].kind, SymbolKind::Data);
    assert_eq!(elf.symbols[0].value, 0);
    assert_eq!(elf.symbols[0].size, 5);
    assert_eq!(elf.symbols[1].name, "_start");
    assert_eq!(elf.symbols[1].info.visibility, Visibility::Global);
    assert_eq!(elf.symbols[1].size, 16);
    assert_eq!(elf.relocations.len(), 2);
    assert_eq!(elf.relocations[0].1.kind, RelocationKind::Hi20);
    assert_eq!(elf.relocations[1].1.kind, RelocationKind::Lo12I);
    assert_eq!(elf.relocations[0].1.symbol.0, 0);
    let bytes = elf.write().expect("the writer takes the object");
    assert_eq!(&bytes[0..4], b"\x7fELF");
}
