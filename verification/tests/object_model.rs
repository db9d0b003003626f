use rvasm::elf::obj::{
    CreateSectionInfo, Elf, ElfError, Relocation, RelocationKind, SectionIndex, SectionKind,
    SymbolIndex, SymbolKind,
};
use rvasm::parser::ast::{SymbolInfo, Visibility};

fn local() -> SymbolInfo {
    SymbolInfo { visibility: Visibility::Local, weak: false }
}

fn symbol(name: &str, section: SectionIndex, content: &[u8]) -> CreateSectionInfo {
    CreateSectionInfo {
        name: name.to_string(),
        content: content.to_vec(),
        section_id: section,
        symbol_kind: SymbolKind::Text,
        symbol_info: local(),
        align: 4,
    }
}

#[test]
fn a_new_object_is_empty() {
    let elf = Elf::new();
    assert!(elf.sections.is_empty());
    assert!(elf.symbols.is_empty());
    assert!(elf.relocations.is_empty());
}

#[test]
fn sections_get_ids_in_order_and_start_empty() {
    let mut elf = Elf::new();
    let text = elf.create_section("text", SectionKind::Text);
    let data = elf.create_section("data", SectionKind::Data);
    assert_eq!(text, SectionIndex(0));
    assert_eq!(data, SectionIndex(1));
    assert_eq!(elf.sections[1].name, "data");
    assert_eq!(elf.sections[1].kind, SectionKind::Data);
    assert!(elf.sections[1].data.is_empty());
    assert_eq!(elf.sections[1].cursor, 0);
    assert_eq!(elf.sections[1].align, 1);
    assert_eq!(elf.section_id(&"text".to_string()), Some(text));
    assert_eq!(elf.section_id(&"data".to_string()), Some(data));
    assert_eq!(elf.section_id(&"bss".to_string()), None);
}

#[test]
fn a_write_pads_to_the_alignment_and_moves_the_cursor_by_the_content() {
    let mut elf = Elf::new();
    let id = elf.create_section("data", SectionKind::Data);
    elf.write_section(id, b"hello", 4);
    assert_eq!(elf.sections[0].data, b"hello".to_vec());
    assert_eq!(elf.sections[0].cursor, 5);
    assert_eq!(elf.sections[0].align, 4);
    elf.write_section(id, b"ab", 4);
    assert_eq!(elf.sections[0].data, b"hello\0\0\0ab".to_vec());
    assert_eq!(elf.sections[0].cursor, 7);
    elf.write_section(id, b"c", 1);
    assert_eq!(elf.sections[0].data, b"hello\0\0\0abc".to_vec());
    assert_eq!(elf.sections[0].cursor, 8);
    assert_eq!(elf.sections[0].align, 4);
    elf.write_section(id, b"", 16);
    assert_eq!(elf.sections[0].data.len(), 16);
    assert_eq!(elf.sections[0].cursor, 8);
    assert_eq!(elf.sections[0].align, 16);
}

#[test]
fn a_symbol_stands_at_the_cursor_before_its_content() {
    let mut elf = Elf::new();
    let text = elf.create_section("text", SectionKind::Text);
    let data = elf.create_section("data", SectionKind::Data);
    let first = elf.create_symbol(symbol("first", text, &[1, 2, 3, 4]));
    let second = elf.create_symbol(symbol("second", text, &[5, 6, 7, 8, 9, 10, 11, 12]));
    let third = elf.create_symbol(CreateSectionInfo {
        symbol_kind: SymbolKind::Data,
        symbol_info: SymbolInfo { visibility: Visibility::Global, weak: true },
        ..symbol("third", data, b"xyz")
    });
    assert_eq!((first, second, third), (SymbolIndex(0), SymbolIndex(1), SymbolIndex(2)));
    assert_eq!(elf.symbols[0].value, 0);
    assert_eq!(elf.symbols[0].size, 4);
    assert_eq!(elf.symbols[1].value, 4);
    assert_eq!(elf.symbols[1].size, 8);
    assert_eq!(elf.symbols[1].section, text);
    assert_eq!(elf.symbols[2].value, 0);
    assert_eq!(elf.symbols[2].section, data);
    assert_eq!(elf.symbols[2].kind, SymbolKind::Data);
    assert_eq!(elf.symbols[2].info, SymbolInfo { visibility: Visibility::Global, weak: true });
    assert_eq!(elf.sections[0].cursor, 12);
    assert_eq!(elf.sections[0].data, vec![1, 2, 3, 4, 5, 6, 7, 8, 9, 10, 11, 12]);
    assert_eq!(elf.sections[1].data, b"xyz".to_vec());
}

#[test]
fn the_address_of_a_symbol_never_changes() {
    let mut elf = Elf::new();
    let text = elf.create_section("text", SectionKind::Text);
    elf.create_symbol(symbol("first", text, &[0; 8]));
    let before = elf.symbols[0].clone();
    elf.create_symbol(symbol("second", text, &[0; 4]));
    elf.write_section(text, &[0; 100], 4);
    let other = elf.create_section("data", SectionKind::Data);
    elf.create_symbol(symbol("third", other, &[0; 4]));
    assert_eq!(elf.symbols[0], before);
}

#[test]
fn a_symbol_is_found_by_its_name() {
    let mut elf = Elf::new();
    let text = elf.create_section("text", SectionKind::Text);
    let data = elf.create_section("data", SectionKind::Data);
    elf.create_symbol(symbol("a", text, &[0; 4]));
    elf.create_symbol(symbol("b", data, &[0; 4]));
    assert_eq!(elf.get_symbol(&"a".to_string()), Ok((SymbolIndex(0), text)));
    assert_eq!(elf.get_symbol(&"b".to_string()), Ok((SymbolIndex(1), data)));
    assert_eq!(
        elf.get_symbol(&"c".to_string()),
        Err(ElfError::SymbolNotExists("c".to_string()))
    );
}

#[test]
fn of_two_symbols_with_one_name_the_first_is_found() {
    let mut elf = Elf::new();
    let text = elf.create_section("text", SectionKind::Text);
    let data = elf.create_section("data", SectionKind::Data);
    elf.create_symbol(symbol("twin", data, &[0; 4]));
    elf.create_symbol(symbol("twin", text, &[0; 4]));
    assert_eq!(elf.get_symbol(&"twin".to_string()), Ok((SymbolIndex(0), data)));
}

#[test]
fn a_relocation_needs_its_section_and_its_symbol() {
    let mut elf = Elf::new();
    let text = elf.create_section("text", SectionKind::Text);
    let target = elf.create_symbol(symbol("target", text, &[0; 4]));
    let relocation =
        Relocation { offset: 8, symbol: target, addend: 0, kind: RelocationKind::Hi20 };
    assert_eq!(elf.create_reallocation(text, relocation), Ok(()));
    assert_eq!(elf.relocations, vec![(text, relocation)]);

    assert_eq!(
        elf.create_reallocation(SectionIndex(1), relocation),
        Err(ElfError::InvalidSection(SectionIndex(1)))
    );
    let stray = Relocation { symbol: SymbolIndex(7), ..relocation };
    assert_eq!(
        elf.create_reallocation(text, stray),
        Err(ElfError::InvalidSymbol(SymbolIndex(7)))
    );
    assert_eq!(elf.relocations.len(), 1);

    let low = Relocation { offset: 12, addend: -4, kind: RelocationKind::Lo12I, ..relocation };
    assert_eq!(elf.create_reallocation(text, low), Ok(()));
    assert_eq!(elf.relocations, vec![(text, relocation), (text, low)]);
}
