//! From the object model to the bytes of a relocatable ELF file.
//!
//! The file is written by the `object` crate. [`Elf::write`] hands it the
//! sections, symbols and relocations of the model one by one and asks it for
//! the file. What the crate's functions do is not proved here: it is stated
//! in the contracts of the functions of this module that call them, over
//! names for what an object of the crate holds.

use crate::elf::obj::{
    is_power_of_two, Elf, ElfError, ElfView, Relocation, RelocationKind, SectionIndex, SectionKind,
    SectionView, Symbol, SymbolKind, SymbolView,
};
use crate::parser::ast::Visibility;
use vstd::prelude::*;
use vstd::string::StrSliceExecFns;

verus! {

/// The object of the `object` crate that is being filled.
#[verifier::external_type_specification]
#[verifier::external_body]
pub struct ExObject<'a>(object::write::Object<'a>);

/// What the `object` crate names a section by.
#[verifier::external_type_specification]
#[verifier::external_body]
pub struct ExSectionId(object::write::SectionId);

/// What the `object` crate names a symbol by.
#[verifier::external_type_specification]
#[verifier::external_body]
pub struct ExSymbolId(object::write::SymbolId);

/// The error of the object file writer.
#[verifier::external_type_specification]
#[verifier::external_body]
pub struct ExError(object::write::Error);

/// A relocation as an object holds it.
pub ghost struct ObjectRelocation {
    pub offset: u64,
    /// The place of the symbol in the object's symbol table.
    pub symbol: nat,
    pub addend: i64,
    pub kind: RelocationKind,
}

/// A section as an object holds it.
pub ghost struct ObjectSection {
    pub name: Seq<u8>,
    pub kind: SectionKind,
    pub data: Seq<u8>,
    pub size: u64,
    pub align: u64,
    pub relocations: Seq<ObjectRelocation>,
}

/// A symbol as an object holds it.
pub ghost struct ObjectSymbol {
    pub name: Seq<u8>,
    pub value: u64,
    pub size: u64,
    pub kind: SymbolKind,
    pub visibility: Visibility,
    pub weak: bool,
    /// The place of the symbol's section in the object's section table.
    pub section: nat,
}

/// The sections that an object holds, in the order in which they were
/// added.
pub uninterp spec fn object_sections(object: object::write::Object<'static>) -> Seq<ObjectSection>;

/// The symbols that an object holds, in the order in which they were added.
pub uninterp spec fn object_symbols(object: object::write::Object<'static>) -> Seq<ObjectSymbol>;

/// Whether an object was made for a little-endian ELF file for 64-bit
/// RISC-V, and holds nothing but its sections and symbols.
pub uninterp spec fn object_is_riscv_elf(object: object::write::Object<'static>) -> bool;

/// The file that the writer gives for an object that was made for a
/// little-endian ELF file for 64-bit RISC-V and holds these sections and
/// symbols and nothing else, if it gives one.
pub uninterp spec fn riscv_elf_file(
    sections: Seq<ObjectSection>,
    symbols: Seq<ObjectSymbol>,
) -> Option<Seq<u8>>;

/// The place in the section table of the section that `id` names.
pub uninterp spec fn section_place(id: object::write::SectionId) -> nat;

/// The place in the symbol table of the symbol that `id` names.
pub uninterp spec fn symbol_place(id: object::write::SymbolId) -> nat;

/// `object::write::Object::new`, called for a little-endian ELF file for
/// 64-bit RISC-V: the new object holds no section and no symbol.
#[verifier::external_body]
fn new_object() -> (object: object::write::Object<'static>)
    ensures
        object_is_riscv_elf(object),
        object_sections(object) == Seq::<ObjectSection>::empty(),
        object_symbols(object) == Seq::<ObjectSymbol>::empty(),
{
    object::write::Object::new(
        object::BinaryFormat::Elf,
        object::Architecture::Riscv64,
        object::Endianness::Little,
    )
}

/// `object::write::Object::add_section`, called with no segment name: the
/// object gets one more section, of the given name and kind, with no data,
/// size 0, alignment 1 and no relocations; the id that comes back names it.
#[verifier::external_body]
fn add_section(object: &mut object::write::Object<'static>, name: &[u8], kind: SectionKind) -> (id:
    object::write::SectionId)
    ensures
        object_is_riscv_elf(*final(object)) == object_is_riscv_elf(*old(object)),
        object_symbols(*final(object)) == object_symbols(*old(object)),
        object_sections(*final(object)) == object_sections(*old(object)).push(
            ObjectSection {
                name: name@,
                kind,
                data: Seq::empty(),
                size: 0,
                align: 1,
                relocations: Seq::empty(),
            },
        ),
        section_place(id) == object_sections(*old(object)).len(),
{
    let kind = match kind {
        SectionKind::Text => object::SectionKind::Text,
        SectionKind::Data => object::SectionKind::Data,
        SectionKind::UninitializedData => object::SectionKind::UninitializedData,
        SectionKind::Unknown => object::SectionKind::Unknown,
    };
    object.add_section(Vec::new(), name.to_vec(), kind)
}

/// `object::write::Object::set_section_data`, called for a section that
/// holds initialised data and has none yet, with an alignment that is a
/// power of two: the section gets the data, their length as its size, and
/// the alignment.
#[verifier::external_body]
fn set_section_data(
    object: &mut object::write::Object<'static>,
    id: object::write::SectionId,
    data: &[u8],
    align: u64,
)
    requires
        section_place(id) < object_sections(*old(object)).len(),
        object_sections(*old(object))[section_place(id) as int].kind
            != SectionKind::UninitializedData,
        object_sections(*old(object))[section_place(id) as int].data.len() == 0,
        is_power_of_two(align),
    ensures
        object_is_riscv_elf(*final(object)) == object_is_riscv_elf(*old(object)),
        object_symbols(*final(object)) == object_symbols(*old(object)),
        object_sections(*final(object)) == object_sections(*old(object)).update(
            section_place(id) as int,
            ObjectSection {
                data: data@,
                size: data@.len() as u64,
                align,
                ..object_sections(*old(object))[section_place(id) as int]
            },
        ),
{
    object.set_section_data(id, data.to_vec(), align)
}

/// `object::write::Object::append_section_bss`, called for a section of
/// zero-filled data that has size 0, with an alignment that is a power of
/// two: the section gets the size, and the alignment where that is larger
/// than its own.
#[verifier::external_body]
fn append_section_bss(
    object: &mut object::write::Object<'static>,
    id: object::write::SectionId,
    size: u64,
    align: u64,
)
    requires
        section_place(id) < object_sections(*old(object)).len(),
        object_sections(*old(object))[section_place(id) as int].kind
            == SectionKind::UninitializedData,
        object_sections(*old(object))[section_place(id) as int].size == 0,
        is_power_of_two(align),
    ensures
        object_is_riscv_elf(*final(object)) == object_is_riscv_elf(*old(object)),
        object_symbols(*final(object)) == object_symbols(*old(object)),
        object_sections(*final(object)) == object_sections(*old(object)).update(
            section_place(id) as int,
            ObjectSection {
                size,
                align: if object_sections(*old(object))[section_place(id) as int].align < align {
                    align
                } else {
                    object_sections(*old(object))[section_place(id) as int].align
                },
                ..object_sections(*old(object))[section_place(id) as int]
            },
        ),
{
    object.append_section_bss(id, size, align);
}

/// `object::write::Object::add_symbol`, called for an ELF object with a
/// symbol of code or data that is defined in a section and has no flags of
/// its own: the object gets one more symbol, as given; the id that comes
/// back names it. A local symbol goes in with the scope of its compilation
/// unit, a global one with dynamic scope.
#[verifier::external_body]
fn add_symbol(
    object: &mut object::write::Object<'static>,
    name: &[u8],
    symbol: &Symbol,
    section: object::write::SectionId,
) -> (id: object::write::SymbolId)
    requires
        object_is_riscv_elf(*old(object)),
        symbol.kind != SymbolKind::Section,
    ensures
        object_is_riscv_elf(*final(object)),
        object_sections(*final(object)) == object_sections(*old(object)),
        object_symbols(*final(object)) == object_symbols(*old(object)).push(
            ObjectSymbol {
                name: name@,
                value: symbol.value,
                size: symbol.size,
                kind: symbol.kind,
                visibility: symbol.info.visibility,
                weak: symbol.info.weak,
                section: section_place(section),
            },
        ),
        symbol_place(id) == object_symbols(*old(object)).len(),
{
    let kind = match symbol.kind {
        SymbolKind::Text => object::SymbolKind::Text,
        SymbolKind::Data => object::SymbolKind::Data,
        SymbolKind::Section => object::SymbolKind::Section,
    };
    let scope = match symbol.info.visibility {
        Visibility::Local => object::SymbolScope::Compilation,
        Visibility::Global => object::SymbolScope::Dynamic,
    };
    let section = object::write::SymbolSection::Section(section);
    let flags = object::SymbolFlags::None;
    let (name, value, size, weak) = (name.to_vec(), symbol.value, symbol.size, symbol.info.weak);
    let symbol = object::write::Symbol { name, value, size, kind, scope, weak, section, flags };
    object.add_symbol(symbol)
}

/// `object::write::Object::add_relocation`, called for an ELF object for
/// RISC-V with a relocation of one of the two RISC-V types: relocations of
/// an ELF type are taken as they are, and RISC-V keeps the addend in the
/// relocation, so the call goes through and the section gets one more
/// relocation, as given.
#[verifier::external_body]
fn add_relocation(
    object: &mut object::write::Object<'static>,
    section: object::write::SectionId,
    symbol: object::write::SymbolId,
    relocation: &Relocation,
) -> (done: Result<(), object::write::Error>)
    requires
        object_is_riscv_elf(*old(object)),
        section_place(section) < object_sections(*old(object)).len(),
    ensures
        object_is_riscv_elf(*final(object)),
        object_symbols(*final(object)) == object_symbols(*old(object)),
        done is Ok,
        object_sections(*final(object)) == object_sections(*old(object)).update(
            section_place(section) as int,
            ObjectSection {
                relocations: object_sections(*old(object))[section_place(
                    section,
                ) as int].relocations.push(
                    ObjectRelocation {
                        offset: relocation.offset,
                        symbol: symbol_place(symbol),
                        addend: relocation.addend,
                        kind: relocation.kind,
                    },
                ),
                ..object_sections(*old(object))[section_place(section) as int]
            },
        ),
{
    let r_type = match relocation.kind {
        RelocationKind::Hi20 => object::elf::R_RISCV_HI20,
        RelocationKind::Lo12I => object::elf::R_RISCV_LO12_I,
    };
    let flags = object::RelocationFlags::Elf { r_type };
    let (offset, addend) = (relocation.offset, relocation.addend);
    object.add_relocation(section, object::write::Relocation { offset, symbol, addend, flags })
}

/// Whether no name in an object holds a NUL byte, every symbol lies in a
/// section of the object, and every relocation is against a symbol of the
/// object.
pub open spec fn object_is_sound(object: object::write::Object<'static>) -> bool {
    &&& forall|i: int|
        0 <= i < object_sections(object).len() ==> !(#[trigger] object_sections(
            object,
        )[i]).name.contains(0u8)
    &&& forall|i: int|
        0 <= i < object_symbols(object).len() ==> {
            &&& !(#[trigger] object_symbols(object)[i]).name.contains(0u8)
            &&& object_symbols(object)[i].section < object_sections(object).len()
        }
    &&& forall|i: int, j: int|
        0 <= i < object_sections(object).len() && 0 <= j < object_sections(
            object,
        )[i].relocations.len() ==> (#[trigger] object_sections(object)[i].relocations[j]).symbol
            < object_symbols(object).len()
}

/// `object::write::Object::write`, called for a sound ELF object: where it
/// goes through, the bytes that come back are the file that the writer
/// gives for the object, and where it does not, the writer gives none.
#[verifier::external_body]
fn write_object(object: &object::write::Object<'static>) -> (file: Result<
    Vec<u8>,
    object::write::Error,
>)
    requires
        object_is_riscv_elf(*object),
        object_is_sound(*object),
    ensures
        match file {
            Ok(bytes) => riscv_elf_file(object_sections(*object), object_symbols(*object)) == Some(
                bytes@,
            ),
            Err(_) => riscv_elf_file(object_sections(*object), object_symbols(*object)) is None,
        },
{
    object.write()
}

/// The relocation that an object holds for a relocation of the model.
pub open spec fn relocation_record(relocation: Relocation) -> ObjectRelocation {
    ObjectRelocation {
        offset: relocation.offset,
        symbol: relocation.symbol.0 as nat,
        addend: relocation.addend,
        kind: relocation.kind,
    }
}

/// The relocations among `pending` against the section at `place`, in
/// order, as an object holds them.
pub open spec fn relocations_for(pending: Seq<(SectionIndex, Relocation)>, place: int) -> Seq<
    ObjectRelocation,
>
    decreases pending.len(),
{
    if pending.len() == 0 {
        Seq::empty()
    } else if pending.last().0.0 == place {
        relocations_for(pending.drop_last(), place).push(relocation_record(pending.last().1))
    } else {
        relocations_for(pending.drop_last(), place)
    }
}

/// The section that an object holds for a section of the model with the
/// given relocations: the name in UTF-8, and no data where the section is
/// zero-filled.
pub open spec fn section_record(
    section: SectionView,
    relocations: Seq<ObjectRelocation>,
) -> ObjectSection {
    ObjectSection {
        name: vstd::utf8::encode_utf8(section.name),
        kind: section.kind,
        data: if section.kind == SectionKind::UninitializedData {
            Seq::empty()
        } else {
            section.data
        },
        size: section.data.len() as u64,
        align: section.align,
        relocations,
    }
}

/// The symbol that an object holds for a symbol of the model: the name in
/// UTF-8.
pub open spec fn symbol_record(symbol: SymbolView) -> ObjectSymbol {
    ObjectSymbol {
        name: vstd::utf8::encode_utf8(symbol.name),
        value: symbol.value,
        size: symbol.size,
        kind: symbol.kind,
        visibility: symbol.info.visibility,
        weak: symbol.info.weak,
        section: symbol.section.0 as nat,
    }
}

/// The sections that an object holds for the sections of `elf`, with the
/// relocations among `pending`.
pub open spec fn section_records(
    elf: ElfView,
    pending: Seq<(SectionIndex, Relocation)>,
) -> Seq<ObjectSection> {
    Seq::new(
        elf.sections.len(),
        |i: int| section_record(elf.sections[i], relocations_for(pending, i)),
    )
}

/// The symbols that an object holds for the first `count` symbols of
/// `elf`.
pub open spec fn symbol_records(elf: ElfView, count: nat) -> Seq<ObjectSymbol> {
    Seq::new(count, |i: int| symbol_record(elf.symbols[i]))
}

/// Whether `object` holds what `elf` holds, and nothing else.
pub open spec fn holds(object: object::write::Object<'static>, elf: ElfView) -> bool {
    &&& object_is_riscv_elf(object)
    &&& object_sections(object) == section_records(elf, elf.relocations)
    &&& object_symbols(object) == symbol_records(elf, elf.symbols.len())
}

/// The file that the writer gives for an object that holds what `elf`
/// holds, if it gives one.
pub open spec fn file_of(elf: ElfView) -> Option<Seq<u8>> {
    riscv_elf_file(
        section_records(elf, elf.relocations),
        symbol_records(elf, elf.symbols.len()),
    )
}

/// Why an object cannot go into a file.
pub ghost enum Fault {
    UnsupportedSection(Seq<char>),
    UnsupportedSymbol(Seq<char>),
    NulInName(Seq<char>),
}

/// What is wrong with a section, if anything: it is of unknown kind, or
/// its name holds a NUL.
pub open spec fn section_fault(section: SectionView) -> Option<Fault> {
    if section.kind == SectionKind::Unknown {
        Some(Fault::UnsupportedSection(section.name))
    } else if vstd::utf8::encode_utf8(section.name).contains(0u8) {
        Some(Fault::NulInName(section.name))
    } else {
        None
    }
}

/// What is wrong with a symbol, if anything: it is of the kind that goes
/// with sections of unknown kind, or its name holds a NUL.
pub open spec fn symbol_fault(symbol: SymbolView) -> Option<Fault> {
    if symbol.kind == SymbolKind::Section {
        Some(Fault::UnsupportedSymbol(symbol.name))
    } else if vstd::utf8::encode_utf8(symbol.name).contains(0u8) {
        Some(Fault::NulInName(symbol.name))
    } else {
        None
    }
}

/// What is wrong with each section of `elf`, then with each symbol.
pub open spec fn faults(elf: ElfView) -> Seq<Option<Fault>> {
    Seq::new(elf.sections.len(), |i: int| section_fault(elf.sections[i])) + Seq::new(
        elf.symbols.len(),
        |i: int| symbol_fault(elf.symbols[i]),
    )
}

/// The first fault in `found`, if there is one.
pub open spec fn first_fault(found: Seq<Option<Fault>>) -> Option<Fault>
    decreases found.len(),
{
    if found.len() == 0 {
        None
    } else if found[0] is Some {
        found[0]
    } else {
        first_fault(found.drop_first())
    }
}

/// The fault that an error stands for.
pub open spec fn fault_of(error: ElfError) -> Option<Fault> {
    match error {
        ElfError::UnsupportedSection(name) => Some(Fault::UnsupportedSection(name@)),
        ElfError::UnsupportedSymbol(name) => Some(Fault::UnsupportedSymbol(name@)),
        ElfError::NulInName(name) => Some(Fault::NulInName(name@)),
        _ => None,
    }
}

/// Where nothing is at fault, no fault is first; where the first `clean`
/// are without fault, the first fault is the first from there on.
pub proof fn lemma_first_fault_skip(found: Seq<Option<Fault>>, clean: int)
    requires
        0 <= clean <= found.len(),
        forall|i: int| 0 <= i < clean ==> found[i] is None,
    ensures
        first_fault(found) == first_fault(found.skip(clean)),
    decreases clean,
{
    if clean == 0 {
        assert(found.skip(0) =~= found);
    } else {
        assert(found.drop_first().skip(clean - 1) =~= found.skip(clean));
        lemma_first_fault_skip(found.drop_first(), clean - 1);
    }
}

/// Whether `bytes` hold a NUL.
fn has_nul(bytes: &Vec<u8>) -> (found: bool)
    ensures
        found == bytes@.contains(0u8),
{
    let mut i: usize = 0;
    while i < bytes.len()
        invariant
            i <= bytes.len(),
            forall|j: int| 0 <= j < i ==> bytes@[j] != 0u8,
        decreases bytes.len() - i,
    {
        if bytes[i] == 0u8 {
            return true;
        }
        i += 1;
    }
    false
}

/// What is wrong with section `section`, if anything.
fn check_section(section: &crate::elf::obj::Section) -> (fault: Option<ElfError>)
    ensures
        match fault {
            Some(error) => fault_of(error) is Some && fault_of(error) == section_fault(section@),
            None => section_fault(section@) is None,
        },
{
    match section.kind {
        SectionKind::Unknown => Some(ElfError::UnsupportedSection(section.name.clone())),
        _ => if has_nul(&section.name.as_str().as_bytes_vec()) {
            Some(ElfError::NulInName(section.name.clone()))
        } else {
            None
        },
    }
}

/// What is wrong with symbol `symbol`, if anything.
fn check_symbol(symbol: &Symbol) -> (fault: Option<ElfError>)
    ensures
        match fault {
            Some(error) => fault_of(error) is Some && fault_of(error) == symbol_fault(symbol@),
            None => symbol_fault(symbol@) is None,
        },
{
    match symbol.kind {
        SymbolKind::Section => Some(ElfError::UnsupportedSymbol(symbol.name.clone())),
        _ => if has_nul(&symbol.name.as_str().as_bytes_vec()) {
            Some(ElfError::NulInName(symbol.name.clone()))
        } else {
            None
        },
    }
}

impl Elf {
    /// The first thing about this object that keeps it out of a file, if
    /// there is any: a section of unknown kind or with a NUL in its name,
    /// or else a symbol of the kind that goes with such sections or with a
    /// NUL in its name.
    pub fn check(&self) -> (fault: Option<ElfError>)
        ensures
            match fault {
                Some(error) => fault_of(error) is Some && fault_of(error) == first_fault(
                    faults(self@),
                ),
                None => first_fault(faults(self@)) is None,
            },
    {
        let ghost found = faults(self@);
        let mut i: usize = 0;
        while i < self.sections.len()
            invariant
                i <= self.sections.len(),
                found == faults(self@),
                forall|j: int| 0 <= j < i ==> found[j] is None,
            decreases self.sections.len() - i,
        {
            match check_section(&self.sections[i]) {
                Some(error) => {
                    proof {
                        lemma_first_fault_skip(found, i as int);
                    }
                    return Some(error);
                },
                None => {},
            }
            i += 1;
        }
        let mut k: usize = 0;
        while k < self.symbols.len()
            invariant
                k <= self.symbols.len(),
                found == faults(self@),
                forall|j: int| 0 <= j < self.sections.len() + k ==> found[j] is None,
            decreases self.symbols.len() - k,
        {
            match check_symbol(&self.symbols[k]) {
                Some(error) => {
                    proof {
                        lemma_first_fault_skip(found, self.sections.len() + k);
                    }
                    return Some(error);
                },
                None => {},
            }
            k += 1;
        }
        proof {
            lemma_first_fault_skip(found, found.len() as int);
        }
        None
    }
}

/// Where no fault is first, nothing is at fault.
pub proof fn lemma_no_fault(found: Seq<Option<Fault>>)
    requires
        first_fault(found) is None,
    ensures
        forall|i: int| 0 <= i < found.len() ==> found[i] is None,
    decreases found.len(),
{
    if found.len() > 0 {
        lemma_no_fault(found.drop_first());
        assert forall|i: int| 0 <= i < found.len() implies found[i] is None by {
            if i > 0 {
                assert(found.drop_first()[i - 1] == found[i]);
            }
        }
    }
}

/// Every relocation for a section is against a symbol that a pending
/// relocation is against.
pub proof fn lemma_relocations_for(
    pending: Seq<(SectionIndex, Relocation)>,
    place: int,
    symbols: nat,
)
    requires
        forall|k: int| 0 <= k < pending.len() ==> (#[trigger] pending[k]).1.symbol.0 < symbols,
    ensures
        forall|j: int|
            0 <= j < relocations_for(pending, place).len() ==> (#[trigger] relocations_for(
                pending,
                place,
            )[j]).symbol < symbols,
    decreases pending.len(),
{
    if pending.len() > 0 {
        lemma_relocations_for(pending.drop_last(), place, symbols);
        assert(pending.last() == pending[pending.len() - 1]);
    }
}

/// Adds the sections of `elf` to an object that holds nothing yet, and
/// gives the ids that the object names them by.
fn fill_sections(elf: &Elf, object: &mut object::write::Object<'static>) -> (ids: Vec<
    object::write::SectionId,
>)
    requires
        elf.wf(),
        object_sections(*old(object)).len() == 0,
    ensures
        object_is_riscv_elf(*final(object)) == object_is_riscv_elf(*old(object)),
        object_symbols(*final(object)) == object_symbols(*old(object)),
        object_sections(*final(object)) == section_records(elf@, Seq::empty()),
        ids@.len() == elf@.sections.len(),
        forall|i: int| 0 <= i < ids@.len() ==> section_place(#[trigger] ids@[i]) == i,
{
    let mut ids: Vec<object::write::SectionId> = Vec::new();
    let mut i: usize = 0;
    proof {
        reveal(ElfView::consistent);
        assert(object_sections(*object) =~= section_records(elf@, Seq::empty()).take(0));
    }
    while i < elf.sections.len()
        invariant
            i <= elf.sections.len(),
            elf.wf(),
            object_is_riscv_elf(*object) == object_is_riscv_elf(*old(object)),
            object_symbols(*object) == object_symbols(*old(object)),
            object_sections(*object) == section_records(elf@, Seq::empty()).take(i as int),
            ids@.len() == i,
            forall|j: int| 0 <= j < i ==> section_place(#[trigger] ids@[j]) == j,
        decreases elf.sections.len() - i,
    {
        let section = &elf.sections[i];
        proof {
            reveal(ElfView::consistent);
            assert(is_power_of_two(elf@.sections[i as int].align));
            assert(section.data.len() <= usize::MAX);
        }
        let name = section.name.as_str().as_bytes_vec();
        let id = add_section(object, name.as_slice(), section.kind);
        match section.kind {
            SectionKind::UninitializedData => {
                append_section_bss(object, id, section.data.len() as u64, section.align);
            },
            _ => {
                set_section_data(object, id, section.data.as_slice(), section.align);
            },
        }
        ids.push(id);
        proof {
            assert(object_sections(*object) =~= section_records(elf@, Seq::empty()).take(i + 1));
        }
        i += 1;
    }
    proof {
        assert(section_records(elf@, Seq::empty()).take(i as int) =~= section_records(
            elf@,
            Seq::empty(),
        ));
    }
    ids
}

/// Adds the symbols of `elf` to an object that holds its sections and no
/// symbol yet, and gives the ids that the object names them by.
fn fill_symbols(
    elf: &Elf,
    object: &mut object::write::Object<'static>,
    sections: &Vec<object::write::SectionId>,
) -> (ids: Vec<object::write::SymbolId>)
    requires
        elf.wf(),
        first_fault(faults(elf@)) is None,
        object_is_riscv_elf(*old(object)),
        object_symbols(*old(object)).len() == 0,
        sections@.len() == elf@.sections.len(),
        forall|i: int| 0 <= i < sections@.len() ==> section_place(#[trigger] sections@[i]) == i,
    ensures
        object_is_riscv_elf(*final(object)),
        object_sections(*final(object)) == object_sections(*old(object)),
        object_symbols(*final(object)) == symbol_records(elf@, elf@.symbols.len()),
        ids@.len() == elf@.symbols.len(),
        forall|i: int| 0 <= i < ids@.len() ==> symbol_place(#[trigger] ids@[i]) == i,
{
    let mut ids: Vec<object::write::SymbolId> = Vec::new();
    let mut i: usize = 0;
    proof {
        assert(object_symbols(*object) =~= symbol_records(elf@, 0));
    }
    while i < elf.symbols.len()
        invariant
            i <= elf.symbols.len(),
            elf.wf(),
            first_fault(faults(elf@)) is None,
            object_is_riscv_elf(*object),
            object_sections(*object) == object_sections(*old(object)),
            object_symbols(*object) == symbol_records(elf@, i as nat),
            sections@.len() == elf@.sections.len(),
            forall|j: int| 0 <= j < sections@.len() ==> section_place(#[trigger] sections@[j]) == j,
            ids@.len() == i,
            forall|j: int| 0 <= j < i ==> symbol_place(#[trigger] ids@[j]) == j,
        decreases elf.symbols.len() - i,
    {
        let symbol = &elf.symbols[i];
        proof {
            reveal(ElfView::consistent);
            lemma_no_fault(faults(elf@));
            assert(faults(elf@)[elf@.sections.len() + i] == symbol_fault(elf@.symbols[i as int]));
            assert(elf@.has_section(elf@.symbols[i as int].section));
        }
        let name = symbol.name.as_str().as_bytes_vec();
        let id = add_symbol(object, name.as_slice(), symbol, sections[symbol.section.0]);
        ids.push(id);
        proof {
            assert(object_symbols(*object) =~= symbol_records(elf@, (i + 1) as nat));
        }
        i += 1;
    }
    ids
}

/// Adds the pending relocations of `elf` to an object that holds its
/// sections and symbols, in order.
fn fill_relocations(
    elf: &Elf,
    object: &mut object::write::Object<'static>,
    sections: &Vec<object::write::SectionId>,
    symbols: &Vec<object::write::SymbolId>,
)
    requires
        elf.wf(),
        object_is_riscv_elf(*old(object)),
        object_sections(*old(object)) == section_records(elf@, Seq::empty()),
        sections@.len() == elf@.sections.len(),
        forall|i: int| 0 <= i < sections@.len() ==> section_place(#[trigger] sections@[i]) == i,
        symbols@.len() == elf@.symbols.len(),
        forall|i: int| 0 <= i < symbols@.len() ==> symbol_place(#[trigger] symbols@[i]) == i,
    ensures
        object_is_riscv_elf(*final(object)),
        object_symbols(*final(object)) == object_symbols(*old(object)),
        object_sections(*final(object)) == section_records(elf@, elf@.relocations),
{
    let mut i: usize = 0;
    proof {
        assert(elf@.relocations.take(0) =~= Seq::empty());
    }
    while i < elf.relocations.len()
        invariant
            i <= elf.relocations.len(),
            elf.wf(),
            object_is_riscv_elf(*object),
            object_symbols(*object) == object_symbols(*old(object)),
            object_sections(*object) == section_records(elf@, elf@.relocations.take(i as int)),
            sections@.len() == elf@.sections.len(),
            forall|j: int| 0 <= j < sections@.len() ==> section_place(#[trigger] sections@[j]) == j,
            symbols@.len() == elf@.symbols.len(),
            forall|j: int| 0 <= j < symbols@.len() ==> symbol_place(#[trigger] symbols@[j]) == j,
        decreases elf.relocations.len() - i,
    {
        let (section, relocation) = elf.relocations[i];
        proof {
            reveal(ElfView::consistent);
            assert(elf@.has_section(elf@.relocations[i as int].0));
            assert(elf@.has_symbol(elf@.relocations[i as int].1.symbol));
        }
        let done = add_relocation(
            object,
            sections[section.0],
            symbols[relocation.symbol.0],
            &relocation,
        );
        assert(done is Ok);
        proof {
            let before = elf@.relocations.take(i as int);
            let after = elf@.relocations.take(i + 1);
            assert(after.drop_last() =~= before);
            assert(after.last() == elf@.relocations[i as int]);
            assert forall|j: int| 0 <= j < elf@.sections.len() implies relocations_for(after, j)
                == if j == section.0 {
                relocations_for(before, j).push(relocation_record(relocation))
            } else {
                relocations_for(before, j)
            } by {}
            assert(object_sections(*object) =~= section_records(elf@, after));
        }
        i += 1;
    }
    proof {
        assert(elf@.relocations.take(i as int) =~= elf@.relocations);
    }
}

/// An object that holds what a sound model holds is sound.
pub proof fn lemma_holds_sound(object: object::write::Object<'static>, elf: ElfView)
    requires
        elf.wf(),
        first_fault(faults(elf)) is None,
        holds(object, elf),
    ensures
        object_is_sound(object),
{
    reveal(ElfView::consistent);
    lemma_no_fault(faults(elf));
    assert forall|i: int| 0 <= i < object_sections(object).len() implies !(
    #[trigger] object_sections(object)[i]).name.contains(0u8) by {
        assert(faults(elf)[i] == section_fault(elf.sections[i]));
    }
    assert forall|i: int| 0 <= i < object_symbols(object).len() implies {
        &&& !(#[trigger] object_symbols(object)[i]).name.contains(0u8)
        &&& object_symbols(object)[i].section < object_sections(object).len()
    } by {
        assert(faults(elf)[elf.sections.len() + i] == symbol_fault(elf.symbols[i]));
        assert(elf.has_section(elf.symbols[i].section));
    }
    assert forall|i: int, j: int|
        0 <= i < object_sections(object).len() && 0 <= j < object_sections(
            object,
        )[i].relocations.len() implies (#[trigger] object_sections(object)[i].relocations[j]).symbol
        < object_symbols(object).len() by {
        assert forall|k: int| 0 <= k < elf.relocations.len() implies (
        #[trigger] elf.relocations[k]).1.symbol.0 < elf.symbols.len() by {
            assert(elf.has_symbol(elf.relocations[k].1.symbol));
        }
        lemma_relocations_for(elf.relocations, i, elf.symbols.len());
    }
}

/// What [`Elf::write`] gives for what the object file writer gave: its
/// bytes, or its error as an error of the object model.
pub fn written(file: Result<Vec<u8>, object::write::Error>) -> (out: Result<Vec<u8>, ElfError>)
    ensures
        match (file, out) {
            (Ok(bytes), Ok(same)) => same == bytes,
            (Err(error), Err(ElfError::ObjectWriteError(same))) => same == error,
            _ => false,
        },
{
    match file {
        Ok(bytes) => Ok(bytes),
        Err(error) => Err(ElfError::ObjectWriteError(error)),
    }
}

impl Elf {
    /// The bytes of a relocatable ELF file for 64-bit RISC-V that holds
    /// this object.
    ///
    /// Where [`Elf::check`] finds a fault, that fault is the result.
    /// Otherwise the sections, symbols and relocations of this object are
    /// handed to a new object of the object file writer, which is asked for
    /// the file: the bytes are what the writer gives for an object that
    /// holds what this object holds, and nothing else. A section of
    /// zero-filled data goes in with its size and without its bytes. Where
    /// the writer gives no file, the result is its error.
    pub fn write(&self) -> (file: Result<Vec<u8>, ElfError>)
        requires
            self.wf(),
        ensures
            match file {
                Ok(bytes) => first_fault(faults(self@)) is None && file_of(self@) == Some(bytes@),
                Err(ElfError::ObjectWriteError(_)) => first_fault(faults(self@)) is None
                    && file_of(self@) is None,
                Err(error) => fault_of(error) is Some && fault_of(error) == first_fault(
                    faults(self@),
                ),
            },
    {
        match self.check() {
            Some(error) => {
                return Err(error);
            },
            None => {},
        }
        let mut object = new_object();
        let sections = fill_sections(self, &mut object);
        let symbols = fill_symbols(self, &mut object, &sections);
        fill_relocations(self, &mut object, &sections, &symbols);
        proof {
            lemma_holds_sound(object, self@);
        }
        written(write_object(&object))
    }
}

} // verus!
