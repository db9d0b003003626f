//! Sections, symbols and pending relocations of the object being built.

use crate::parser::ast::SymbolInfo;
use vstd::prelude::*;

verus! {

/// Names a section of an [`Elf`] by its position in the section table.
#[derive(Clone, Copy, Debug, PartialEq, Eq, Structural)]
pub struct SectionIndex(pub usize);

/// Names a symbol of an [`Elf`] by its position in the symbol table.
#[derive(Clone, Copy, Debug, PartialEq, Eq, Structural)]
pub struct SymbolIndex(pub usize);

/// What a section holds.
#[derive(Clone, Copy, Debug, PartialEq, Eq, Structural)]
pub enum SectionKind {
    /// Executable code.
    Text,
    /// Initialised data.
    Data,
    /// Zero-filled data that takes no room in the file.
    UninitializedData,
    /// A section under a name that has no fixed meaning.
    Unknown,
}

/// What a symbol stands for.
#[derive(Clone, Copy, Debug, PartialEq, Eq, Structural)]
pub enum SymbolKind {
    /// An entry point in code.
    Text,
    /// A data object.
    Data,
    /// A place in a section of unknown kind.
    Section,
}

/// Which part of a symbol's address a relocation patches in.
#[derive(Clone, Copy, Debug, PartialEq, Eq, Structural)]
pub enum RelocationKind {
    /// Bits 12 to 31 of the address, into an upper-immediate instruction.
    Hi20,
    /// Bits 0 to 11 of the address, into a register-immediate instruction.
    Lo12I,
}

/// A request to patch an instruction once the address of `symbol` is final.
#[derive(Clone, Copy, Debug, PartialEq, Eq, Structural)]
pub struct Relocation {
    pub offset: u64,
    pub symbol: SymbolIndex,
    pub addend: i64,
    pub kind: RelocationKind,
}

/// One section: its buffer and its write cursor.
#[derive(Debug, Clone, PartialEq, Eq)]
pub struct Section {
    pub name: String,
    pub kind: SectionKind,
    /// The bytes written so far, with the padding that alignment asked for.
    pub data: Vec<u8>,
    /// The number of content bytes written so far, without padding.
    pub cursor: u64,
    /// The largest alignment that a write has asked for.
    pub align: u64,
}

/// The mathematical value of a [`Section`].
pub ghost struct SectionView {
    pub name: Seq<char>,
    pub kind: SectionKind,
    pub data: Seq<u8>,
    pub cursor: u64,
    pub align: u64,
}

impl View for Section {
    type V = SectionView;

    open spec fn view(&self) -> SectionView {
        SectionView {
            name: self.name@,
            kind: self.kind,
            data: self.data@,
            cursor: self.cursor,
            align: self.align,
        }
    }
}

/// One entry of the symbol table.
#[derive(Debug, Clone, PartialEq, Eq)]
pub struct Symbol {
    pub name: String,
    pub section: SectionIndex,
    /// The section's cursor when the symbol was created.
    pub value: u64,
    pub size: u64,
    pub kind: SymbolKind,
    pub info: SymbolInfo,
}

/// The mathematical value of a [`Symbol`].
pub ghost struct SymbolView {
    pub name: Seq<char>,
    pub section: SectionIndex,
    pub value: u64,
    pub size: u64,
    pub kind: SymbolKind,
    pub info: SymbolInfo,
}

impl View for Symbol {
    type V = SymbolView;

    open spec fn view(&self) -> SymbolView {
        SymbolView {
            name: self.name@,
            section: self.section,
            value: self.value,
            size: self.size,
            kind: self.kind,
            info: self.info,
        }
    }
}

/// What [`Elf::create_symbol`] needs to know about the symbol it creates.
#[derive(Debug, Clone, PartialEq, Eq)]
pub struct CreateSectionInfo {
    pub name: String,
    pub content: Vec<u8>,
    pub section_id: SectionIndex,
    pub symbol_kind: SymbolKind,
    pub symbol_info: SymbolInfo,
    pub align: u64,
}

/// The object being built.
#[derive(Debug, Clone, PartialEq, Eq)]
pub struct Elf {
    pub sections: Vec<Section>,
    pub symbols: Vec<Symbol>,
    /// The relocations in the order they were asked for, each with the
    /// section whose content it patches.
    pub relocations: Vec<(SectionIndex, Relocation)>,
}

/// The mathematical value of an [`Elf`].
pub ghost struct ElfView {
    pub sections: Seq<SectionView>,
    pub symbols: Seq<SymbolView>,
    pub relocations: Seq<(SectionIndex, Relocation)>,
}

impl View for Elf {
    type V = ElfView;

    open spec fn view(&self) -> ElfView {
        ElfView {
            sections: Seq::new(self.sections@.len(), |i: int| self.sections@[i]@),
            symbols: Seq::new(self.symbols@.len(), |i: int| self.symbols@[i]@),
            relocations: self.relocations@,
        }
    }
}

/// Whether `align` is a power of two.
pub open spec fn is_power_of_two(align: u64) -> bool {
    align > 0 && align & ((align - 1) as u64) == 0
}

/// The number of bytes that bring a buffer of `len` bytes to a multiple of
/// `align`.
pub open spec fn padding(len: nat, align: u64) -> nat {
    if align <= 1 || len % (align as nat) == 0 {
        0
    } else {
        (align - len % (align as nat)) as nat
    }
}

/// Whether `len` is a multiple of `align`.
pub open spec fn is_aligned(len: nat, align: u64) -> bool {
    len % (align as nat) == 0
}

/// Padding is the least number of bytes that brings a length to a multiple
/// of the alignment.
pub proof fn lemma_padding(len: nat, align: u64)
    requires
        align > 0,
    ensures
        is_aligned(len + padding(len, align), align),
        padding(len, align) < align,
        forall|less: nat| less < padding(len, align) ==> !#[trigger] is_aligned(len + less, align),
{
    let a = align as int;
    let r = (len as int) % a;
    let q = (len as int) / a;
    vstd::arithmetic::div_mod::lemma_fundamental_div_mod(len as int, a);
    assert((q + 1) * a == q * a + a && q * a == a * q) by (nonlinear_arith);
    if align <= 1 {
        assert(r == 0);
    } else if r != 0 {
        vstd::arithmetic::div_mod::lemma_fundamental_div_mod_converse(
            len as int + (a - r),
            a,
            q + 1,
            0,
        );
        assert forall|less: nat| less < padding(len, align) implies !#[trigger] is_aligned(
            len + less,
            align,
        ) by {
            vstd::arithmetic::div_mod::lemma_fundamental_div_mod_converse(
                len as int + less as int,
                a,
                q,
                r + less as int,
            );
        }
    }
}

/// `n` zero bytes.
pub open spec fn zeros(n: nat) -> Seq<u8> {
    Seq::new(n, |i: int| 0u8)
}

/// Whether `i` is the first position of `name` in `names`.
pub open spec fn is_first_named(names: Seq<Seq<char>>, name: Seq<char>, i: int) -> bool {
    &&& 0 <= i < names.len()
    &&& names[i] == name
    &&& forall|j: int| 0 <= j < i ==> names[j] != name
}

/// The first position of `name` in `names`.
#[verifier::opaque]
pub open spec fn first_named(names: Seq<Seq<char>>, name: Seq<char>) -> Option<int> {
    if exists|i: int| is_first_named(names, name, i) {
        Some(choose|i: int| is_first_named(names, name, i))
    } else {
        None
    }
}

/// A name has at most one first position.
pub proof fn lemma_first_named(names: Seq<Seq<char>>, name: Seq<char>, i: int)
    requires
        is_first_named(names, name, i),
    ensures
        first_named(names, name) == Some(i),
{
    reveal(first_named);
    let k = choose|k: int| is_first_named(names, name, k);
    if k < i {
        assert(names[k] != name);
    } else if i < k {
        assert(names[i] != name);
    }
}

/// A name that stands nowhere has no first position, and the other way round.
pub proof fn lemma_first_named_none(names: Seq<Seq<char>>, name: Seq<char>)
    ensures
        first_named(names, name) is None <==> forall|i: int|
            0 <= i < names.len() ==> names[i] != name,
{
    reveal(first_named);
    if exists|i: int| 0 <= i < names.len() && names[i] == name {
        let i = choose|i: int| 0 <= i < names.len() && names[i] == name;
        lemma_first_exists(names, name, i);
    }
}

/// Where a name stands, it stands somewhere first.
pub proof fn lemma_first_exists(names: Seq<Seq<char>>, name: Seq<char>, i: int)
    requires
        0 <= i < names.len(),
        names[i] == name,
    ensures
        exists|k: int| is_first_named(names, name, k) && k <= i,
    decreases i,
{
    if exists|j: int| 0 <= j < i && names[j] == name {
        let j = choose|j: int| 0 <= j < i && names[j] == name;
        lemma_first_exists(names, name, j);
    } else {
        assert(is_first_named(names, name, i));
    }
}

/// A section that was just created is the one that its name finds, and the
/// names that found a section before still find the same one.
pub proof fn lemma_create_section_named(elf: ElfView, name: Seq<char>, kind: SectionKind)
    requires
        elf.sections.len() < usize::MAX,
        elf.section_named(name) is None,
    ensures
        elf.create_section(name, kind).section_named(name) == Some(
            SectionIndex(elf.sections.len() as usize),
        ),
        forall|other: Seq<char>|
            other != name ==> elf.create_section(name, kind).section_named(other)
                == elf.section_named(other),
{
    reveal(first_named);
    let after = elf.create_section(name, kind);
    lemma_first_named_none(elf.section_names(), name);
    assert(after.section_names() =~= elf.section_names().push(name));
    assert(is_first_named(after.section_names(), name, elf.sections.len() as int));
    lemma_first_named(after.section_names(), name, elf.sections.len() as int);
    assert forall|other: Seq<char>| other != name implies after.section_named(other)
        == elf.section_named(other) by {
        lemma_first_named_none(elf.section_names(), other);
        lemma_first_named_none(after.section_names(), other);
        if exists|i: int| is_first_named(elf.section_names(), other, i) {
            let i = choose|i: int| is_first_named(elf.section_names(), other, i);
            assert(is_first_named(after.section_names(), other, i));
            lemma_first_named(after.section_names(), other, i);
        } else {
            assert forall|i: int|
                0 <= i < after.section_names().len() implies after.section_names()[i]
                != other by {
                if i < elf.sections.len() {
                    assert(elf.section_names()[i] != other);
                }
            }
        }
    }
}

/// The section that a name finds bears that name.
pub proof fn lemma_section_named(elf: ElfView, name: Seq<char>)
    requires
        elf.sections.len() <= usize::MAX,
        elf.section_named(name) is Some,
    ensures
        elf.has_section(elf.section_named(name).unwrap()),
        elf.sections[elf.section_named(name).unwrap().0 as int].name == name,
        elf.section_named(name).unwrap().0 == first_named(elf.section_names(), name).unwrap(),
{
    reveal(first_named);
    let i = choose|i: int| is_first_named(elf.section_names(), name, i);
    assert(elf.section_names()[i] == elf.sections[i].name);
}

/// An object has grown from itself.
pub proof fn lemma_grows_reflexive(elf: ElfView)
    ensures
        elf.grows_from(elf),
{
    reveal(ElfView::keeps);
}

/// What was in an object stays as it was while the object grows: `later`
/// extends `earlier`.
pub proof fn lemma_grows_transitive(earlier: ElfView, middle: ElfView, later: ElfView)
    requires
        middle.grows_from(earlier),
        later.grows_from(middle),
    ensures
        later.grows_from(earlier),
{
    reveal(ElfView::keeps);
    assert forall|i: int| 0 <= i < earlier.symbols.len() implies later.symbols[i]
        == earlier.symbols[i] by {
        assert(middle.symbols[i] == earlier.symbols[i]);
    }
    assert forall|i: int| 0 <= i < earlier.relocations.len() implies later.relocations[i]
        == earlier.relocations[i] by {
        assert(middle.relocations[i] == earlier.relocations[i]);
    }
    assert forall|i: int| 0 <= i < earlier.sections.len() implies {
        &&& (#[trigger] later.sections[i]).name == earlier.sections[i].name
        &&& later.sections[i].kind == earlier.sections[i].kind
        &&& earlier.sections[i].cursor <= later.sections[i].cursor
        &&& earlier.sections[i].data.is_prefix_of(later.sections[i].data)
    } by {
        assert(middle.sections[i].name == earlier.sections[i].name);
        assert(earlier.sections[i].data.is_prefix_of(middle.sections[i].data));
        assert(middle.sections[i].data.is_prefix_of(later.sections[i].data));
    }
}

/// A name keeps finding the same section while the object grows.
pub proof fn lemma_section_named_stable(earlier: ElfView, later: ElfView, name: Seq<char>)
    requires
        later.wf(),
        later.grows_from(earlier),
        earlier.section_named(name) is Some,
    ensures
        later.section_named(name) == earlier.section_named(name),
{
    reveal(first_named);
    reveal(ElfView::keeps);
    reveal(ElfView::consistent);
    let i = choose|i: int| is_first_named(earlier.section_names(), name, i);
    assert(earlier.section_names()[i] == earlier.sections[i].name);
    assert(later.section_names()[i] == later.sections[i].name);
    assert forall|j: int| 0 <= j < i implies later.section_names()[j] != name by {
        assert(later.section_names()[j] == later.sections[j].name);
        assert(later.sections[j].name != later.sections[i].name);
    }
    assert(is_first_named(later.section_names(), name, i));
    lemma_first_named(later.section_names(), name, i);
}

/// A name keeps finding the same symbol while the object grows: once a
/// symbol exists, every later reference to its name meets that symbol, at
/// the address that it was given.
pub proof fn lemma_symbol_named_stable(earlier: ElfView, later: ElfView, name: Seq<char>)
    requires
        later.grows_from(earlier),
        earlier.symbol_named(name) is Some,
    ensures
        later.symbol_named(name) == earlier.symbol_named(name),
        later.symbols[later.symbol_named(name).unwrap().0 as int] == earlier.symbols[
            earlier.symbol_named(name).unwrap().0 as int
        ],
{
    reveal(first_named);
    reveal(ElfView::keeps);
    let i = choose|i: int| is_first_named(earlier.symbol_names(), name, i);
    assert(earlier.symbol_names()[i] == earlier.symbols[i].name);
    assert(later.symbol_names()[i] == later.symbols[i].name);
    assert forall|j: int| 0 <= j < i implies later.symbol_names()[j] != name by {
        assert(later.symbol_names()[j] == later.symbols[j].name);
        assert(earlier.symbol_names()[j] == earlier.symbols[j].name);
    }
    assert(is_first_named(later.symbol_names(), name, i));
    lemma_first_named(later.symbol_names(), name, i);
}

impl ElfView {
    /// Whether this object has grown from `earlier`: every symbol and every
    /// relocation of `earlier` stands unchanged at its place, and every
    /// section of `earlier` stands at its place under its name and kind, its
    /// buffer extended and its cursor no further back.
    pub open spec fn grows_from(self, earlier: ElfView) -> bool {
        &&& earlier.sections.len() <= self.sections.len()
        &&& earlier.symbols.len() <= self.symbols.len()
        &&& earlier.relocations.len() <= self.relocations.len()
        &&& self.keeps(earlier)
    }

    /// Whether what `earlier` holds stands unchanged in this object, which
    /// is no shorter: see [`ElfView::grows_from`].
    #[verifier::opaque]
    pub open spec fn keeps(self, earlier: ElfView) -> bool {
        &&& forall|i: int|
            0 <= i < earlier.sections.len() ==> {
                &&& (#[trigger] self.sections[i]).name == earlier.sections[i].name
                &&& self.sections[i].kind == earlier.sections[i].kind
                &&& earlier.sections[i].cursor <= self.sections[i].cursor
                &&& earlier.sections[i].data.is_prefix_of(self.sections[i].data)
            }
        &&& forall|i: int|
            0 <= i < earlier.symbols.len() ==> (#[trigger] self.symbols[i]) == earlier.symbols[i]
        &&& forall|i: int|
            0 <= i < earlier.relocations.len() ==> (#[trigger] self.relocations[i])
                == earlier.relocations[i]
    }

    /// The names of the sections, in table order.
    pub open spec fn section_names(self) -> Seq<Seq<char>> {
        Seq::new(self.sections.len(), |i: int| self.sections[i].name)
    }

    /// The names of the symbols, in table order.
    pub open spec fn symbol_names(self) -> Seq<Seq<char>> {
        Seq::new(self.symbols.len(), |i: int| self.symbols[i].name)
    }

    /// Whether `id` names a section of this object.
    pub open spec fn has_section(self, id: SectionIndex) -> bool {
        id.0 < self.sections.len()
    }

    /// Whether `id` names a symbol of this object.
    pub open spec fn has_symbol(self, id: SymbolIndex) -> bool {
        id.0 < self.symbols.len()
    }

    /// The section of the given name.
    pub open spec fn section_named(self, name: Seq<char>) -> Option<SectionIndex> {
        match first_named(self.section_names(), name) {
            Some(i) => Some(SectionIndex(i as usize)),
            None => None,
        }
    }

    /// The symbol of the given name: the one created first, where several
    /// share it.
    pub open spec fn symbol_named(self, name: Seq<char>) -> Option<SymbolIndex> {
        match first_named(self.symbol_names(), name) {
            Some(i) => Some(SymbolIndex(i as usize)),
            None => None,
        }
    }

    /// The invariant of the object model: the tables are no longer than an
    /// id can count, section names differ, no cursor lies beyond its
    /// buffer, every alignment is a power of two, and symbols and
    /// relocations name sections and symbols that exist.
    pub open spec fn wf(self) -> bool {
        &&& self.sections.len() <= usize::MAX
        &&& self.symbols.len() <= usize::MAX
        &&& self.consistent()
    }

    /// Whether the tables of this object fit together: see
    /// [`ElfView::wf`].
    #[verifier::opaque]
    pub open spec fn consistent(self) -> bool {
        &&& forall|i: int, j: int|
            0 <= i < j < self.sections.len() ==> self.sections[i].name != self.sections[j].name
        &&& forall|i: int|
            0 <= i < self.sections.len() ==> {
                &&& (#[trigger] self.sections[i]).cursor <= self.sections[i].data.len()
                &&& is_power_of_two(self.sections[i].align)
            }
        &&& forall|i: int|
            0 <= i < self.symbols.len() ==> self.has_section((#[trigger] self.symbols[i]).section)
        &&& forall|i: int|
            0 <= i < self.relocations.len() ==> {
                &&& self.has_section((#[trigger] self.relocations[i]).0)
                &&& self.has_symbol(self.relocations[i].1.symbol)
            }
    }

    /// The object with no section, symbol or relocation.
    pub open spec fn empty() -> ElfView {
        ElfView { sections: Seq::empty(), symbols: Seq::empty(), relocations: Seq::empty() }
    }

    /// This object with one more section, which is empty.
    pub open spec fn create_section(self, name: Seq<char>, kind: SectionKind) -> ElfView {
        ElfView {
            sections: self.sections.push(
                SectionView { name, kind, data: Seq::empty(), cursor: 0, align: 1 },
            ),
            ..self
        }
    }

    /// This object after `content` was written to section `id`: the buffer
    /// is first padded with zero bytes to a multiple of `align`, and the
    /// cursor moves on by the length of `content` alone.
    pub open spec fn write_section(
        self,
        id: SectionIndex,
        content: Seq<u8>,
        align: u64,
    ) -> ElfView {
        let old = self.sections[id.0 as int];
        ElfView {
            sections: self.sections.update(
                id.0 as int,
                SectionView {
                    data: old.data + zeros(padding(old.data.len(), align)) + content,
                    cursor: (old.cursor + content.len()) as u64,
                    align: if old.align < align {
                        align
                    } else {
                        old.align
                    },
                    ..old
                },
            ),
            ..self
        }
    }

    /// This object with one more symbol, whose content is written to its
    /// section: the symbol's value is the section's cursor before the write.
    pub open spec fn create_symbol(
        self,
        name: Seq<char>,
        content: Seq<u8>,
        section_id: SectionIndex,
        symbol_kind: SymbolKind,
        symbol_info: SymbolInfo,
        align: u64,
    ) -> ElfView {
        ElfView {
            symbols: self.symbols.push(
                SymbolView {
                    name,
                    section: section_id,
                    value: self.sections[section_id.0 as int].cursor,
                    size: content.len() as u64,
                    kind: symbol_kind,
                    info: symbol_info,
                },
            ),
            ..self.write_section(section_id, content, align)
        }
    }

    /// This object with one more pending relocation.
    pub open spec fn create_reallocation(
        self,
        id: SectionIndex,
        relocation: Relocation,
    ) -> ElfView {
        ElfView { relocations: self.relocations.push((id, relocation)), ..self }
    }
}

/// Why an operation on the object model failed.
#[derive(Debug, PartialEq, Eq)]
pub enum ElfError {
    /// No symbol of this name exists.
    SymbolNotExists(String),
    /// No section has this id.
    InvalidSection(SectionIndex),
    /// No symbol has this id.
    InvalidSymbol(SymbolIndex),
    /// The label of this name was found, but encoding it would have nested
    /// resolutions deeper than allowed.
    NestingTooDeep(String),
    /// The section of this name is of unknown kind, which no object file
    /// can hold.
    UnsupportedSection(String),
    /// The symbol of this name is of the kind that goes with sections of
    /// unknown kind.
    UnsupportedSymbol(String),
    /// This name of a section or symbol holds a NUL character.
    NulInName(String),
    /// The object file writer refused the object.
    ObjectWriteError(object::write::Error),
}

/// Appends `bytes` to `buf`.
fn append_bytes(buf: &mut Vec<u8>, bytes: &[u8])
    ensures
        final(buf)@ == old(buf)@ + bytes@,
{
    let mut i: usize = 0;
    while i < bytes.len()
        invariant
            i <= bytes.len(),
            buf@ == old(buf)@ + bytes@.subrange(0, i as int),
        decreases bytes.len() - i,
    {
        buf.push(bytes[i]);
        i += 1;
    }
    assert(bytes@.subrange(0, i as int) == bytes@);
}

/// Pads `buf` with zero bytes to a multiple of `align`.
fn pad_to(buf: &mut Vec<u8>, align: u64)
    ensures
        final(buf)@ == old(buf)@ + zeros(padding(old(buf)@.len(), align)),
{
    let len: u64 = buf.len() as u64;
    let pad: u64 = if align <= 1 || len % align == 0 {
        0
    } else {
        align - len % align
    };
    let mut i: u64 = 0;
    while i < pad
        invariant
            i <= pad,
            buf@ == old(buf)@ + zeros(i as nat),
        decreases pad - i,
    {
        buf.push(0u8);
        i += 1;
    }
}

impl Elf {
    /// Whether the invariant of the object model holds of this object.
    pub open spec fn wf(&self) -> bool {
        self@.wf()
    }

    /// An object with no section, symbol or relocation.
    pub fn new() -> (elf: Self)
        ensures
            elf@ == ElfView::empty(),
            elf.wf(),
    {
        let elf = Self { sections: Vec::new(), symbols: Vec::new(), relocations: Vec::new() };
        proof {
            reveal(ElfView::consistent);
        }
        assert(elf@.sections =~= Seq::empty());
        assert(elf@.symbols =~= Seq::empty());
        elf
    }

    /// The id of the section called `name`.
    pub fn section_id(&self, name: &String) -> (found: Option<SectionIndex>)
        ensures
            found == self@.section_named(name@),
            match found {
                Some(id) => is_first_named(self@.section_names(), name@, id.0 as int)
                    && self@.has_section(id) && self@.sections[id.0 as int].name == name@,
                None => forall|i: int|
                    0 <= i < self@.sections.len() ==> self@.sections[i].name != name@,
            },
    {
        let mut i: usize = 0;
        while i < self.sections.len()
            invariant
                i <= self.sections.len(),
                forall|j: int| 0 <= j < i ==> self@.section_names()[j] != name@,
            decreases self.sections.len() - i,
        {
            if self.sections[i].name == *name {
                proof {
                    lemma_first_named(self@.section_names(), name@, i as int);
                }
                return Some(SectionIndex(i));
            }
            i += 1;
        }
        proof {
            lemma_first_named_none(self@.section_names(), name@);
            assert forall|i: int| 0 <= i < self@.sections.len() implies self@.sections[i].name
                != name@ by {
                assert(self@.section_names()[i] == self@.sections[i].name);
            }
        }
        None
    }

    /// Registers a new, empty section and returns its id. No section of
    /// that name may exist yet.
    pub fn create_section(&mut self, name: &str, kind: SectionKind) -> (id: SectionIndex)
        requires
            old(self).wf(),
            old(self)@.section_named(name@) is None,
        ensures
            final(self)@ == old(self)@.create_section(name@, kind),
            id.0 == old(self)@.sections.len(),
            final(self)@.section_named(name@) == Some(id),
            final(self)@.grows_from(old(self)@),
            forall|other: Seq<char>|
                other != name@ ==> final(self)@.section_named(other) == old(self)@.section_named(
                    other,
                ),
            final(self).wf(),
    {
        let id = SectionIndex(self.sections.len());
        proof {
            reveal(ElfView::consistent);
            reveal(ElfView::keeps);
            lemma_first_named_none(self@.section_names(), name@);
            assert forall|i: int| 0 <= i < self@.sections.len() implies self@.sections[i].name
                != name@ by {
                assert(self@.section_names()[i] == self@.sections[i].name);
            }
            assert(1u64 & ((1u64 - 1) as u64) == 0) by (bit_vector);
        }
        self.sections.push(
            Section { name: name.to_owned(), kind, data: Vec::new(), cursor: 0, align: 1 },
        );
        assert(self@.sections =~= old(self)@.sections.push(
            SectionView { name: name@, kind, data: Seq::empty(), cursor: 0, align: 1 },
        ));
        assert(self@.symbols =~= old(self)@.symbols);
        assert(self.sections.len() <= usize::MAX);
        proof {
            lemma_create_section_named(old(self)@, name@, kind);
        }
        id
    }

    /// Writes `content` to the buffer of section `id` at the given
    /// alignment.
    pub fn write_section(&mut self, id: SectionIndex, content: &[u8], align: u64)
        requires
            old(self).wf(),
            old(self)@.has_section(id),
            is_power_of_two(align),
        ensures
            final(self)@ == old(self)@.write_section(id, content@, align),
            final(self)@.grows_from(old(self)@),
            final(self).wf(),
    {
        proof {
            reveal(ElfView::consistent);
            reveal(ElfView::keeps);
        }
        pad_to(&mut self.sections[id.0].data, align);
        append_bytes(&mut self.sections[id.0].data, content);
        assert(old(self)@.sections[id.0 as int].cursor <= old(self)@.sections[id.0
            as int].data.len());
        assert(self.sections[id.0 as int].data.len() <= usize::MAX);
        let advanced: u64 = self.sections[id.0].cursor + content.len() as u64;
        self.sections[id.0].cursor = advanced;
        if self.sections[id.0].align < align {
            self.sections[id.0].align = align;
        }
        assert(self@.sections =~= old(self)@.write_section(id, content@, align).sections);
        assert(self@.symbols =~= old(self)@.symbols);
    }

    /// The ids of the symbol called `name` and of its section.
    pub fn get_symbol(&self, name: &String) -> (found: Result<
        (SymbolIndex, SectionIndex),
        ElfError,
    >)
        ensures
            match found {
                Ok((symbol, section)) => self@.symbol_named(name@) == Some(symbol)
                    && is_first_named(self@.symbol_names(), name@, symbol.0 as int)
                    && self@.has_symbol(symbol) && self@.symbols[symbol.0 as int].name == name@
                    && section == self@.symbols[symbol.0 as int].section,
                Err(ElfError::SymbolNotExists(missing)) => self@.symbol_named(name@) is None
                    && missing@ == name@ && forall|i: int|
                    0 <= i < self@.symbols.len() ==> self@.symbols[i].name != name@,
                Err(_) => false,
            },
    {
        let mut i: usize = 0;
        while i < self.symbols.len()
            invariant
                i <= self.symbols.len(),
                forall|j: int| 0 <= j < i ==> self@.symbol_names()[j] != name@,
            decreases self.symbols.len() - i,
        {
            if self.symbols[i].name == *name {
                proof {
                    lemma_first_named(self@.symbol_names(), name@, i as int);
                }
                return Ok((SymbolIndex(i), self.symbols[i].section));
            }
            i += 1;
        }
        proof {
            lemma_first_named_none(self@.symbol_names(), name@);
            assert forall|i: int| 0 <= i < self@.symbols.len() implies self@.symbols[i].name
                != name@ by {
                assert(self@.symbol_names()[i] == self@.symbols[i].name);
            }
        }
        Err(ElfError::SymbolNotExists(name.clone()))
    }

    /// Adds a symbol at the cursor of its section and writes its content
    /// there.
    pub fn create_symbol(&mut self, info: CreateSectionInfo) -> (id: SymbolIndex)
        requires
            old(self).wf(),
            old(self)@.has_section(info.section_id),
            is_power_of_two(info.align),
        ensures
            final(self)@ == old(self)@.create_symbol(
                info.name@,
                info.content@,
                info.section_id,
                info.symbol_kind,
                info.symbol_info,
                info.align,
            ),
            id.0 == old(self)@.symbols.len(),
            final(self)@.grows_from(old(self)@),
            final(self).wf(),
    {
        let id = SymbolIndex(self.symbols.len());
        proof {
            reveal(ElfView::consistent);
            reveal(ElfView::keeps);
        }
        let value: u64 = self.sections[info.section_id.0].cursor;
        let size: u64 = info.content.len() as u64;
        self.write_section(info.section_id, info.content.as_slice(), info.align);
        self.symbols.push(
            Symbol {
                name: info.name,
                section: info.section_id,
                value,
                size,
                kind: info.symbol_kind,
                info: info.symbol_info,
            },
        );
        assert(self@.symbols =~= old(self)@.create_symbol(
            info.name@,
            info.content@,
            info.section_id,
            info.symbol_kind,
            info.symbol_info,
            info.align,
        ).symbols);
        assert(self@.sections =~= old(self)@.write_section(
            info.section_id,
            info.content@,
            info.align,
        ).sections);
        assert(self.symbols.len() <= usize::MAX);
        id
    }

    /// Adds a pending relocation against section `id`, if the section and
    /// the relocation's symbol exist.
    pub fn create_reallocation(
        &mut self,
        id: SectionIndex,
        relocation: Relocation,
    ) -> (done: Result<(), ElfError>)
        requires
            old(self).wf(),
        ensures
            match done {
                Ok(()) => old(self)@.has_section(id) && old(self)@.has_symbol(relocation.symbol)
                    && final(self)@ == old(self)@.create_reallocation(id, relocation),
                Err(ElfError::InvalidSection(section)) => !old(self)@.has_section(id) && section
                    == id && final(self)@ == old(self)@,
                Err(ElfError::InvalidSymbol(symbol)) => old(self)@.has_section(id) && !old(
                    self,
                )@.has_symbol(relocation.symbol) && symbol == relocation.symbol && final(self)@
                    == old(self)@,
                Err(_) => false,
            },
            final(self)@.grows_from(old(self)@),
            final(self).wf(),
    {
        proof {
            reveal(ElfView::consistent);
            reveal(ElfView::keeps);
        }
        if id.0 >= self.sections.len() {
            return Err(ElfError::InvalidSection(id));
        }
        if relocation.symbol.0 >= self.symbols.len() {
            return Err(ElfError::InvalidSymbol(relocation.symbol));
        }
        self.relocations.push((id, relocation));
        assert(self@.sections =~= old(self)@.sections);
        assert(self@.symbols =~= old(self)@.symbols);
        Ok(())
    }
}

} // verus!
