//! Bit layouts of the four instruction formats.

use vstd::prelude::*;

verus! {

/// Fields of a register-immediate instruction.
pub struct ImmArgs {
    pub imm: u64,
    pub rs1: u32,
    pub rd: u32,
    pub funct3: u32,
    pub opcode: u32,
}

/// Fields of a register-register instruction.
pub struct RegArgs {
    pub rs1: u32,
    pub rs2: u32,
    pub rd: u32,
    pub funct7: u32,
    pub funct3: u32,
    pub opcode: u32,
}

/// Fields of a store instruction.
pub struct StoreArgs {
    pub imm: u64,
    pub rs2: u32,
    pub rs1: u32,
    pub opcode: u32,
    pub funct3: u32,
}

/// Fields of an upper-immediate instruction.
pub struct UpperArgs {
    pub imm: u64,
    pub rd: u32,
    pub opcode: u32,
}

/// The four bytes of `word`, least significant first.
pub open spec fn le_bytes(word: u32) -> Seq<u8> {
    seq![
        (word & 0xff) as u8,
        ((word >> 8) & 0xff) as u8,
        ((word >> 16) & 0xff) as u8,
        ((word >> 24) & 0xff) as u8,
    ]
}

/// The word of an upper-immediate instruction: the low 20 bits of the
/// immediate in bits 12 to 31, `rd` from bit 7, the opcode from bit 0.
pub open spec fn upper_word(arg: UpperArgs) -> u32 {
    (((arg.imm & 0xFFFFF) as u32) << 12) | (arg.rd << 7) | arg.opcode
}

/// The word of a store instruction: bits 5 to 11 of the immediate in bits 25
/// to 31, `rs2` from bit 20, `rs1` from bit 15, `funct3` from bit 12, bits 0
/// to 4 of the immediate in bits 7 to 11, the opcode from bit 0.
pub open spec fn store_word(arg: StoreArgs) -> u32 {
    ((((arg.imm >> 5) & 0x7F) as u32) << 25) | (arg.rs2 << 20) | (arg.rs1 << 15) | (arg.funct3
        << 12) | (((arg.imm & 0x1F) as u32) << 7) | arg.opcode
}

/// The word of a register-immediate instruction: the low 12 bits of the
/// immediate in bits 20 to 31, `rs1` from bit 15, `funct3` from bit 12, `rd`
/// from bit 7, the opcode from bit 0.
pub open spec fn immediate_word(arg: ImmArgs) -> u32 {
    (((arg.imm & 0xFFF) as u32) << 20) | (arg.rs1 << 15) | (arg.funct3 << 12) | (arg.rd << 7)
        | arg.opcode
}

/// The word of a register-register instruction: `funct7` from bit 25, `rs2`
/// from bit 20, `rs1` from bit 15, `funct3` from bit 12, `rd` from bit 7, the
/// opcode from bit 0.
pub open spec fn register_word(arg: RegArgs) -> u32 {
    (arg.funct7 << 25) | (arg.rs2 << 20) | (arg.rs1 << 15) | (arg.funct3 << 12) | (arg.rd << 7)
        | arg.opcode
}

/// Splits a word into its little-endian bytes.
pub fn word_bytes(word: u32) -> (bytes: Vec<u8>)
    ensures
        bytes@ == le_bytes(word),
{
    let mut bytes: Vec<u8> = Vec::new();
    bytes.push((word & 0xff) as u8);
    bytes.push(((word >> 8) & 0xff) as u8);
    bytes.push(((word >> 16) & 0xff) as u8);
    bytes.push(((word >> 24) & 0xff) as u8);
    bytes
}

/// Encodes an upper-immediate instruction.
pub fn upper(arg: UpperArgs) -> (bytes: Vec<u8>)
    ensures
        bytes@ == le_bytes(upper_word(arg)),
{
    let ins: u32 = (((arg.imm & 0xFFFFF) as u32) << 12) | (arg.rd << 7) | arg.opcode;
    word_bytes(ins)
}

/// Encodes a store instruction.
pub fn store(arg: StoreArgs) -> (bytes: Vec<u8>)
    ensures
        bytes@ == le_bytes(store_word(arg)),
{
    let ins: u32 = ((((arg.imm >> 5) & 0x7F) as u32) << 25) | (arg.rs2 << 20) | (arg.rs1 << 15) | (
    arg.funct3 << 12) | (((arg.imm & 0x1F) as u32) << 7) | arg.opcode;
    word_bytes(ins)
}

/// Encodes a register-immediate instruction.
pub fn immediate(arg: ImmArgs) -> (bytes: Vec<u8>)
    ensures
        bytes@ == le_bytes(immediate_word(arg)),
{
    let ins: u32 = (((arg.imm & 0xFFF) as u32) << 20) | (arg.rs1 << 15) | (arg.funct3 << 12) | (
    arg.rd << 7) | arg.opcode;
    word_bytes(ins)
}

/// Encodes a register-register instruction.
pub fn register(arg: RegArgs) -> (bytes: Vec<u8>)
    ensures
        bytes@ == le_bytes(register_word(arg)),
{
    let ins: u32 = (arg.funct7 << 25) | (arg.rs2 << 20) | (arg.rs1 << 15) | (arg.funct3 << 12) | (
    arg.rd << 7) | arg.opcode;
    word_bytes(ins)
}

/// The word whose little-endian bytes are the first four of `bytes`.
pub open spec fn le_word(bytes: Seq<u8>) -> u32 {
    (bytes[0] as u32) | ((bytes[1] as u32) << 8) | ((bytes[2] as u32) << 16) | ((bytes[3] as u32)
        << 24)
}

/// Bits 0 to 6 of an instruction word.
pub open spec fn opcode_of(word: u32) -> u32 {
    word & 0x7F
}

/// Bits 7 to 11 of an instruction word.
pub open spec fn rd_of(word: u32) -> u32 {
    (word >> 7) & 0x1F
}

/// Bits 12 to 14 of an instruction word.
pub open spec fn funct3_of(word: u32) -> u32 {
    (word >> 12) & 0x7
}

/// Bits 15 to 19 of an instruction word.
pub open spec fn rs1_of(word: u32) -> u32 {
    (word >> 15) & 0x1F
}

/// Bits 20 to 24 of an instruction word.
pub open spec fn rs2_of(word: u32) -> u32 {
    (word >> 20) & 0x1F
}

/// Bits 25 to 31 of an instruction word.
pub open spec fn funct7_of(word: u32) -> u32 {
    word >> 25
}

/// The 12-bit immediate of a register-immediate word: bits 20 to 31.
pub open spec fn immediate_imm_of(word: u32) -> u32 {
    word >> 20
}

/// The 12-bit immediate of a store word: bits 25 to 31 above bits 7 to 11.
pub open spec fn store_imm_of(word: u32) -> u32 {
    ((word >> 25) << 5) | ((word >> 7) & 0x1F)
}

/// The 20-bit immediate of an upper-immediate word: bits 12 to 31.
pub open spec fn upper_imm_of(word: u32) -> u32 {
    word >> 12
}

/// Whether `r` is a register index.
pub open spec fn is_reg(r: u32) -> bool {
    r < 32
}

/// The bytes of a word give the word back.
pub proof fn lemma_le_bytes_round_trip(word: u32)
    ensures
        le_bytes(word).len() == 4,
        le_word(le_bytes(word)) == word,
{
    let b0 = (word & 0xff) as u8;
    let b1 = ((word >> 8) & 0xff) as u8;
    let b2 = ((word >> 16) & 0xff) as u8;
    let b3 = ((word >> 24) & 0xff) as u8;
    assert((b0 as u32) | ((b1 as u32) << 8) | ((b2 as u32) << 16) | ((b3 as u32) << 24) == word)
        by (bit_vector)
        requires
            b0 == (word & 0xff) as u8,
            b1 == ((word >> 8) & 0xff) as u8,
            b2 == ((word >> 16) & 0xff) as u8,
            b3 == ((word >> 24) & 0xff) as u8,
    ;
}

/// Reading a register-immediate word at the documented bit positions gives
/// back every field that went in, the immediate in its low 12 bits.
pub proof fn lemma_immediate_decodes(arg: ImmArgs)
    requires
        is_reg(arg.rd),
        is_reg(arg.rs1),
        arg.funct3 < 8,
        arg.opcode < 128,
    ensures
        opcode_of(immediate_word(arg)) == arg.opcode,
        rd_of(immediate_word(arg)) == arg.rd,
        funct3_of(immediate_word(arg)) == arg.funct3,
        rs1_of(immediate_word(arg)) == arg.rs1,
        immediate_imm_of(immediate_word(arg)) == arg.imm & 0xFFF,
{
    let imm = arg.imm;
    let rs1 = arg.rs1;
    let rd = arg.rd;
    let funct3 = arg.funct3;
    let opcode = arg.opcode;
    let w = (((imm & 0xFFF) as u32) << 20) | (rs1 << 15) | (funct3 << 12) | (rd << 7) | opcode;
    assert(w & 0x7F == opcode && (w >> 7) & 0x1F == rd && (w >> 12) & 0x7 == funct3 && (w >> 15)
        & 0x1F == rs1 && (w >> 20) == imm & 0xFFF) by (bit_vector)
        requires
            w == (((imm & 0xFFF) as u32) << 20) | (rs1 << 15) | (funct3 << 12) | (rd << 7)
                | opcode,
            rd < 32,
            rs1 < 32,
            funct3 < 8,
            opcode < 128,
    ;
}

/// Reading a register-register word at the documented bit positions gives
/// back every field that went in.
pub proof fn lemma_register_decodes(arg: RegArgs)
    requires
        is_reg(arg.rd),
        is_reg(arg.rs1),
        is_reg(arg.rs2),
        arg.funct3 < 8,
        arg.funct7 < 128,
        arg.opcode < 128,
    ensures
        opcode_of(register_word(arg)) == arg.opcode,
        rd_of(register_word(arg)) == arg.rd,
        funct3_of(register_word(arg)) == arg.funct3,
        rs1_of(register_word(arg)) == arg.rs1,
        rs2_of(register_word(arg)) == arg.rs2,
        funct7_of(register_word(arg)) == arg.funct7,
{
    let rs1 = arg.rs1;
    let rs2 = arg.rs2;
    let rd = arg.rd;
    let funct3 = arg.funct3;
    let funct7 = arg.funct7;
    let opcode = arg.opcode;
    let w = (funct7 << 25) | (rs2 << 20) | (rs1 << 15) | (funct3 << 12) | (rd << 7) | opcode;
    assert(w & 0x7F == opcode && (w >> 7) & 0x1F == rd && (w >> 12) & 0x7 == funct3 && (w >> 15)
        & 0x1F == rs1 && (w >> 20) & 0x1F == rs2 && (w >> 25) == funct7) by (bit_vector)
        requires
            w == (funct7 << 25) | (rs2 << 20) | (rs1 << 15) | (funct3 << 12) | (rd << 7) | opcode,
            rd < 32,
            rs1 < 32,
            rs2 < 32,
            funct3 < 8,
            funct7 < 128,
            opcode < 128,
    ;
}

/// Reading a store word at the documented bit positions gives back every
/// field that went in: bits 0 to 4 of the immediate from bits 7 to 11, its
/// bits 5 to 11 from bits 25 to 31, and so its low 12 bits as a whole.
pub proof fn lemma_store_decodes(arg: StoreArgs)
    requires
        is_reg(arg.rs1),
        is_reg(arg.rs2),
        arg.funct3 < 8,
        arg.opcode < 128,
    ensures
        opcode_of(store_word(arg)) == arg.opcode,
        rd_of(store_word(arg)) == arg.imm & 0x1F,
        funct3_of(store_word(arg)) == arg.funct3,
        rs1_of(store_word(arg)) == arg.rs1,
        rs2_of(store_word(arg)) == arg.rs2,
        funct7_of(store_word(arg)) == (arg.imm >> 5) & 0x7F,
        store_imm_of(store_word(arg)) == arg.imm & 0xFFF,
{
    let imm = arg.imm;
    let rs1 = arg.rs1;
    let rs2 = arg.rs2;
    let funct3 = arg.funct3;
    let opcode = arg.opcode;
    let w = ((((imm >> 5) & 0x7F) as u32) << 25) | (rs2 << 20) | (rs1 << 15) | (funct3 << 12) | (((
    imm & 0x1F) as u32) << 7) | opcode;
    assert(w & 0x7F == opcode && (w >> 7) & 0x1F == imm & 0x1F && (w >> 12) & 0x7 == funct3 && (w
        >> 15) & 0x1F == rs1 && (w >> 20) & 0x1F == rs2 && (w >> 25) == (imm >> 5) & 0x7F && (((w
        >> 25) << 5) | ((w >> 7) & 0x1F)) == imm & 0xFFF) by (bit_vector)
        requires
            w == ((((imm >> 5) & 0x7F) as u32) << 25) | (rs2 << 20) | (rs1 << 15) | (funct3 << 12)
                | (((imm & 0x1F) as u32) << 7) | opcode,
            rs1 < 32,
            rs2 < 32,
            funct3 < 8,
            opcode < 128,
    ;
}

/// Reading an upper-immediate word at the documented bit positions gives
/// back every field that went in, the immediate in its low 20 bits.
pub proof fn lemma_upper_decodes(arg: UpperArgs)
    requires
        is_reg(arg.rd),
        arg.opcode < 128,
    ensures
        opcode_of(upper_word(arg)) == arg.opcode,
        rd_of(upper_word(arg)) == arg.rd,
        upper_imm_of(upper_word(arg)) == arg.imm & 0xFFFFF,
{
    let imm = arg.imm;
    let rd = arg.rd;
    let opcode = arg.opcode;
    let w = (((imm & 0xFFFFF) as u32) << 12) | (rd << 7) | opcode;
    assert(w & 0x7F == opcode && (w >> 7) & 0x1F == rd && (w >> 12) == imm & 0xFFFFF)
        by (bit_vector)
        requires
            w == (((imm & 0xFFFFF) as u32) << 12) | (rd << 7) | opcode,
            rd < 32,
            opcode < 128,
    ;
}

} // verus!
