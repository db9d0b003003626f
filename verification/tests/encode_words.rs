use rvasm::riscv::encode::{
    immediate, register, store, upper, word_bytes, ImmArgs, RegArgs, StoreArgs, UpperArgs,
};

fn word(bytes: &[u8]) -> u32 {
    assert_eq!(bytes.len(), 4);
    u32::from_le_bytes([bytes[0], bytes[1], bytes[2], bytes[3]])
}

#[test]
fn addi_a0_zero_10_is_00a00513() {
    let bytes = immediate(ImmArgs { imm: 10, rs1: 0, rd: 10, funct3: 0, opcode: 0b0010011 });
    assert_eq!(bytes, vec![0x13, 0x05, 0xA0, 0x00]);
    assert_eq!(word(&bytes), 0x00A0_0513);
}

#[test]
fn ecall_is_00000073() {
    let bytes = immediate(ImmArgs { imm: 0, rs1: 0, rd: 0, funct3: 0, opcode: 0b1110011 });
    assert_eq!(bytes, vec![0x73, 0x00, 0x00, 0x00]);
}

#[test]
fn sb_splits_its_immediate() {
    let bytes = store(StoreArgs { imm: 20, rs2: 28, rs1: 2, opcode: 0b0100011, funct3: 0 });
    let w = word(&bytes);
    assert_eq!(w, 0x01C1_0A23);
    assert_eq!(w & 0x7F, 0b0100011);
    assert_eq!((w >> 7) & 0x1F, 20);
    assert_eq!((w >> 15) & 0x1F, 2);
    assert_eq!((w >> 20) & 0x1F, 28);
    assert_eq!(w >> 25, 0);
}

#[test]
fn sb_puts_the_high_bits_of_its_immediate_on_top() {
    let w = word(&store(StoreArgs { imm: 2047, rs2: 5, rs1: 6, opcode: 0b0100011, funct3: 0 }));
    assert_eq!(w, 0x7E53_0FA3);
    assert_eq!(w >> 25, 2047 >> 5);
    assert_eq!((w >> 7) & 0x1F, 2047 & 0x1F);
    // Only the low 12 bits of a longer immediate go in.
    let w = word(&store(StoreArgs { imm: u64::MAX, rs2: 5, rs1: 6, opcode: 0b0100011, funct3: 0 }));
    assert_eq!(w, 0xFE53_0FA3);
}

#[test]
fn immediate_masks_to_twelve_bits() {
    let w = word(&immediate(ImmArgs {
        imm: u64::MAX,
        rs1: 1,
        rd: 1,
        funct3: 0,
        opcode: 0b0010011,
    }));
    assert_eq!(w, 0xFFF0_8093);
}

#[test]
fn register_format_places_every_field() {
    let add = RegArgs { rs1: 2, rs2: 3, rd: 1, funct7: 0, funct3: 0, opcode: 0b0110011 };
    assert_eq!(word(&register(add)), 0x0031_00B3);
    let sub = RegArgs { rs1: 2, rs2: 3, rd: 1, funct7: 0x20, funct3: 0, opcode: 0b0110011 };
    assert_eq!(word(&register(sub)), 0x4031_00B3);
}

#[test]
fn upper_format_places_every_field() {
    let lui = UpperArgs { imm: 0x12345, rd: 5, opcode: 0b0110111 };
    assert_eq!(word(&upper(lui)), 0x1234_52B7);
    let auipc = UpperArgs { imm: 1, rd: 5, opcode: 0b0010111 };
    assert_eq!(word(&upper(auipc)), 0x0000_1297);
    // Only the low 20 bits of a longer immediate go in.
    let wide = UpperArgs { imm: 0xFFF0_0001, rd: 0, opcode: 0b0110111 };
    assert_eq!(word(&upper(wide)), 0x0000_1037);
}

#[test]
fn word_bytes_are_little_endian() {
    assert_eq!(word_bytes(0x1234_5678), vec![0x78, 0x56, 0x34, 0x12]);
    assert_eq!(word_bytes(0), vec![0, 0, 0, 0]);
    assert_eq!(word_bytes(u32::MAX), vec![0xFF, 0xFF, 0xFF, 0xFF]);
}

#[test]
fn every_format_decodes_to_its_fields() {
    for rd in [0u32, 1, 17, 31] {
        for rs1 in [0u32, 5, 31] {
            for rs2 in [0u32, 9, 31] {
                for funct3 in [0u32, 5, 7] {
                    let w = word(&register(RegArgs {
                        rs1,
                        rs2,
                        rd,
                        funct7: 0x20,
                        funct3,
                        opcode: 0b0110011,
                    }));
                    assert_eq!(w & 0x7F, 0b0110011);
                    assert_eq!((w >> 7) & 0x1F, rd);
                    assert_eq!((w >> 12) & 0x7, funct3);
                    assert_eq!((w >> 15) & 0x1F, rs1);
                    assert_eq!((w >> 20) & 0x1F, rs2);
                    assert_eq!(w >> 25, 0x20);

                    let imm = 0xABCu64;
                    let w = word(&immediate(ImmArgs { imm, rs1, rd, funct3, opcode: 0b0010011 }));
                    assert_eq!(w & 0x7F, 0b0010011);
                    assert_eq!((w >> 7) & 0x1F, rd);
                    assert_eq!((w >> 12) & 0x7, funct3);
                    assert_eq!((w >> 15) & 0x1F, rs1);
                    assert_eq!((w >> 20) as u64, imm);

                    let w = word(&store(StoreArgs { imm, rs2, rs1, opcode: 0b0100011, funct3 }));
                    assert_eq!(w & 0x7F, 0b0100011);
                    assert_eq!((w >> 12) & 0x7, funct3);
                    assert_eq!((w >> 15) & 0x1F, rs1);
                    assert_eq!((w >> 20) & 0x1F, rs2);
                    assert_eq!((((w >> 25) << 5) | ((w >> 7) & 0x1F)) as u64, imm);
                }
            }
            let imm = 0xFEDCBu64;
            let w = word(&upper(UpperArgs { imm, rd, opcode: 0b0110111 }));
            assert_eq!(w & 0x7F, 0b0110111);
            assert_eq!((w >> 7) & 0x1F, rd);
            assert_eq!((w >> 12) as u64, imm);
        }
    }
}
