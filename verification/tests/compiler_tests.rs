use vea::compiler::assembler::{assemble, AssemblyError};
use vea::compiler::errors::CompilationError;
use vea::compiler::images::{check_png_header, encode_bg, encode_chr, frame_pixels, ImageError, PngColor, PngHeader};
use vea::compiler::labels::Labels;
use vea::compiler::numbers::parse_address_num;
use vea::compiler::operand_checking::get_signature;
use vea::compiler::packaging::{finalize_resources, report_addresses, AddressReport};
use vea::compiler::palette::{palette_would_panic, parse_palette, PaletteError};
use vea::compiler::parsing::{encode_opcode, parse_opcode, parse_operands};
use vea::shared::cartridge::Cartridge;
use vea::shared::manifest::Manifest;
use vea::shared::opcodes::Opcode;
use vea::shared::operand_types::{Operand, OperandKind};

fn manifest() -> Manifest {
    Manifest::default("test".to_string())
}

const ROM_START: u64 = 61440 + 2000 + 1000;

#[test]
fn assembles_mov_and_hlt() {
    let code = assemble("mov 12 $0\nhlt", &manifest()).ok().unwrap();
    assert_eq!(code, vec![0x10, 0x01, 12, 0xAD, 0, 0, 0, 0, 0, 0, 0, 0, 0x01]);
}

#[test]
fn comments_and_blank_lines_are_ignored() {
    let code = assemble("; a comment\n\nhlt ; halt here\n   \n", &manifest()).ok().unwrap();
    assert_eq!(code, vec![0x01]);
}

#[test]
fn labels_resolve_to_rom_addresses() {
    let code = assemble("noop\nloop:\njmp $loop", &manifest()).ok().unwrap();
    let target = (ROM_START + 1).to_be_bytes();
    let mut expected = vec![0x00, 0x40, 0xAD];
    expected.extend_from_slice(&target);
    assert_eq!(code, expected);
}

#[test]
fn forward_labels_resolve() {
    let code = assemble("jmp $end\nnoop\nend:\nhlt", &manifest()).ok().unwrap();
    let target = (ROM_START + 11).to_be_bytes();
    let mut expected = vec![0x40, 0xAD];
    expected.extend_from_slice(&target);
    expected.extend_from_slice(&[0x00, 0x01]);
    assert_eq!(code, expected);
}

#[test]
fn jz_and_jnz_are_aliases() {
    let jz = assemble("jz !A $0", &manifest()).ok().unwrap();
    let jne = assemble("jne !A $0", &manifest()).ok().unwrap();
    assert_eq!(jz, jne);
    let jnz = assemble("jnz !A $0", &manifest()).ok().unwrap();
    let je = assemble("je !A $0", &manifest()).ok().unwrap();
    assert_eq!(jnz, je);
    assert_eq!(jz[0], 0x42);
    assert_eq!(jnz[0], 0x41);
}

#[test]
fn immediates_of_every_size() {
    let code = assemble("push 0xFF", &manifest()).ok().unwrap();
    assert_eq!(code, vec![0x50, 0x01, 0xFF]);
    let code = assemble("add &1 &0b10", &manifest()).ok().unwrap();
    assert_eq!(code, vec![0x20, 0x02, 0, 0, 0, 0, 0, 0, 0, 1, 0x02, 0, 0, 0, 0, 0, 0, 0, 2]);
    let code = assemble("trunc ^0x1FFFFFFFFFFFFFFFF !A", &manifest()).ok().unwrap();
    assert_eq!(code, vec![0x11, 0x03, 9, 1, 0xFF, 0xFF, 0xFF, 0xFF, 0xFF, 0xFF, 0xFF, 0xFF, 0x10, 0x00]);
}

#[test]
fn registers_and_indirect_addresses_encode() {
    let code = assemble("mov !G5 [?GP3]", &manifest()).ok().unwrap();
    assert_eq!(code, vec![0x10, 0x10, 0x08, 0x12, 0x05]);
    let code = assemble("mov ?SP ?LL2", &manifest()).ok().unwrap();
    assert_eq!(code, vec![0x10, 0x11, 0x06, 0x11, 0x02]);
}

#[test]
fn unknown_opcode_is_reported_with_its_line() {
    match assemble("hlt\nfoo 1", &manifest()) {
        Err(AssemblyError::Line(1, CompilationError::UnknownOpcode(s))) => assert_eq!(s, "foo"),
        _ => panic!("expected an unknown opcode on line 1"),
    }
}

#[test]
fn unknown_register_is_reported() {
    match assemble("push !Q", &manifest()) {
        Err(AssemblyError::Line(0, CompilationError::UnknownRegister(s))) => assert_eq!(s, "!Q"),
        Err(AssemblyError::Line(0, CompilationError::InvalidOperand(_))) => panic!("wrong error kind"),
        _ => panic!("expected an unknown register"),
    }
}

#[test]
fn immediate_overflow_is_reported() {
    match assemble("push 256", &manifest()) {
        Err(AssemblyError::Line(0, CompilationError::ImmediateOverflow(s))) => assert_eq!(s, "256"),
        _ => panic!("expected an immediate overflow"),
    }
}

#[test]
fn wrong_signature_is_reported() {
    match assemble("jmp 5", &manifest()) {
        Err(AssemblyError::Line(0, CompilationError::InvalidOpcodeSignature((op, kinds)))) => {
            assert_eq!(op, Opcode::Jmp);
            assert_eq!(kinds, vec![OperandKind::Immediate]);
        }
        _ => panic!("expected an invalid signature"),
    }
}

#[test]
fn parse_opcode_names() {
    assert_eq!(parse_opcode("mov").ok(), Some(Opcode::Mov));
    assert_eq!(parse_opcode("call").ok(), Some(Opcode::CALL));
    assert_eq!(parse_opcode("jz").ok(), Some(Opcode::Jne));
    assert!(matches!(parse_opcode("MOV"), Err(CompilationError::UnknownOpcode(_))));
}

#[test]
fn parse_address_numbers_in_three_bases() {
    assert_eq!(parse_address_num("100".to_string()).ok(), Some(100));
    assert_eq!(parse_address_num("0xAB".to_string()).ok(), Some(0xAB));
    assert_eq!(parse_address_num("0b10001010".to_string()).ok(), Some(0b10001010));
    assert_eq!(parse_address_num("18446744073709551615".to_string()).ok(), Some(u64::MAX));
    assert!(matches!(parse_address_num("18446744073709551616".to_string()), Err(CompilationError::AddressOverflow(_))));
    assert!(parse_address_num("abc".to_string()).is_err());
}

#[test]
fn parse_operands_gives_kinds_and_operands() {
    let labels = Labels::new();
    let (kinds, operands) = parse_operands(&["!A", "$5", "&7"], &labels, false, &manifest()).ok().unwrap();
    assert_eq!(kinds, vec![OperandKind::Register, OperandKind::Address, OperandKind::LongImmediate]);
    assert_eq!(operands.len(), 3);
    assert!(matches!(operands[1], Operand::Address(5)));
    assert!(matches!(operands[2], Operand::LongImmediate(7)));
}

#[test]
fn encode_opcode_checks_the_signature() {
    let labels = Labels::new();
    let code = encode_opcode(Opcode::PUSH, &["3"], "push 3", &labels, false, &manifest()).ok().unwrap();
    assert_eq!(code, vec![0x50, 0x01, 3]);
    assert!(encode_opcode(Opcode::PUSH, &["&3"], "push &3", &labels, false, &manifest()).is_err());
}

#[test]
fn labels_store_and_find() {
    let mut labels = Labels::new();
    labels.insert(vec!['a', 'b'], 7);
    assert_eq!(labels.get(&['a', 'b']), Some(7));
    assert_eq!(labels.get(&['a']), None);
    labels.insert(vec!['a', 'b'], 9);
    assert_eq!(labels.get(&['a', 'b']), Some(9));
}

#[test]
fn signatures_accept_what_the_docs_list() {
    let sig = get_signature(Opcode::Jmp);
    assert!(sig.check(&vec![OperandKind::Address]));
    assert!(sig.check(&vec![OperandKind::IndirectAddress]));
    assert!(!sig.check(&vec![OperandKind::Immediate]));
    assert!(get_signature(Opcode::Hlt).check(&vec![]));
    assert_eq!(get_signature(Opcode::Mov).operands_variations.len(), 18);
}

#[test]
fn error_messages() {
    assert_eq!(CompilationError::UnknownRegister("!Q".to_string()).to_string_error(), "unknown register '!Q'");
    assert_eq!(
        CompilationError::ImmediateOverflow("300".to_string()).to_string_error(),
        "300 >= 256. Use prefix '&' to turn it to LongImmediate, if applicable by instruction"
    );
    assert_eq!(
        CompilationError::InvalidOpcodeSignature((Opcode::Jmp, vec![OperandKind::Immediate])).to_string_error(),
        "You can't use signature [Immediate] for instruction *Jmp*. Available signatures are:\n    [Address]\n    [IndirectAddress]"
    );
    assert_eq!(
        CompilationError::InvalidOpcodeSignature((Opcode::PUSH, vec![OperandKind::Register, OperandKind::Address])).to_string_error(),
        "You can't use signature [Register, Address] for instruction *PUSH*. Available signatures are:\n    [Immediate]\n    [Register]"
    );
}

#[test]
fn palette_converts_colors() {
    let p = parse_palette("JASC-PAL\n0100\n2\n0 0 0 0\n255 128 0 255\n").ok().unwrap();
    assert_eq!(p.colors, vec![0, 0, 0, 0, 255, 128, 0, 255]);
    assert!(!p.first_color_replaced);
}

#[test]
fn palette_first_color_is_made_transparent() {
    let p = parse_palette("JASC-PAL\n0100\n1\n10 20 30 255").ok().unwrap();
    assert_eq!(p.colors, vec![0, 0, 0, 0]);
    assert!(p.first_color_replaced);
}

#[test]
fn palette_errors() {
    assert!(matches!(parse_palette("JASC-PAL\n0100"), Err(PaletteError::TooFewLines)));
    assert!(matches!(parse_palette("RIFF\n0100\n1\n0 0 0 0"), Err(PaletteError::InvalidHeader)));
    assert!(matches!(parse_palette("JASC-PAL\n0100\n256\n0 0 0 0"), Err(PaletteError::TooManyColors)));
    assert!(matches!(parse_palette("JASC-PAL\n0100\n0\n0 0 0 0"), Err(PaletteError::NoColors)));
    assert!(matches!(parse_palette("JASC-PAL\n0100\n1\n0 0 0 0\n1 2 3"), Err(PaletteError::InvalidLine(_))));
    assert!(matches!(parse_palette("JASC-PAL\n0100\n1\n0 0 0 0\n1 2 3 999"), Err(PaletteError::InvalidChannel(_))));
}

#[test]
fn palette_without_color_lines_would_panic() {
    assert!(palette_would_panic("JASC-PAL\n0100\n1"));
    assert!(!palette_would_panic("JASC-PAL\n0100\n1\n0 0 0 0"));
    assert!(!palette_would_panic("JASC-PAL\n0100\n0"));
}

#[test]
fn address_report_matches_the_docs() {
    let cartridge = Cartridge::new(manifest());
    let r = report_addresses(&cartridge);
    assert_eq!(
        r,
        AddressReport {
            vram_end: 61440,
            ram_start: 61441,
            ram_end: 63440,
            stack_start: 63440,
            stack_end: 64439,
            rom_start: 64440,
            input_held: 63438,
            input_pressed: 63439,
        }
    );
    assert_eq!(
        r.lines(),
        vec![
            "=== SECTIONS ===",
            "VRAM: 0-61440",
            "RAM: 61441-63440",
            "STACK: 63440-64439",
            "ROM: 64440-...",
            "=== SPECIAL ADDRESSES ===",
            "INPUT_HELD: $63438",
            "INPUT_PRESSED: $63439",
        ]
    );
}

#[test]
fn finalized_resources_use_cartridge_names() {
    let mut m = manifest();
    m.resources.bg.insert(0, "bg/bg.png".to_string());
    m.resources.bg.insert(3, "bg/other.png".to_string());
    m.resources.img.insert(1, "img/char.png".to_string());
    finalize_resources(&mut m.resources);
    assert_eq!(m.resources.entry, "entry.veb");
    assert_eq!(m.resources.palette, "palette.rfe");
    assert_eq!(m.resources.bg.get(&0).unwrap(), "bg/0.bg.bin");
    assert_eq!(m.resources.bg.get(&3).unwrap(), "bg/3.bg.bin");
    assert_eq!(m.resources.bg.len(), 2);
    assert_eq!(m.resources.img.get(&1).unwrap(), "bg/1.bg.bin");
    assert_eq!(m.resources.img.len(), 1);
}

fn png_bytes(width: u32, height: u32, color: png::ColorType, data: &[u8]) -> Vec<u8> {
    let mut out = Vec::new();
    {
        let mut encoder = png::Encoder::new(&mut out, width, height);
        encoder.set_color(color);
        encoder.set_depth(png::BitDepth::Eight);
        if color == png::ColorType::Indexed {
            encoder.set_palette(vec![0u8; 3 * 256]);
        }
        let mut writer = encoder.write_header().unwrap();
        writer.write_image_data(data).unwrap();
    }
    out
}

#[test]
fn sprite_pixels_are_palette_indices() {
    let data: Vec<u8> = (0..64).collect();
    let bytes = png_bytes(8, 8, png::ColorType::Indexed, &data);
    assert_eq!(encode_chr(&bytes), Ok(data));
}

#[test]
fn background_of_wrong_size_is_refused() {
    let data = vec![0u8; 64];
    let bytes = png_bytes(8, 8, png::ColorType::Indexed, &data);
    assert_eq!(encode_bg(&bytes), Err(ImageError::WrongDimensions { width: 256, height: 240 }));
}

#[test]
fn non_indexed_image_is_refused() {
    let data = vec![0u8; 8 * 8 * 3];
    let bytes = png_bytes(8, 8, png::ColorType::Rgb, &data);
    assert_eq!(encode_chr(&bytes), Err(ImageError::NotIndexed));
}

#[test]
fn non_png_is_refused() {
    assert_eq!(encode_chr(&[1, 2, 3]), Err(ImageError::NotPng));
}

#[test]
fn header_checks() {
    let ok = PngHeader { color: PngColor::Indexed, width: 8, height: 8 };
    assert_eq!(check_png_header(Some(ok), 8, 8), Ok(()));
    assert_eq!(check_png_header(None, 8, 8), Err(ImageError::NotPng));
    assert_eq!(check_png_header(Some(PngHeader { color: PngColor::Rgba, ..ok }), 8, 8), Err(ImageError::NotIndexed));
    assert_eq!(check_png_header(Some(ok), 256, 240), Err(ImageError::WrongDimensions { width: 256, height: 240 }));
    assert_eq!(frame_pixels(None), Err(ImageError::BadFrame));
    assert_eq!(frame_pixels(Some(vec![1, 2])), Ok(vec![1, 2]));
}
