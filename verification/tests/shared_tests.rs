use vea::shared::registers::{LongRegisters, Registers};
use vea::shared::opcodes::Opcode;
use vea::shared::cartridge::{get_bg_path, get_spr_path};

#[test]
fn registers_roundtrip_through_bytecode() {
    for r in Registers::all() {
        assert_eq!(Registers::from_bytecode(r.to_bytecode()), r);
    }
    for r in LongRegisters::all() {
        assert_eq!(LongRegisters::from_bytecode(r.to_bytecode()), r);
    }
}

#[test]
fn opcode_roundtrip_through_bytecode() {
    for code in 0u8..=255 {
        if let Some(op) = Opcode::from_bytecode(code) {
            assert_eq!(op.to_bytecode(), code);
        }
    }
    assert_eq!(Opcode::from_bytecode(255), None);
}

#[test]
fn background_and_sprite_paths() {
    assert_eq!(get_bg_path(&0), "bg/0.bg.bin");
    assert_eq!(get_bg_path(&42), "bg/42.bg.bin");
    assert_eq!(get_spr_path(&7), "sprite/7.sprite.bin");
}
