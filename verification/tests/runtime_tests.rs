use vea::compiler::assembler::assemble;
use vea::runtime::emulator::{input_byte, Emulator};
use vea::runtime::fault::Fault;
use vea::shared::cartridge::Cartridge;
use vea::shared::manifest::Manifest;
use vea::shared::registers::{LongRegisters, Registers};

const ROM_START: u64 = 61440 + 2000 + 1000;
const STACK_START: u64 = 61440 + 2000;

fn emulator_for(source: &str) -> Emulator {
    let manifest = Manifest::default("test".to_string());
    let code = match assemble(source, &manifest) {
        Ok(code) => code,
        Err(_) => panic!("the program should assemble"),
    };
    let mut cartridge = Cartridge::new(manifest);
    cartridge.entry_bytecode = code;
    Emulator::new(cartridge)
}

fn emulator_with_bytes(bytes: Vec<u8>) -> Emulator {
    let mut cartridge = Cartridge::new(Manifest::default("test".to_string()));
    cartridge.entry_bytecode = bytes;
    Emulator::new(cartridge)
}

fn run_steps(e: &mut Emulator, n: usize) {
    for _ in 0..n {
        assert_eq!(e.step(), Ok(()));
    }
}

#[test]
fn new_emulator_starts_at_rom() {
    let e = emulator_for("hlt");
    assert_eq!(e.memory.read_reg_long(LongRegisters::PC), ROM_START);
    assert_eq!(e.memory.read_reg_long(LongRegisters::SP), STACK_START);
    assert_eq!(e.memory.total_size(), ROM_START as usize + 1);
    assert!(!e.update_texture);
}

#[test]
fn mov_immediate_to_register() {
    let mut e = emulator_for("mov 5 !A");
    run_steps(&mut e, 1);
    assert_eq!(e.memory.read_reg(Registers::A), 5);
}

#[test]
fn mov_register_to_address_and_back() {
    let mut e = emulator_for("mov 42 !G1\nmov !G1 $100\nmov $100 !G2");
    run_steps(&mut e, 3);
    assert_eq!(e.memory.peek(100, 1), vec![42]);
    assert_eq!(e.memory.read_reg(Registers::G2), 42);
}

#[test]
fn add_stores_in_a_and_clears_flag() {
    let mut e = emulator_for("mov 5 !G1\nadd !G1 3");
    run_steps(&mut e, 2);
    assert_eq!(e.memory.read_reg(Registers::A), 8);
    assert_eq!(e.memory.read_reg(Registers::Z), 0);
}

#[test]
fn add_overflow_wraps_and_sets_z() {
    let mut e = emulator_for("mov 250 !G1\nadd !G1 10");
    run_steps(&mut e, 2);
    assert_eq!(e.memory.read_reg(Registers::A), 4);
    assert_eq!(e.memory.read_reg(Registers::Z), 1);
}

#[test]
fn sub_underflow_wraps_and_sets_z() {
    let mut e = emulator_for("mov 3 !G1\nsub !G1 5");
    run_steps(&mut e, 2);
    assert_eq!(e.memory.read_reg(Registers::A), 254);
    assert_eq!(e.memory.read_reg(Registers::Z), 1);
}

#[test]
fn long_arithmetic_goes_to_ll1() {
    let mut e = emulator_for("add &40 &2");
    run_steps(&mut e, 1);
    assert_eq!(e.memory.read_reg_long(LongRegisters::LL1), 42);
}

#[test]
fn mul_sets_overflow_flag() {
    let mut e = emulator_for("mul 16 16");
    run_steps(&mut e, 1);
    assert_eq!(e.memory.read_reg(Registers::A), 0);
    assert_eq!(e.memory.read_reg(Registers::Z), 1);
}

#[test]
fn div_gives_quotient_and_remainder() {
    let mut e = emulator_for("div 17 5");
    run_steps(&mut e, 1);
    assert_eq!(e.memory.read_reg(Registers::A), 3);
    assert_eq!(e.memory.read_reg(Registers::X), 2);
}

#[test]
fn div_by_zero_faults() {
    let mut e = emulator_for("div 17 0");
    assert_eq!(e.step(), Err(Fault::DivisionByZero));
}

#[test]
fn logic_operations() {
    let mut e = emulator_for("and 0b1100 0b1010\nmov !A !G1\nor 0b1100 0b1010\nmov !A !G2\nxor 0b1100 0b1010\nmov !A !G3\nnot 0b1100");
    run_steps(&mut e, 7);
    assert_eq!(e.memory.read_reg(Registers::G1), 0b1000);
    assert_eq!(e.memory.read_reg(Registers::G2), 0b1110);
    assert_eq!(e.memory.read_reg(Registers::G3), 0b0110);
    assert_eq!(e.memory.read_reg(Registers::A), 0b1111_0011);
}

#[test]
fn shifts_and_shift_overflow() {
    let mut e = emulator_for("shl 1 3\nmov !A !G1\nshr 0x80 7");
    run_steps(&mut e, 3);
    assert_eq!(e.memory.read_reg(Registers::G1), 8);
    assert_eq!(e.memory.read_reg(Registers::A), 1);
    let mut bad = emulator_for("shl 1 8");
    assert_eq!(bad.step(), Err(Fault::ShiftOverflow));
}

#[test]
fn trunc_keeps_low_byte_and_ext_widens() {
    let mut e = emulator_for("trunc &0x1234 !G1\next !G1 ?GP1");
    run_steps(&mut e, 2);
    assert_eq!(e.memory.read_reg(Registers::G1), 0x34);
    assert_eq!(e.memory.read_reg_long(LongRegisters::GP1), 0x34);
}

#[test]
fn push_then_pop_restores_value() {
    let mut e = emulator_for("mov 7 !A\npush !A\nmov 0 !A\npop");
    run_steps(&mut e, 4);
    assert_eq!(e.memory.read_reg(Registers::A), 7);
    assert_eq!(e.memory.read_reg_long(LongRegisters::SP), STACK_START);
}

#[test]
fn pop_below_the_stack_reads_ram() {
    let mut e = emulator_for("mov 9 $63439
pop");
    run_steps(&mut e, 2);
    assert_eq!(e.memory.read_reg(Registers::A), 9);
    assert_eq!(e.memory.read_reg_long(LongRegisters::SP), STACK_START - 1);
}

#[test]
fn pop_at_address_zero_underflows() {
    let mut e = emulator_for("mov &0 ?SP
pop");
    run_steps(&mut e, 1);
    assert_eq!(e.step(), Err(Fault::StackUnderflow));
    let mut r = emulator_for("mov &7 ?SP
ret");
    run_steps(&mut r, 1);
    assert_eq!(r.step(), Err(Fault::StackUnderflow));
}

#[test]
fn push_past_the_stack_section_writes_on() {
    let mut e = emulator_for("mov &100 ?SP
push 5
push 6");
    run_steps(&mut e, 3);
    assert_eq!(e.memory.peek(100, 2), vec![5, 6]);
    assert_eq!(e.memory.read_reg_long(LongRegisters::SP), 102);
}

#[test]
fn push64_then_pop64_anywhere() {
    let mut e = emulator_for("hlt");
    e.memory.write_reg_long(LongRegisters::SP, 5);
    e.memory.push64(0x0102_0304_0506_0708);
    assert_eq!(e.memory.peek(5, 8), vec![1, 2, 3, 4, 5, 6, 7, 8]);
    assert_eq!(e.memory.pop64(), 0x0102_0304_0506_0708);
    assert_eq!(e.memory.read_reg_long(LongRegisters::SP), 5);
}

#[test]
fn call_and_ret_come_back() {
    let mut e = emulator_for("call $f\nhlt\nf:\nmov 1 !G1\nret");
    run_steps(&mut e, 1);
    assert_eq!(e.memory.read_reg_long(LongRegisters::SP), STACK_START + 8);
    run_steps(&mut e, 2);
    assert_eq!(e.memory.read_reg(Registers::G1), 1);
    // `call $f` takes one opcode byte and nine operand bytes.
    assert_eq!(e.memory.read_reg_long(LongRegisters::PC), ROM_START + 10);
    assert_eq!(e.memory.read_reg_long(LongRegisters::SP), STACK_START);
}

#[test]
fn jmp_moves_pc_to_label() {
    let mut e = emulator_for("jmp $end\nmov 1 !G1\nend:\nhlt");
    run_steps(&mut e, 1);
    // jmp (10 bytes) + mov 1 !G1 (5 bytes)
    assert_eq!(e.memory.read_reg_long(LongRegisters::PC), ROM_START + 15);
}

#[test]
fn jz_jumps_on_zero_and_jnz_does_not() {
    let mut e = emulator_for("mov 0 !G1\njz !G1 $skip\nmov 9 !G2\nskip:\njnz !G1 $end\nmov 3 !G3\nend:\nhlt");
    run_steps(&mut e, 4);
    assert_eq!(e.memory.read_reg(Registers::G2), 0);
    assert_eq!(e.memory.read_reg(Registers::G3), 3);
}

#[test]
fn hlt_keeps_the_machine_where_it_is() {
    let mut e = emulator_for("hlt");
    run_steps(&mut e, 3);
    assert_eq!(e.memory.read_reg_long(LongRegisters::PC), ROM_START);
}

#[test]
fn noop_moves_on() {
    let mut e = emulator_for("noop\nhlt");
    run_steps(&mut e, 1);
    assert_eq!(e.memory.read_reg_long(LongRegisters::PC), ROM_START + 1);
}

#[test]
fn unknown_opcode_faults() {
    let mut e = emulator_with_bytes(vec![0xFF]);
    assert_eq!(e.step(), Err(Fault::UnknownOpcode(0xFF)));
}

#[test]
fn corrupted_operand_faults() {
    // `push` followed by an operand with an unknown prefix
    let mut e = emulator_with_bytes(vec![0x50, 0x77, 0x00]);
    assert_eq!(e.step(), Err(Fault::CorruptedOperand));
}

#[test]
fn vsync_hands_input_and_frame() {
    let mut e = emulator_for("vsync\nhlt");
    assert_eq!(e.new_frame(1, 2), None);
    run_steps(&mut e, 1);
    assert!(e.update_texture);
    let frame = e.new_frame(0b1000_0001, 0b0000_0001).expect("a frame after vsync");
    assert_eq!(frame.len(), 61440 * 4);
    assert!(!e.update_texture);
    assert_eq!(e.memory.peek(STACK_START as usize - 2, 2), vec![0b1000_0001, 0b0000_0001]);
}

#[test]
fn frame_uses_palette_colors() {
    let mut e = emulator_for("mov 1 $0\nvsync");
    e.cartridge.palette = vec![0, 0, 0, 0, 10, 20, 30, 255];
    run_steps(&mut e, 2);
    let frame = e.new_frame(0, 0).unwrap();
    assert_eq!(&frame[0..8], &[10, 20, 30, 255, 0, 0, 0, 0]);
}

#[test]
fn input_byte_puts_up_highest() {
    assert_eq!(input_byte([true, false, false, false, false, false, false, false]), 0x80);
    assert_eq!(input_byte([false, false, false, false, false, false, false, true]), 0x01);
    assert_eq!(input_byte([false, false, false, false, false, true, true, false]), 0b0000_0110);
    assert_eq!(input_byte([true; 8]), 0xFF);
}

#[test]
fn put_pixel_writes_four_bytes() {
    let mut e = emulator_for("hlt");
    e.put_pixel(1, 0, 9, 8, 7);
    assert_eq!(e.memory.peek(4, 4), vec![9, 8, 7, 255]);
    e.put_pixel(0, 1, 1, 2, 3);
    assert_eq!(e.memory.peek(1024, 4), vec![1, 2, 3, 255]);
}

#[test]
fn memory_put_and_peek_wrap_around() {
    let mut e = emulator_for("hlt");
    let total = e.memory.total_size();
    e.memory.put(total - 1, &[5, 6]);
    assert_eq!(e.memory.peek(total - 1, 2), vec![5, 6]);
    assert_eq!(e.memory.peek(0, 1), vec![6]);
}

#[test]
fn indirect_address_mov() {
    let mut e = emulator_for("mov &200 ?LL1\nmov 77 [?LL1]\nmov [?LL1] !G4");
    run_steps(&mut e, 3);
    assert_eq!(e.memory.peek(200, 1), vec![77]);
    assert_eq!(e.memory.read_reg(Registers::G4), 77);
}

#[test]
fn copy_moves_a_block() {
    let mut e = emulator_for("mov 1 $10\nmov 2 $11\nmov 3 $12\ncopy 3 $10 $20");
    run_steps(&mut e, 4);
    assert_eq!(e.memory.peek(20, 3), vec![1, 2, 3]);
}

#[test]
fn longer_immediate_is_truncated_to_its_low_byte() {
    let mut e = emulator_for("trunc ^0x1FFFFFFFFFFFFFF42 !G1\ntrunc ^0x1FFFFFFFFFFFFFF42 ?GP2");
    run_steps(&mut e, 2);
    assert_eq!(e.memory.read_reg(Registers::G1), 0x42);
    assert_eq!(e.memory.read_reg_long(LongRegisters::GP2), 0xFFFF_FFFF_FFFF_FF42);
}

#[test]
fn counting_loop_from_the_docs_runs_to_ten() {
    let source = "mov 0 !G1  ; setup the counter\nloop:\nsub !G1 10\njz !A $loop_end\n\nadd !G1 1\nmov !A !G1\njmp $loop\n\nloop_end:\nhlt";
    let mut e = emulator_for(source);
    for _ in 0..200 {
        assert_eq!(e.step(), Ok(()));
    }
    assert_eq!(e.memory.read_reg(Registers::G1), 10);
    let pc = e.memory.read_reg_long(LongRegisters::PC);
    assert_eq!(e.memory.peek(pc as usize, 1), vec![0x01]);
}

#[test]
fn every_assembled_instruction_is_accepted() {
    let source = "mov 1 $0\nmov &5 ?LL1\next !A ?GP1\ntrunc ?LL1 !G2\ncopy 1 $0 [?LL1]\nadd ?LL1 $0\nshl ?LL1 2\nnot !A\npush 4\npop\njnz !A $next\nnext:\ncall $f\nhlt\nf:\nret";
    let mut e = emulator_for(source);
    for _ in 0..14 {
        assert_eq!(e.step(), Ok(()));
    }
    assert_eq!(e.memory.read_reg_long(LongRegisters::LL1), 5 << 2);
}

#[test]
fn memory_layout_is_kept_by_every_operation() {
    let mut e = emulator_with_bytes(vec![0x01, 0x02, 0x03]);
    let m = &mut e.memory;
    let total = m.total_size();
    let rom_start = m.rom_start();
    assert_eq!(m.rom_size(), 3);
    assert_eq!(total, rom_start + 3);
    m.put(total - 1, &[9, 9, 9]);
    m.push8(7);
    m.push64(0x0102_0304_0506_0708);
    assert_eq!(m.pop64(), 0x0102_0304_0506_0708);
    assert_eq!(m.pop8(), 7);
    m.write_reg(Registers::A, 1);
    m.write_reg_long(LongRegisters::GP1, 2);
    m.set_pc(rom_start);
    let _ = m.read_u8();
    m.move_pc(-1);
    let _ = m.read(2);
    assert_eq!(m.total_size(), total);
    assert_eq!(m.rom_size(), 3);
    assert_eq!(m.rom_start(), rom_start);
    assert_eq!(m.total_size(), m.rom_start() + m.rom_size());
}
