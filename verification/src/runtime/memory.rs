use vstd::prelude::*;
use crate::shared::bigendian::{be_value, be8, be_to_u64, u64_to_be_bytes, lemma_be_value_bound, lemma_pow256_8};
use crate::shared::cartridge::Cartridge;
use crate::shared::registers::{LongRegisters, Registers, register_code, long_register_code};
use crate::shared::varint::{varint_decode, varint_decode_u64};
use crate::runtime::fault::Fault;

verus! {

/// Bytes of VRAM: one palette index per pixel of the 256x240 screen.
pub const VRAM_SIZE: usize = 61440;

/// The bytes `mem[addr]`, `mem[addr + 1]`, ..., `n` of them, every address
/// taken modulo the memory size.
pub open spec fn read_wrapping(mem: Seq<u8>, addr: nat, n: nat) -> Seq<u8> {
    Seq::new(n, |i: int| mem[((addr + i) % (mem.len() as int))])
}

/// `mem` after writing `data` byte by byte from `addr` on, every address
/// taken modulo the memory size (a later byte overwrites an earlier one).
pub open spec fn write_wrapping(mem: Seq<u8>, addr: nat, data: Seq<u8>) -> Seq<u8>
    decreases data.len(),
{
    if data.len() == 0 {
        mem
    } else {
        write_wrapping(mem, addr, data.drop_last()).update(
            ((addr + data.len() - 1) % (mem.len() as int)),
            data.last(),
        )
    }
}

/// Main memory and registers, as the logic sees them.
pub struct MemoryView {
    pub mem: Seq<u8>,
    pub regs: Seq<u8>,
    pub lregs: Seq<u64>,
    pub ram_size: nat,
    pub stack_size: nat,
    pub rom_size: nat,
}

impl MemoryView {
    pub open spec fn wf(self) -> bool {
        &&& self.mem.len() == VRAM_SIZE + self.ram_size + self.stack_size + self.rom_size
        &&& self.mem.len() <= usize::MAX
        &&& self.regs.len() == 9
        &&& self.lregs.len() == 7
    }

    /// Both memories have the same size and RAM, stack and ROM of the same
    /// sizes: one is the other after writes and register changes.
    pub open spec fn same_layout(self, other: MemoryView) -> bool {
        &&& self.mem.len() == other.mem.len()
        &&& self.ram_size == other.ram_size
        &&& self.stack_size == other.stack_size
        &&& self.rom_size == other.rom_size
    }

    pub open spec fn ram_start(self) -> nat {
        VRAM_SIZE as nat
    }

    pub open spec fn stack_start(self) -> nat {
        (VRAM_SIZE + self.ram_size) as nat
    }

    pub open spec fn stack_end(self) -> nat {
        (VRAM_SIZE + self.ram_size + self.stack_size) as nat
    }

    pub open spec fn rom_start(self) -> nat {
        self.stack_end()
    }

    pub open spec fn pc(self) -> nat {
        self.lregs[0] as nat
    }

    pub open spec fn sp(self) -> nat {
        self.lregs[6] as nat
    }

    pub open spec fn reg(self, r: Registers) -> u8 {
        self.regs[register_code(r) as int]
    }

    pub open spec fn lreg(self, r: LongRegisters) -> u64 {
        self.lregs[long_register_code(r) as int]
    }

    pub open spec fn byte_at(self, addr: nat) -> u8 {
        self.mem[(addr % (self.mem.len() as nat)) as int]
    }

    pub open spec fn read(self, addr: nat, n: nat) -> Seq<u8> {
        read_wrapping(self.mem, addr, n)
    }

    /// The 64-bit value stored big-endian at `addr`.
    pub open spec fn read_u64_at(self, addr: nat) -> u64 {
        be_value(self.read(addr, 8)) as u64
    }

    pub open spec fn write(self, addr: nat, data: Seq<u8>) -> MemoryView {
        MemoryView { mem: write_wrapping(self.mem, addr, data), ..self }
    }

    pub open spec fn with_reg(self, r: Registers, v: u8) -> MemoryView {
        MemoryView { regs: self.regs.update(register_code(r) as int, v), ..self }
    }

    pub open spec fn with_lreg(self, r: LongRegisters, v: u64) -> MemoryView {
        MemoryView { lregs: self.lregs.update(long_register_code(r) as int, v), ..self }
    }

    pub open spec fn with_pc(self, pc: nat) -> MemoryView {
        self.with_lreg(LongRegisters::PC, pc as u64)
    }

    /// Bytes of the varint at `addr`, scanning from its byte `i` on: the
    /// index of the first byte without the continuation bit, plus one.
    /// Ten bytes all carrying the bit are a corrupted program.
    pub open spec fn varint_scan(self, addr: nat, i: nat) -> Result<nat, Fault>
        decreases 10 - i,
    {
        if i >= 10 {
            Err(Fault::CorruptedOperand)
        } else if addr + i + 1 > usize::MAX {
            Err(Fault::OutOfRange)
        } else if self.byte_at(addr + i) < 128 {
            Ok(i + 1)
        } else if i == 9 {
            Err(Fault::CorruptedOperand)
        } else {
            self.varint_scan(addr, i + 1)
        }
    }

    /// The varint at the program counter: its value and the program counter
    /// after it.
    pub open spec fn varint_at_pc(self) -> Result<(u64, nat), Fault> {
        match self.varint_scan(self.pc(), 0) {
            Err(f) => Err(f),
            Ok(k) => match varint_decode(self.read(self.pc(), k)) {
                Ok((v, _)) => Ok((v, self.pc() + k)),
                Err(_) => Err(Fault::CorruptedOperand),
            },
        }
    }

    /// The big-endian number stored after a varint length at the program
    /// counter: its bytes and the program counter after it.
    pub open spec fn long_bytes_at_pc(self) -> Result<(Seq<u8>, nat), Fault> {
        match self.varint_at_pc() {
            Err(f) => Err(f),
            Ok((len, after)) => if after + len > usize::MAX {
                Err(Fault::OutOfRange)
            } else {
                Ok((self.read(after, len as nat), (after + len) as nat))
            },
        }
    }
}

/// Setting the program counter to its own value changes nothing.
pub proof fn lemma_with_pc_same(m: MemoryView)
    requires
        m.wf(),
    ensures
        m.with_pc(m.pc()) == m,
{
    assert(m.lregs.update(0, m.pc() as u64) =~= m.lregs);
}

/// Of two settings of the program counter, the later one wins.
pub proof fn lemma_with_pc_twice(m: MemoryView, a: nat, b: nat)
    requires
        m.wf(),
    ensures
        m.with_pc(a).with_pc(b) == m.with_pc(b),
{
    assert(m.lregs.update(0, a as u64).update(0, b as u64) =~= m.lregs.update(0, b as u64));
}

/// `write_wrapping` leaves the length alone.
pub proof fn lemma_write_wrapping_len(mem: Seq<u8>, addr: nat, data: Seq<u8>)
    requires
        mem.len() > 0,
    ensures
        write_wrapping(mem, addr, data).len() == mem.len(),
    decreases data.len(),
{
    if data.len() > 0 {
        lemma_write_wrapping_len(mem, addr, data.drop_last());
    }
}

/// Two offsets below the memory size land on different cells.
pub proof fn lemma_mod_distinct(addr: int, i: int, j: int, m: int)
    requires
        0 <= addr,
        0 <= i < j < m,
    ensures
        (addr + i) % m != (addr + j) % m,
{
    let a = addr + i;
    let b = addr + j;
    let mi = m;
    vstd::arithmetic::div_mod::lemma_fundamental_div_mod(a, mi);
    vstd::arithmetic::div_mod::lemma_fundamental_div_mod(b, mi);
    if a % mi == b % mi {
        let qa = a / mi;
        let qb = b / mi;
        assert(b - a == (qb - qa) * mi) by (nonlinear_arith)
            requires a == mi * qa + a % mi, b == mi * qb + b % mi, a % mi == b % mi;
        assert(0 < b - a < mi);
        assert(false) by (nonlinear_arith)
            requires b - a == (qb - qa) * mi, 0 < b - a < mi, mi > 0;
    }
}

/// After a write of at most the memory size, the written window reads back
/// the data.
pub proof fn lemma_write_then_read(mem: Seq<u8>, addr: nat, data: Seq<u8>)
    requires
        mem.len() > 0,
        data.len() <= mem.len(),
    ensures
        read_wrapping(write_wrapping(mem, addr, data), addr, data.len()) == data,
    decreases data.len(),
{
    lemma_write_wrapping_len(mem, addr, data);
    if data.len() > 0 {
        let d0 = data.drop_last();
        lemma_write_then_read(mem, addr, d0);
        lemma_write_wrapping_len(mem, addr, d0);
        let n = data.len();
        let m = mem.len() as int;
        let last = (addr + n - 1) % m;
        let w0 = write_wrapping(mem, addr, d0);
        let w = write_wrapping(mem, addr, data);
        assert(w == w0.update(last, data.last()));
        assert forall|i: int| 0 <= i < n implies #[trigger] read_wrapping(w, addr, n)[i] == data[i] by {
            if i < n - 1 {
                lemma_mod_distinct(addr as int, i, n - 1, m);
                assert(read_wrapping(w0, addr, d0.len())[i] == d0[i]);
            }
        }
        assert(read_wrapping(w, addr, n) =~= data);
    }
}

/// The eight-byte value written at `addr` reads back.
pub proof fn lemma_write_u64_then_read(mem: Seq<u8>, addr: nat, v: u64)
    requires
        mem.len() >= 8,
    ensures
        be_value(read_wrapping(write_wrapping(mem, addr, be8(v)), addr, 8)) as u64 == v,
{
    crate::shared::bigendian::lemma_be_value_of_bytes(v as nat, 8);
    lemma_pow256_8();
    lemma_write_then_read(mem, addr, be8(v));
}

/// Popping eight bytes gives back the value just pushed, wherever the stack
/// pointer stands: the memory after `push64` (as its contract states it)
/// holds the value big-endian below the new stack pointer, which `pop64`
/// reads, and `pop64` moves the pointer back where it was.
pub proof fn lemma_push64_then_pop64(m: MemoryView, v: u64)
    requires
        m.wf(),
        m.sp() + 8 <= usize::MAX,
    ensures
        ({
            let pushed = m.write(m.sp(), be8(v)).with_lreg(LongRegisters::SP, (m.sp() + 8) as u64);
            &&& pushed.wf()
            &&& 8 <= pushed.sp() <= usize::MAX
            &&& pushed.read_u64_at((pushed.sp() - 8) as nat) == v
            &&& pushed.with_lreg(LongRegisters::SP, (pushed.sp() - 8) as u64).sp() == m.sp()
        }),
{
    lemma_write_wrapping_len(m.mem, m.sp(), be8(v));
    lemma_write_u64_then_read(m.mem, m.sp(), v);
}

/// One change a memory operation makes: bytes written from an address
/// (wrapping around), or an 8-bit or 64-bit register set. Every operation
/// of `Memory` changes its view by a sequence of these: `put` and the
/// pushes write, and the rest set registers (the program counter and the
/// stack pointer among them).
pub enum MemoryChange {
    Write(nat, Seq<u8>),
    Register(Registers, u8),
    LongRegister(LongRegisters, u64),
}

/// The memory after one change.
pub open spec fn apply_change(m: MemoryView, c: MemoryChange) -> MemoryView {
    match c {
        MemoryChange::Write(addr, data) => m.write(addr, data),
        MemoryChange::Register(r, v) => m.with_reg(r, v),
        MemoryChange::LongRegister(r, v) => m.with_lreg(r, v),
    }
}

/// The memory after changes made one after another.
pub open spec fn apply_changes(m: MemoryView, cs: Seq<MemoryChange>) -> MemoryView
    decreases cs.len(),
{
    if cs.len() == 0 {
        m
    } else {
        apply_change(apply_changes(m, cs.drop_last()), cs.last())
    }
}

/// Memory neither grows nor shrinks: after any sequence of writes and
/// register changes, the memory size and the sizes of RAM, stack and ROM
/// are those it started with, and it stays well formed.
pub proof fn lemma_changes_keep_layout(m: MemoryView, cs: Seq<MemoryChange>)
    requires
        m.wf(),
    ensures
        apply_changes(m, cs).wf(),
        apply_changes(m, cs).mem.len() == m.mem.len(),
        apply_changes(m, cs).ram_size == m.ram_size,
        apply_changes(m, cs).stack_size == m.stack_size,
        apply_changes(m, cs).rom_size == m.rom_size,
    decreases cs.len(),
{
    if cs.len() > 0 {
        lemma_changes_keep_layout(m, cs.drop_last());
        let before = apply_changes(m, cs.drop_last());
        match cs.last() {
            MemoryChange::Write(addr, data) => {
                lemma_write_wrapping_len(before.mem, addr, data);
            },
            _ => {},
        }
    }
}

/// Each memory of `run` is the one before it after an operation that kept
/// the layout.
pub open spec fn layout_kept_stepwise(run: Seq<MemoryView>) -> bool
    decreases run.len(),
{
    run.len() <= 1 || (run.last().same_layout(run[run.len() - 2]) && layout_kept_stepwise(run.drop_last()))
}

/// Memory never grows or shrinks: along a run of operations each of which
/// keeps the layout (as every mutating operation of `Memory`, and a step of
/// the emulator, states), the last memory has the size and the RAM, stack
/// and ROM sizes of the first.
pub proof fn lemma_layout_kept_along(run: Seq<MemoryView>)
    requires
        run.len() > 0,
        layout_kept_stepwise(run),
    ensures
        run.last().same_layout(run[0]),
    decreases run.len(),
{
    if run.len() > 1 {
        lemma_layout_kept_along(run.drop_last());
        assert(run.drop_last().last() == run[run.len() - 2]);
        assert(run.drop_last()[0] == run[0]);
    }
}

/// Memory laid out for a program keeps that layout through any run of
/// operations: the ROM keeps the program's size and ends where memory
/// ends, after the VRAM, the RAM and the stack.
pub proof fn lemma_program_layout_kept(run: Seq<MemoryView>, ram_size: nat, stack_size: nat, program: Seq<u8>)
    requires
        run.len() > 0,
        run[0] == initial_memory(ram_size, stack_size, program),
        layout_kept_stepwise(run),
    ensures
        run.last().rom_size == program.len(),
        run.last().ram_size == ram_size,
        run.last().stack_size == stack_size,
        run.last().mem.len() == run.last().rom_start() + run.last().rom_size,
        run.last().mem.len() == VRAM_SIZE + ram_size + stack_size + program.len(),
{
    lemma_layout_kept_along(run);
}

/// The register file: nine 8-bit and seven 64-bit registers, indexed by
/// their bytecodes.
pub struct RegisterMemory {
    pub registers: [u8; 9],
    pub long_registers: [u64; 7],
}

impl RegisterMemory {
    pub fn new() -> (r: RegisterMemory)
        ensures
            r.registers@ == Seq::new(9, |i: int| 0u8),
            r.long_registers@ == Seq::new(7, |i: int| 0u64),
    {
        let r = RegisterMemory { registers: [0u8; 9], long_registers: [0u64; 7] };
        proof {
            assert(r.registers@ =~= Seq::new(9, |i: int| 0u8));
            assert(r.long_registers@ =~= Seq::new(7, |i: int| 0u64));
        }
        r
    }
}

/// The console's main memory, split logically into VRAM, RAM, stack and
/// ROM, together with its registers. Addresses wrap around the end.
pub struct Memory {
    memory: Vec<u8>,
    ram_size: usize,
    stack_size: usize,
    rom_size: usize,
    registers: RegisterMemory,
}

impl View for Memory {
    type V = MemoryView;

    closed spec fn view(&self) -> MemoryView {
        MemoryView {
            mem: self.memory@,
            regs: self.registers.registers@,
            lregs: self.registers.long_registers@,
            ram_size: self.ram_size as nat,
            stack_size: self.stack_size as nat,
            rom_size: self.rom_size as nat,
        }
    }
}

/// The memory a cartridge starts with: zeros everywhere but the ROM, which
/// holds the entry bytecode; all registers zero but the program counter
/// (start of ROM) and the stack pointer (start of the stack).
pub open spec fn initial_memory(ram_size: nat, stack_size: nat, program: Seq<u8>) -> MemoryView {
    let rom_start = VRAM_SIZE + ram_size + stack_size;
    MemoryView {
        mem: Seq::new((rom_start + program.len()) as nat, |i: int| if i < rom_start { 0u8 } else { program[i - rom_start] }),
        regs: Seq::new(9, |i: int| 0u8),
        lregs: Seq::new(7, |i: int| if i == 0 { rom_start as u64 } else if i == 6 { (VRAM_SIZE + ram_size) as u64 } else { 0u64 }),
        ram_size,
        stack_size,
        rom_size: program.len(),
    }
}

impl Memory {
    pub open spec fn wf(&self) -> bool {
        self@.wf()
    }

    /// Lays out memory for `cartridge`: the RAM and stack sizes of its
    /// manifest, and a ROM holding its entry bytecode.
    pub fn new(cartridge: &Cartridge) -> (m: Memory)
        requires
            VRAM_SIZE + cartridge.manifest.settings.ram_size + cartridge.manifest.settings.stack_size
                + cartridge.entry_bytecode@.len() <= usize::MAX,
            VRAM_SIZE + cartridge.manifest.settings.ram_size + cartridge.manifest.settings.stack_size <= u64::MAX,
        ensures
            m.wf(),
            m@ == initial_memory(
                cartridge.manifest.settings.ram_size as nat,
                cartridge.manifest.settings.stack_size as nat,
                cartridge.entry_bytecode@,
            ),
    {
        let ram_size = cartridge.manifest.settings.ram_size as usize;
        let stack_size = cartridge.manifest.settings.stack_size as usize;
        let program = &cartridge.entry_bytecode;
        let rom_size = program.len();
        let rom_start = VRAM_SIZE + ram_size + stack_size;
        let total = rom_start + rom_size;
        let mut memory: Vec<u8> = Vec::with_capacity(total);
        let mut i: usize = 0;
        while i < total
            invariant
                rom_start == VRAM_SIZE + ram_size + stack_size,
                total == rom_start + rom_size,
                rom_size == program@.len(),
                i <= total,
                memory@.len() == i,
                forall|k: int| 0 <= k < i ==> memory@[k] == if k < rom_start { 0u8 } else { program@[k - rom_start] },
            decreases total - i,
        {
            if i < rom_start {
                memory.push(0u8);
            } else {
                memory.push(program[i - rom_start]);
            }
            i = i + 1;
        }
        let mut registers = RegisterMemory::new();
        registers.long_registers[0] = rom_start as u64;
        registers.long_registers[6] = (VRAM_SIZE + ram_size) as u64;
        let m = Memory { memory, ram_size, stack_size, rom_size, registers };
        proof {
            let init = initial_memory(
                cartridge.manifest.settings.ram_size as nat,
                cartridge.manifest.settings.stack_size as nat,
                cartridge.entry_bytecode@,
            );
            assert(m@.mem =~= init.mem);
            assert(m@.regs =~= init.regs);
            assert(m@.lregs =~= init.lregs);
        }
        m
    }

    pub fn vram(&self) -> (r: Vec<u8>)
        requires
            self.wf(),
        ensures
            r@ == self@.mem.subrange(0, VRAM_SIZE as int),
    {
        let mut r: Vec<u8> = Vec::with_capacity(VRAM_SIZE);
        let mut i: usize = 0;
        while i < VRAM_SIZE
            invariant
                self.wf(),
                i <= VRAM_SIZE,
                r@ =~= self@.mem.subrange(0, i as int),
            decreases VRAM_SIZE - i,
        {
            r.push(self.memory[i]);
            i = i + 1;
        }
        r
    }

    pub fn vram_size() -> (r: usize)
        ensures
            r == VRAM_SIZE,
    {
        VRAM_SIZE
    }

    pub fn ram_size(&self) -> (r: usize)
        ensures
            r == self@.ram_size,
    {
        self.ram_size
    }

    pub fn stack_size(&self) -> (r: usize)
        ensures
            r == self@.stack_size,
    {
        self.stack_size
    }

    pub fn rom_size(&self) -> (r: usize)
        ensures
            r == self@.rom_size,
    {
        self.rom_size
    }

    pub fn vram_start() -> (r: usize)
        ensures
            r == 0,
    {
        0
    }

    pub fn ram_start() -> (r: usize)
        ensures
            r == VRAM_SIZE,
    {
        VRAM_SIZE
    }

    pub fn stack_start(&self) -> (r: usize)
        requires
            self.wf(),
        ensures
            r == self@.stack_start(),
    {
        VRAM_SIZE + self.ram_size
    }

    /// Address of the byte of buttons held this frame: the second-to-last
    /// byte of RAM.
    pub fn input_held(&self) -> (r: usize)
        requires
            self.wf(),
        ensures
            r == self@.stack_start() - 2,
    {
        VRAM_SIZE + self.ram_size - 2
    }

    /// Address of the byte of buttons pressed this frame: the last byte of RAM.
    pub fn input_pressed(&self) -> (r: usize)
        requires
            self.wf(),
        ensures
            r == self@.stack_start() - 1,
    {
        VRAM_SIZE + self.ram_size - 1
    }

    pub fn rom_start(&self) -> (r: usize)
        requires
            self.wf(),
        ensures
            r == self@.rom_start(),
    {
        VRAM_SIZE + self.ram_size + self.stack_size
    }

    pub fn total_size(&self) -> (r: usize)
        ensures
            r == self@.mem.len(),
    {
        self.memory.len()
    }

    /// Writes `data` from `addr` on, wrapping around the end of memory.
    pub fn put(&mut self, addr: usize, data: &[u8])
        requires
            old(self).wf(),
            addr + data@.len() <= usize::MAX,
        ensures
            final(self).wf(),
            final(self)@.same_layout(old(self)@),
            final(self)@ == old(self)@.write(addr as nat, data@),
    {
        let len = self.memory.len();
        let mut i: usize = 0;
        while i < data.len()
            invariant
                self.wf(),
                old(self).wf(),
                len == self@.mem.len(),
                addr + data@.len() <= usize::MAX,
                i <= data@.len(),
                self@ == old(self)@.write(addr as nat, data@.take(i as int)),
            decreases data@.len() - i,
        {
            let idx = (addr + i) % len;
            self.memory.set(idx, data[i]);
            proof {
                let t = data@.take(i + 1);
                assert(t.drop_last() =~= data@.take(i as int));
                assert(t.last() == data@[i as int]);
                assert(t.len() == i + 1);
                lemma_write_wrapping_len(old(self)@.mem, addr as nat, data@.take(i as int));
                assert(self@.mem =~= write_wrapping(old(self)@.mem, addr as nat, t));
            }
            i = i + 1;
        }
        proof {
            assert(data@.take(i as int) =~= data@);
        }
    }

    /// The `amount` bytes from `addr` on, wrapping around the end of memory.
    pub fn peek(&self, addr: usize, amount: usize) -> (r: Vec<u8>)
        requires
            self.wf(),
            addr + amount <= usize::MAX,
        ensures
            r@ == self@.read(addr as nat, amount as nat),
    {
        let len = self.memory.len();
        let mut r: Vec<u8> = Vec::with_capacity(amount);
        let mut i: usize = 0;
        while i < amount
            invariant
                self.wf(),
                len == self@.mem.len(),
                addr + amount <= usize::MAX,
                i <= amount,
                r@ =~= self@.read(addr as nat, i as nat),
            decreases amount - i,
        {
            r.push(self.memory[(addr + i) % len]);
            i = i + 1;
        }
        r
    }

    /// Reads `amount` bytes at the program counter and moves it past them.
    pub fn read(&mut self, amount: usize) -> (r: Vec<u8>)
        requires
            old(self).wf(),
            old(self)@.pc() + amount <= usize::MAX,
        ensures
            final(self).wf(),
            final(self)@.same_layout(old(self)@),
            r@ == old(self)@.read(old(self)@.pc(), amount as nat),
            final(self)@ == old(self)@.with_pc((old(self)@.pc() + amount) as nat),
    {
        let addr = self.read_pc();
        self.set_pc(addr + amount);
        self.peek(addr, amount)
    }

    pub fn read_u8(&mut self) -> (r: u8)
        requires
            old(self).wf(),
            old(self)@.pc() + 1 <= usize::MAX,
        ensures
            final(self).wf(),
            final(self)@.same_layout(old(self)@),
            r == old(self)@.byte_at(old(self)@.pc()),
            final(self)@ == old(self)@.with_pc(old(self)@.pc() + 1),
    {
        let v = self.read(1);
        v[0]
    }

    /// Reads a big-endian 64-bit value at the program counter.
    pub fn read_u64(&mut self) -> (r: u64)
        requires
            old(self).wf(),
            old(self)@.pc() + 8 <= usize::MAX,
        ensures
            final(self).wf(),
            final(self)@.same_layout(old(self)@),
            r == old(self)@.read_u64_at(old(self)@.pc()),
            final(self)@ == old(self)@.with_pc(old(self)@.pc() + 8),
    {
        let v = self.read(8);
        be_to_u64(v.as_slice())
    }

    /// Reads a varint at the program counter, as the bytecode stores the
    /// length of a `LongerImmediate`.
    fn read_varint(&mut self) -> (r: Result<u64, Fault>)
        requires
            old(self).wf(),
            old(self)@.pc() <= usize::MAX,
        ensures
            final(self).wf(),
            final(self)@.same_layout(old(self)@),
            r is Ok ==> old(self)@.varint_at_pc() == Ok::<(u64, nat), Fault>((r->Ok_0, final(self)@.pc())),
            r is Ok ==> final(self)@ == old(self)@.with_pc(final(self)@.pc()),
            r is Ok ==> final(self)@.pc() <= usize::MAX,
            r is Err ==> old(self)@.varint_at_pc() == Err::<(u64, nat), Fault>(r->Err_0),
    {
        let ghost m0 = self@;
        let start = self.read_pc();
        proof {
            lemma_with_pc_same(m0);
        }
        let mut buf: Vec<u8> = Vec::new();
        let mut i: usize = 0;
        loop
            invariant
                self.wf(),
                m0.wf(),
                m0 == old(self)@,
                start == m0.pc(),
                i < 10,
                buf@ == m0.read(start as nat, i as nat),
                m0.varint_scan(start as nat, 0) == m0.varint_scan(start as nat, i as nat),
                self@ == m0.with_pc((start + i) as nat),
            decreases 10 - i,
        {
            if i >= usize::MAX - start {
                proof {
                    assert(m0.varint_scan(start as nat, i as nat) == Err::<nat, Fault>(Fault::OutOfRange));
                }
                return Err(Fault::OutOfRange);
            }
            let byte = self.read_u8();
            proof {
                lemma_with_pc_twice(m0, (start + i) as nat, (start + i + 1) as nat);
            }
            buf.push(byte);
            proof {
                assert(buf@ =~= m0.read(start as nat, (i + 1) as nat));
            }
            if byte < 128 {
                proof {
                    assert(m0.varint_scan(start as nat, i as nat) == Ok::<nat, Fault>((i + 1) as nat));
                }
                let decoded = varint_decode_u64(buf.as_slice());
                proof {
                    assert(self@.pc() == start + i + 1);
                }
                return match decoded {
                    Ok(d) => Ok(d.value),
                    Err(_) => Err(Fault::CorruptedOperand),
                };
            }
            if i == 9 {
                return Err(Fault::CorruptedOperand);
            }
            i = i + 1;
        }
    }

    /// Reads a `LongerImmediate` payload at the program counter: a varint
    /// length, then that many big-endian bytes.
    pub fn read_biguint(&mut self) -> (r: Result<Vec<u8>, Fault>)
        requires
            old(self).wf(),
            old(self)@.pc() <= usize::MAX,
        ensures
            final(self).wf(),
            final(self)@.same_layout(old(self)@),
            r is Ok ==> old(self)@.long_bytes_at_pc() == Ok::<(Seq<u8>, nat), Fault>((r->Ok_0@, final(self)@.pc())),
            r is Ok ==> final(self)@ == old(self)@.with_pc(final(self)@.pc()),
            r is Err ==> old(self)@.long_bytes_at_pc() == Err::<(Seq<u8>, nat), Fault>(r->Err_0),
    {
        let len = match self.read_varint() {
            Ok(v) => v,
            Err(f) => {
                return Err(f);
            },
        };
        let after = self.read_pc();
        if len as u128 > (usize::MAX - after) as u128 {
            return Err(Fault::OutOfRange);
        }
        let ghost m1 = self@;
        let bytes = self.read(len as usize);
        proof {
            lemma_with_pc_twice(old(self)@, m1.pc(), (after + len) as nat);
        }
        Ok(bytes)
    }

    pub fn set_pc(&mut self, new_pc: usize)
        requires
            old(self).wf(),
        ensures
            final(self).wf(),
            final(self)@.same_layout(old(self)@),
            final(self)@ == old(self)@.with_pc(new_pc as nat),
    {
        self.write_reg_long(LongRegisters::PC, new_pc as u64);
    }

    pub fn read_pc(&self) -> (r: usize)
        requires
            self.wf(),
            self@.pc() <= usize::MAX,
        ensures
            r == self@.pc(),
    {
        self.read_reg_long(LongRegisters::PC) as usize
    }

    /// Moves the program counter by `offset`.
    pub fn move_pc(&mut self, offset: i32)
        requires
            old(self).wf(),
            old(self)@.pc() <= usize::MAX,
            0 <= old(self)@.pc() + offset <= usize::MAX,
        ensures
            final(self).wf(),
            final(self)@.same_layout(old(self)@),
            final(self)@ == old(self)@.with_pc((old(self)@.pc() + offset) as nat),
    {
        let pc = self.read_pc();
        let new_pc = if offset >= 0 {
            pc + offset as usize
        } else {
            pc - ((0 - (offset as i64)) as usize)
        };
        self.set_pc(new_pc);
    }

    /// Pushes a byte onto the stack.
    pub fn push8(&mut self, value: u8)
        requires
            old(self).wf(),
            old(self)@.sp() + 1 <= usize::MAX,
        ensures
            final(self).wf(),
            final(self)@.same_layout(old(self)@),
            final(self)@ == old(self)@.write(old(self)@.sp(), seq![value]).with_lreg(LongRegisters::SP, (old(self)@.sp() + 1) as u64),
    {
        let sp = self.read_reg_long(LongRegisters::SP) as usize;
        let cell = [value];
        proof {
            assert(cell@ =~= seq![value]);
        }
        self.put(sp, &cell);
        self.write_reg_long(LongRegisters::SP, (sp + 1) as u64);
    }

    /// Pops a byte off the stack.
    pub fn pop8(&mut self) -> (r: u8)
        requires
            old(self).wf(),
            1 <= old(self)@.sp() <= usize::MAX,
        ensures
            final(self).wf(),
            final(self)@.same_layout(old(self)@),
            r == old(self)@.byte_at((old(self)@.sp() - 1) as nat),
            final(self)@ == old(self)@.with_lreg(LongRegisters::SP, (old(self)@.sp() - 1) as u64),
    {
        let sp = self.read_reg_long(LongRegisters::SP) as usize;
        let data = self.peek(sp - 1, 1);
        self.write_reg_long(LongRegisters::SP, (sp - 1) as u64);
        data[0]
    }

    /// Pushes a 64-bit value onto the stack, big-endian.
    pub fn push64(&mut self, value: u64)
        requires
            old(self).wf(),
            old(self)@.sp() + 8 <= usize::MAX,
        ensures
            final(self).wf(),
            final(self)@.same_layout(old(self)@),
            final(self)@ == old(self)@.write(old(self)@.sp(), be8(value)).with_lreg(LongRegisters::SP, (old(self)@.sp() + 8) as u64),
    {
        let sp = self.read_reg_long(LongRegisters::SP) as usize;
        let bytes = u64_to_be_bytes(value);
        self.put(sp, bytes.as_slice());
        self.write_reg_long(LongRegisters::SP, (sp + 8) as u64);
    }

    /// Pops a big-endian 64-bit value off the stack.
    pub fn pop64(&mut self) -> (r: u64)
        requires
            old(self).wf(),
            8 <= old(self)@.sp() <= usize::MAX,
        ensures
            final(self).wf(),
            final(self)@.same_layout(old(self)@),
            r == old(self)@.read_u64_at((old(self)@.sp() - 8) as nat),
            final(self)@ == old(self)@.with_lreg(LongRegisters::SP, (old(self)@.sp() - 8) as u64),
    {
        let sp = self.read_reg_long(LongRegisters::SP) as usize - 8;
        self.write_reg_long(LongRegisters::SP, sp as u64);
        let bytes = self.peek(sp, 8);
        be_to_u64(bytes.as_slice())
    }

    pub fn write_reg(&mut self, reg: Registers, value: u8)
        requires
            old(self).wf(),
        ensures
            final(self).wf(),
            final(self)@.same_layout(old(self)@),
            final(self)@ == old(self)@.with_reg(reg, value),
    {
        let i = reg.to_bytecode() as usize;
        self.registers.registers[i] = value;
    }

    pub fn write_reg_long(&mut self, reg: LongRegisters, value: u64)
        requires
            old(self).wf(),
        ensures
            final(self).wf(),
            final(self)@.same_layout(old(self)@),
            final(self)@ == old(self)@.with_lreg(reg, value),
    {
        let i = reg.to_bytecode() as usize;
        self.registers.long_registers[i] = value;
    }

    pub fn read_reg(&self, reg: Registers) -> (r: u8)
        requires
            self.wf(),
        ensures
            r == self@.reg(reg),
    {
        self.registers.registers[reg.to_bytecode() as usize]
    }

    pub fn read_reg_long(&self, reg: LongRegisters) -> (r: u64)
        requires
            self.wf(),
        ensures
            r == self@.lreg(reg),
    {
        self.registers.long_registers[reg.to_bytecode() as usize]
    }
}

} // verus!
