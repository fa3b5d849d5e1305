use vstd::prelude::*;
use crate::runtime::emulator::{frame_rgba, Emulator};
use crate::runtime::semantics::bit8;
use crate::runtime::memory::{MemoryView, VRAM_SIZE};
use crate::flowchart::graph::push_str;
use crate::shared::format::{dec, hex_digits, hex_padded, pad_left, push_decimal, push_hex_padded, push_padded, hex_chars};
use crate::shared::registers::{LongRegisters, Registers, register_of_code, long_register_of_code, register_code, long_register_code, register_names, long_register_names};
use crate::shared::text::{chars_to_string, str_chars};

verus! {

/// Width of the emulated screen on the debugger's window (three times 256).
pub const SCREEN_W: i32 = 768;
/// Height of the emulated screen on the debugger's window (three times 240).
pub const SCREEN_H: i32 = 720;
/// Width of the column of memory panels right of the screen.
pub const RIGHT_W: i32 = 256;
/// Height of each memory panel: half the window.
pub const HALF_H: i32 = 480;
/// Height of a line of text.
pub const ROW_H: i32 = 18;
/// Approximate width of one glyph.
pub const CHAR_W: i32 = 8;
/// Bytes shown on one line of a memory panel.
pub const BYTES_ROW: usize = 8;
/// Width of the address column of a memory panel.
pub const ADDR_W: i32 = 64;
/// Width of an input toggle button.
pub const TOG_W: i32 = 54;
/// Height of an input toggle button.
pub const TOG_H: i32 = 26;
/// Gap between two input toggle buttons.
pub const TOG_GAP: i32 = 5;
/// Left edge of the first input toggle button.
pub const TOG_X0: i32 = 8;
/// Top of the input toggle buttons, from the top of the registers panel.
pub const TOG_Y_OFFSET: i32 = 160;

/// Which way the mouse wheel turned this frame.
#[derive(Debug, Clone, Copy, PartialEq, Eq, Structural)]
pub enum Wheel {
    Still,
    /// Away from the user: scrolls back.
    Up,
    /// Towards the user: scrolls on.
    Down,
}

/// What the debugger reads of the user each frame: the mouse position in
/// whole pixels, the wheel, a left click and the space bar.
#[derive(Debug, Clone, Copy)]
pub struct DebugInput {
    pub mouse_x: i32,
    pub mouse_y: i32,
    pub wheel: Wheel,
    pub left_click: bool,
    pub space_pressed: bool,
}

/// A console under the debugger: stepped by hand while paused, with
/// scrollable RAM and ROM panels, a hovered byte, and input buttons that
/// the user arms by clicking and that the next `vsync` hands to the game.
pub struct Debugger {
    pub emulator: Emulator,
    pub paused: bool,
    pub ram_scroll: usize,
    pub rom_scroll: usize,
    pub input_toggles: u8,
    pub hovered_byte: Option<usize>,
}

/// `s` scrolled three lines on (at most to `max`) or three lines back (at
/// least to 0).
pub open spec fn scroll_spec(s: nat, down: bool, max: nat) -> nat {
    if down {
        if s + 3 <= max { s + 3 } else { max }
    } else {
        if s >= 3 { (s - 3) as nat } else { 0 }
    }
}

/// The last line a panel of `size` bytes can be scrolled to.
pub open spec fn max_scroll(size: nat) -> nat {
    if size / 8 >= 1 { (size / 8 - 1) as nat } else { 0 }
}

/// The byte under the mouse in a memory panel at `(px, py)` of size
/// `pw` by `ph` that shows `region_size` bytes from `region_start` on,
/// scrolled by `scroll` lines; none where the mouse is elsewhere, or where
/// the line or address is past what the debugger's arithmetic can hold.
pub open spec fn hex_hover_spec(
    mx: int,
    my: int,
    px: int,
    py: int,
    pw: int,
    ph: int,
    region_start: nat,
    region_size: nat,
    scroll: nat,
) -> Option<nat> {
    if mx < px || mx >= px + pw || my < py + ROW_H || my >= py + ph {
        None
    } else {
        let bx = mx - px - ADDR_W;
        let col = bx / (CHAR_W * 3) as int;
        let row = (my - py - ROW_H) / ROW_H as int + scroll;
        if bx < 0 || col >= BYTES_ROW || scroll > i32::MAX || row > i32::MAX {
            None
        } else {
            let addr = region_start + row * (BYTES_ROW as int) + col;
            if addr > usize::MAX || addr >= region_start + region_size {
                None
            } else {
                Some(addr as nat)
            }
        }
    }
}

/// The byte under the mouse in a memory panel.
fn hex_hover(
    mx: i32,
    my: i32,
    px: i32,
    py: i32,
    pw: i32,
    ph: i32,
    region_start: usize,
    region_size: usize,
    scroll: usize,
) -> (r: Option<usize>)
    requires
        0 <= px,
        0 <= py,
        py + ROW_H <= i32::MAX,
        px + pw <= i32::MAX,
        py + ph <= i32::MAX,
        region_start + region_size <= usize::MAX,
    ensures
        match hex_hover_spec(mx as int, my as int, px as int, py as int, pw as int, ph as int, region_start as nat, region_size as nat, scroll as nat) {
            Some(a) => r == Some(a as usize),
            None => r is None,
        },
{
    if mx < px || mx >= px + pw {
        return None;
    }
    if my < py + ROW_H || my >= py + ph {
        return None;
    }
    let bx = mx - px - ADDR_W;
    if bx < 0 {
        return None;
    }
    let col = bx / (CHAR_W * 3);
    if col >= BYTES_ROW as i32 {
        return None;
    }
    if scroll > i32::MAX as usize {
        return None;
    }
    let lines = (my - py - ROW_H) / ROW_H;
    if lines > i32::MAX - scroll as i32 {
        return None;
    }
    let row = (lines + scroll as i32) as usize;
    let c = col as usize;
    if region_start > usize::MAX - c {
        return None;
    }
    let room = usize::MAX - region_start - c;
    if row > room / BYTES_ROW {
        proof {
            assert(row * 8 > room) by (nonlinear_arith)
                requires
                    row > room / 8,
            ;
        }
        return None;
    }
    proof {
        assert(row * 8 <= room) by (nonlinear_arith)
            requires
                row <= room / 8,
        ;
    }
    let addr = region_start + row * BYTES_ROW + c;
    if addr < region_start + region_size {
        Some(addr)
    } else {
        None
    }
}

/// Scrolls `s` three lines on (at most to `max`) or back (at least to 0).
fn scroll_val(s: usize, down: bool, max: usize) -> (r: usize)
    ensures
        r == scroll_spec(s as nat, down, max as nat),
{
    if down {
        if s <= max && max - s >= 3 {
            s + 3
        } else {
            max
        }
    } else {
        if s >= 3 {
            s - 3
        } else {
            0
        }
    }
}

/// Whether input toggle button `i` is under `(mx, my)`.
pub open spec fn toggle_contains(i: int, mx: int, my: int) -> bool {
    let tx = TOG_X0 + i * (TOG_W + TOG_GAP);
    let ty = SCREEN_H + TOG_Y_OFFSET;
    tx <= mx < tx + TOG_W && ty <= my < ty + TOG_H
}

/// The first input toggle button under `(mx, my)`, if any.
fn toggle_hit(mx: i32, my: i32) -> (r: Option<u8>)
    ensures
        match r {
            Some(i) => i < 8 && toggle_contains(i as int, mx as int, my as int)
                && forall|j: int| 0 <= j < i ==> !toggle_contains(j, mx as int, my as int),
            None => forall|j: int| 0 <= j < 8 ==> !toggle_contains(j, mx as int, my as int),
        },
{
    let ty = SCREEN_H + TOG_Y_OFFSET;
    let mut i: u8 = 0;
    while i < 8
        invariant
            i <= 8,
            ty == SCREEN_H + TOG_Y_OFFSET,
            forall|j: int| 0 <= j < i ==> !toggle_contains(j, mx as int, my as int),
        decreases 8 - i,
    {
        let k = i as i32;
        proof {
            assert(k * 59 <= 8 * 59) by (nonlinear_arith)
                requires
                    0 <= k < 8,
            ;
        }
        let tx = TOG_X0 + k * (TOG_W + TOG_GAP);
        if mx >= tx && mx < tx + TOG_W && my >= ty && my < ty + TOG_H {
            return Some(i);
        }
        i = i + 1;
    }
    None
}

/// The toggles after a click at `(mx, my)`: the bit of the button clicked
/// flipped, if a button was clicked. Button `i` stands for bit `7 - i` of
/// the input byte, whose bits are, from the highest, up, down, left,
/// right, Z, X, C and the last button.
pub open spec fn toggles_after_click(toggles: u8, mx: int, my: int) -> u8 {
    if exists|i: int| 0 <= i < 8 && toggle_contains(i, mx, my) {
        let i = choose|i: int| 0 <= i < 8 && toggle_contains(i, mx, my) && forall|j: int| 0 <= j < i ==> !toggle_contains(j, mx, my);
        toggles ^ (0x80u8 >> (i as u8))
    } else {
        toggles
    }
}

proof fn lemma_flip_bit(t: u8, i: u8, j: u8)
    by (bit_vector)
    requires
        i < 8,
        j < 8,
    ensures
        (((t ^ (0x80u8 >> i)) >> j) & 1u8 == 1u8) == (((t >> j) & 1u8 == 1u8) != (j == 7 - i)),
{
}

/// Clicking input button `i` (numbered as the buttons of the input byte:
/// up, down, left, right, Z, X, C, space) flips its bit `7 - i`, the bit
/// the game reads for that button, and leaves the other buttons alone;
/// a click on no button changes nothing.
pub proof fn lemma_click_flips_its_button(toggles: u8, mx: int, my: int, i: int, j: u8)
    requires
        0 <= i < 8,
        toggle_contains(i, mx, my),
        j < 8,
    ensures
        bit8(toggles_after_click(toggles, mx, my), j) == (bit8(toggles, j) != (j == 7 - i)),
        forall|k: int| 0 <= k < 8 && k != i ==> !toggle_contains(k, mx, my),
{
    assert forall|k: int| 0 <= k < 8 && k != i implies !toggle_contains(k, mx, my) by {
        if toggle_contains(k, mx, my) {
            assert(TOG_X0 + i * (TOG_W + TOG_GAP) <= mx < TOG_X0 + i * (TOG_W + TOG_GAP) + TOG_W);
            assert(TOG_X0 + k * (TOG_W + TOG_GAP) <= mx < TOG_X0 + k * (TOG_W + TOG_GAP) + TOG_W);
            assert(false) by (nonlinear_arith)
                requires
                    k != i,
                    TOG_X0 + i * (TOG_W + TOG_GAP) <= mx < TOG_X0 + i * (TOG_W + TOG_GAP) + TOG_W,
                    TOG_X0 + k * (TOG_W + TOG_GAP) <= mx < TOG_X0 + k * (TOG_W + TOG_GAP) + TOG_W,
                    TOG_GAP >= 0,
            ;
        }
    }
    let c = choose|c: int| 0 <= c < 8 && toggle_contains(c, mx, my) && forall|q: int| 0 <= q < c ==> !toggle_contains(q, mx, my);
    assert(toggle_contains(i, mx, my) && forall|q: int| 0 <= q < i ==> !toggle_contains(q, mx, my));
    assert(c == i);
    lemma_flip_bit(toggles, i as u8, j);
}

/// The RAM panel's region: from the start of RAM, `ram_size` bytes.
pub open spec fn ram_max_scroll(m: MemoryView) -> nat {
    max_scroll(m.ram_size)
}

/// The ROM panel's region: from the start of ROM to the end of memory.
pub open spec fn rom_max_scroll(m: MemoryView) -> nat {
    max_scroll((m.mem.len() - m.rom_start()) as nat)
}

/// The byte under the mouse: in the RAM panel (top right) or else in the ROM
/// panel (bottom right).
pub open spec fn resolve_hover_spec(m: MemoryView, ram_scroll: nat, rom_scroll: nat, mx: int, my: int) -> Option<nat> {
    match hex_hover_spec(mx, my, SCREEN_W as int, 0, RIGHT_W as int, HALF_H as int, VRAM_SIZE as nat, m.ram_size, ram_scroll) {
        Some(a) => Some(a),
        None => hex_hover_spec(
            mx,
            my,
            SCREEN_W as int,
            HALF_H as int,
            RIGHT_W as int,
            HALF_H as int,
            m.rom_start(),
            (m.mem.len() - m.rom_start()) as nat,
            rom_scroll,
        ),
    }
}

/// Whether the mouse wheel scrolls a panel: it turned, over the right
/// column, in the top (RAM) or bottom (ROM) half.
pub open spec fn wheel_over(input: DebugInput, top: bool) -> bool {
    &&& input.wheel != Wheel::Still
    &&& input.mouse_x >= SCREEN_W
    &&& if top { input.mouse_y < HALF_H } else { input.mouse_y >= HALF_H }
}

impl Debugger {
    /// The debugger's invariant: the console's memory is well formed.
    pub open spec fn wf(&self) -> bool {
        self.emulator.memory.wf()
    }

    /// A debugger on `emulator`: paused, panels at their first line, no
    /// button armed and no byte hovered.
    pub fn new(emulator: Emulator) -> (r: Debugger)
        ensures
            r.emulator == emulator,
            r.paused,
            r.ram_scroll == 0,
            r.rom_scroll == 0,
            r.input_toggles == 0,
            r.hovered_byte is None,
    {
        Debugger { emulator, paused: true, ram_scroll: 0, rom_scroll: 0, input_toggles: 0, hovered_byte: None }
    }

    /// Handles a frame of user input: scrolls the panel under the wheel,
    /// flips the button clicked, finds the hovered byte, and says whether
    /// the console should run one instruction (space while paused).
    pub fn update(&mut self, input: DebugInput) -> (step: bool)
        requires
            old(self).wf(),
        ensures
            final(self).wf(),
            final(self).emulator == old(self).emulator,
            final(self).paused == old(self).paused,
            final(self).rom_scroll == if wheel_over(input, false) {
                scroll_spec(old(self).rom_scroll as nat, input.wheel == Wheel::Down, rom_max_scroll(old(self).emulator.memory@))
            } else {
                old(self).rom_scroll as nat
            },
            final(self).ram_scroll == if wheel_over(input, true) {
                scroll_spec(old(self).ram_scroll as nat, input.wheel == Wheel::Down, ram_max_scroll(old(self).emulator.memory@))
            } else {
                old(self).ram_scroll as nat
            },
            final(self).input_toggles == if input.left_click {
                toggles_after_click(old(self).input_toggles, input.mouse_x as int, input.mouse_y as int)
            } else {
                old(self).input_toggles
            },
            match resolve_hover_spec(old(self).emulator.memory@, final(self).ram_scroll as nat, final(self).rom_scroll as nat, input.mouse_x as int, input.mouse_y as int) {
                Some(a) => final(self).hovered_byte == Some(a as usize),
                None => final(self).hovered_byte is None,
            },
            step == (old(self).paused && input.space_pressed),
    {
        let moving = input.wheel != Wheel::Still;
        let down = input.wheel == Wheel::Down;
        let rom_start = self.emulator.memory.rom_start();
        let total = self.emulator.memory.total_size();
        if input.mouse_x >= SCREEN_W && input.mouse_y >= HALF_H && moving {
            let rom_rows = (total - rom_start) / BYTES_ROW;
            let max = if rom_rows >= 1 { rom_rows - 1 } else { 0 };
            self.rom_scroll = scroll_val(self.rom_scroll, down, max);
        }
        if input.mouse_x >= SCREEN_W && input.mouse_y < HALF_H && moving {
            let ram_rows = self.emulator.memory.ram_size() / BYTES_ROW;
            let max = if ram_rows >= 1 { ram_rows - 1 } else { 0 };
            self.ram_scroll = scroll_val(self.ram_scroll, down, max);
        }
        if input.left_click {
            match toggle_hit(input.mouse_x, input.mouse_y) {
                Some(i) => {
                    proof {
                        let c = choose|k: int| 0 <= k < 8 && toggle_contains(k, input.mouse_x as int, input.mouse_y as int)
                            && forall|j: int| 0 <= j < k ==> !toggle_contains(j, input.mouse_x as int, input.mouse_y as int);
                        assert(c == i as int) by {
                            if c < i as int {
                                assert(!toggle_contains(c, input.mouse_x as int, input.mouse_y as int));
                            } else if c > i as int {
                                assert(!toggle_contains(i as int, input.mouse_x as int, input.mouse_y as int));
                            }
                        }
                    }
                    self.input_toggles = self.input_toggles ^ (0x80u8 >> i);
                },
                None => {},
            }
        }
        self.hovered_byte = self.resolve_hover(input.mouse_x, input.mouse_y);
        self.paused && input.space_pressed
    }

    /// The byte under the mouse, in the RAM panel or else the ROM panel.
    fn resolve_hover(&self, mx: i32, my: i32) -> (r: Option<usize>)
        requires
            self.wf(),
        ensures
            match resolve_hover_spec(self.emulator.memory@, self.ram_scroll as nat, self.rom_scroll as nat, mx as int, my as int) {
                Some(a) => r == Some(a as usize),
                None => r is None,
            },
    {
        let ram = hex_hover(mx, my, SCREEN_W, 0, RIGHT_W, HALF_H, VRAM_SIZE, self.emulator.memory.ram_size(), self.ram_scroll);
        if ram.is_some() {
            return ram;
        }
        let rom_start = self.emulator.memory.rom_start();
        let rom_size = self.emulator.memory.total_size() - rom_start;
        hex_hover(mx, my, SCREEN_W, HALF_H, RIGHT_W, HALF_H, rom_start, rom_size, self.rom_scroll)
    }

    /// Hands the armed buttons to the game: they become the buttons held,
    /// those of them not held before become the buttons pressed, and the
    /// buttons are disarmed. The caller does this when the game has asked
    /// for a new frame (`vsync`); nothing else changes.
    pub fn on_vsync(&mut self)
        requires
            old(self).wf(),
        ensures
            final(self).wf(),
            final(self).emulator.memory@.same_layout(old(self).emulator.memory@),
            final(self).paused == old(self).paused,
            final(self).ram_scroll == old(self).ram_scroll,
            final(self).rom_scroll == old(self).rom_scroll,
            final(self).hovered_byte == old(self).hovered_byte,
            final(self).emulator.cartridge == old(self).emulator.cartridge,
            final(self).emulator.update_texture == old(self).emulator.update_texture,
            final(self).input_toggles == 0,
            ({
                let m = old(self).emulator.memory@;
                let held = old(self).input_toggles;
                let prev = m.byte_at((m.stack_start() - 2) as nat);
                final(self).emulator.memory@ == m.write((m.stack_start() - 2) as nat, seq![held])
                    .write((m.stack_start() - 1) as nat, seq![held & !prev])
            }),
    {
        let held_addr = self.emulator.memory.input_held();
        let prev_cell = self.emulator.memory.peek(held_addr, 1);
        let prev = prev_cell[0];
        let held = self.input_toggles;
        let pressed = held & !prev;
        let held_cell = [held];
        let pressed_cell = [pressed];
        proof {
            assert(held_cell@ =~= seq![held]);
            assert(pressed_cell@ =~= seq![pressed]);
        }
        self.emulator.memory.put(held_addr, &held_cell);
        let pressed_addr = self.emulator.memory.input_pressed();
        self.emulator.memory.put(pressed_addr, &pressed_cell);
        self.input_toggles = 0;
    }
}


/// A line of text at a position of the debugger's window.
pub struct PanelText {
    pub text: String,
    pub x: i32,
    pub y: i32,
}

/// The name of an 8-bit register as the registers panel shows it.
pub open spec fn reg_name_8_spec(reg: Registers) -> Seq<char> {
    match reg {
        Registers::A => "A"@,
        Registers::X => "X"@,
        Registers::Y => "Y"@,
        Registers::Z => "Z"@,
        Registers::G1 => "G1"@,
        Registers::G2 => "G2"@,
        Registers::G3 => "G3"@,
        Registers::G4 => "G4"@,
        Registers::G5 => "G5"@,
    }
}

/// The name of a 64-bit register as the registers panel shows it, three
/// characters wide.
pub open spec fn reg_name_64_spec(reg: LongRegisters) -> Seq<char> {
    match reg {
        LongRegisters::PC => "PC "@,
        LongRegisters::LL1 => "LL1"@,
        LongRegisters::LL2 => "LL2"@,
        LongRegisters::GP1 => "GP1"@,
        LongRegisters::GP2 => "GP2"@,
        LongRegisters::GP3 => "GP3"@,
        LongRegisters::SP => "SP "@,
    }
}

/// The registers panel shows each register under its name: an 8-bit
/// register under the name listed at its bytecode, a 64-bit one under its
/// listed name padded with spaces to three characters. So no two
/// registers are shown under the same name.
pub proof fn lemma_panel_register_names(r: Registers, r2: Registers, q: LongRegisters, q2: LongRegisters)
    ensures
        reg_name_8_spec(r) == register_names()[register_code(r) as int],
        ({
            let name = long_register_names()[long_register_code(q) as int];
            &&& reg_name_64_spec(q).len() == 3
            &&& reg_name_64_spec(q).take(name.len() as int) == name
            &&& forall|i: int| name.len() <= i < 3 ==> reg_name_64_spec(q)[i] == ' '
        }),
        r != r2 ==> reg_name_8_spec(r) != reg_name_8_spec(r2),
        q != q2 ==> reg_name_64_spec(q) != reg_name_64_spec(q2),
{
    reveal_strlit("A");
    reveal_strlit("X");
    reveal_strlit("Y");
    reveal_strlit("Z");
    reveal_strlit("G1");
    reveal_strlit("G2");
    reveal_strlit("G3");
    reveal_strlit("G4");
    reveal_strlit("G5");
    reveal_strlit("PC ");
    reveal_strlit("LL1");
    reveal_strlit("LL2");
    reveal_strlit("GP1");
    reveal_strlit("GP2");
    reveal_strlit("GP3");
    reveal_strlit("SP ");
    assert(register_names()[0] =~= seq!['A']);
    assert(register_names()[1] =~= seq!['X']);
    assert(register_names()[2] =~= seq!['Y']);
    assert(register_names()[3] =~= seq!['Z']);
    assert(register_names()[4] =~= seq!['G', '1']);
    assert(register_names()[5] =~= seq!['G', '2']);
    assert(register_names()[6] =~= seq!['G', '3']);
    assert(register_names()[7] =~= seq!['G', '4']);
    assert(register_names()[8] =~= seq!['G', '5']);
    assert(long_register_names()[0] =~= seq!['P', 'C']);
    assert(long_register_names()[1] =~= seq!['L', 'L', '1']);
    assert(long_register_names()[2] =~= seq!['L', 'L', '2']);
    assert(long_register_names()[3] =~= seq!['G', 'P', '1']);
    assert(long_register_names()[4] =~= seq!['G', 'P', '2']);
    assert(long_register_names()[5] =~= seq!['G', 'P', '3']);
    assert(long_register_names()[6] =~= seq!['S', 'P']);
    assert(reg_name_8_spec(r) =~= register_names()[register_code(r) as int]);
    let name = long_register_names()[long_register_code(q) as int];
    assert(reg_name_64_spec(q).take(name.len() as int) =~= name);
    if r != r2 {
        assert(reg_name_8_spec(r) != reg_name_8_spec(r2)) by {
            if reg_name_8_spec(r) == reg_name_8_spec(r2) {
                assert(reg_name_8_spec(r)[0] == reg_name_8_spec(r2)[0]);
                assert(reg_name_8_spec(r).len() == reg_name_8_spec(r2).len());
                if reg_name_8_spec(r).len() == 2 {
                    assert(reg_name_8_spec(r)[1] == reg_name_8_spec(r2)[1]);
                }
            }
        }
    }
    if q != q2 {
        assert(reg_name_64_spec(q) != reg_name_64_spec(q2)) by {
            if reg_name_64_spec(q) == reg_name_64_spec(q2) {
                assert(reg_name_64_spec(q)[0] == reg_name_64_spec(q2)[0]);
                assert(reg_name_64_spec(q)[1] == reg_name_64_spec(q2)[1]);
                assert(reg_name_64_spec(q)[2] == reg_name_64_spec(q2)[2]);
            }
        }
    }
}

fn reg_name_8(reg: Registers) -> (r: &'static str)
    ensures
        r@ == reg_name_8_spec(reg),
{
    match reg {
        Registers::A => "A",
        Registers::X => "X",
        Registers::Y => "Y",
        Registers::Z => "Z",
        Registers::G1 => "G1",
        Registers::G2 => "G2",
        Registers::G3 => "G3",
        Registers::G4 => "G4",
        Registers::G5 => "G5",
    }
}

fn reg_name_64(reg: LongRegisters) -> (r: &'static str)
    ensures
        r@ == reg_name_64_spec(reg),
{
    match reg {
        LongRegisters::PC => "PC ",
        LongRegisters::LL1 => "LL1",
        LongRegisters::LL2 => "LL2",
        LongRegisters::GP1 => "GP1",
        LongRegisters::GP2 => "GP2",
        LongRegisters::GP3 => "GP3",
        LongRegisters::SP => "SP ",
    }
}

/// How an 8-bit register is shown: its name right-aligned in two columns,
/// its value in two hexadecimal digits, then in decimal right-aligned in
/// three columns (`G1: FFh 255`).
pub open spec fn label_8_spec(reg: Registers, v: u8) -> Seq<char> {
    pad_left(reg_name_8_spec(reg), 2, ' ') + ": "@ + hex_padded(v as nat, 2) + "h "@ + pad_left(dec(v as u64), 3, ' ')
}

/// How a 64-bit register is shown: its name, then its value in sixteen
/// hexadecimal digits (`PC : 000000000000F000h`).
pub open spec fn label_64_spec(reg: LongRegisters, v: u64) -> Seq<char> {
    reg_name_64_spec(reg) + ": "@ + hex_padded(v as nat, 16) + "h"@
}

fn label_8(reg: Registers, v: u8) -> (r: String)
    ensures
        r@ == label_8_spec(reg, v),
{
    let mut out: Vec<char> = Vec::new();
    let name = str_chars(reg_name_8(reg));
    push_padded(&mut out, name.as_slice(), 2, ' ');
    push_str(&mut out, ": ");
    push_hex_padded(&mut out, v as u64, 2);
    push_str(&mut out, "h ");
    let mut digits: Vec<char> = Vec::new();
    push_decimal(&mut digits, v as u64);
    push_padded(&mut out, digits.as_slice(), 3, ' ');
    proof {
        assert(digits@ =~= dec(v as u64));
    }
    chars_to_string(out.as_slice())
}

fn label_64(reg: LongRegisters, v: u64) -> (r: String)
    ensures
        r@ == label_64_spec(reg, v),
{
    let mut out: Vec<char> = Vec::new();
    push_str(&mut out, reg_name_64(reg));
    push_str(&mut out, ": ");
    push_hex_padded(&mut out, v, 16);
    push_str(&mut out, "h");
    chars_to_string(out.as_slice())
}

/// Where the registers panel shows the `i`th 8-bit register: five to a
/// line.
pub open spec fn reg_8_pos(i: int) -> (int, int) {
    (8 + (i % 5) * 144, SCREEN_H + 40 + (i / 5) * ROW_H)
}

/// Where the registers panel shows the `j`th 64-bit register: three to a
/// line.
pub open spec fn reg_64_pos(j: int) -> (int, int) {
    (8 + (j % 3) * 224, SCREEN_H + 98 + (j / 3) * ROW_H)
}

/// The texts of the registers panel (bottom left): its title, every 8-bit
/// and 64-bit register with its value, and the caption of the input
/// buttons.
pub open spec fn register_texts_spec(m: MemoryView) -> Seq<(Seq<char>, int, int)> {
    seq![("REGISTERS"@, 4, SCREEN_H + 2), ("8-bit:"@, 8, SCREEN_H + 22)]
        + Seq::new(9, |i: int| (label_8_spec(register_of_code(i as u8)->0, m.regs[i]), reg_8_pos(i).0, reg_8_pos(i).1))
        + seq![("64-bit:"@, 8, SCREEN_H + 80)]
        + Seq::new(7, |j: int| (label_64_spec(long_register_of_code(j as u8)->0, m.lregs[j]), reg_64_pos(j).0, reg_64_pos(j).1))
        + seq![("INPUT TOGGLES  (click to arm, applied + cleared on vsync):"@, 8, SCREEN_H + TOG_Y_OFFSET - ROW_H)]
}

/// Whether `texts` are the placed texts `spec`.
pub open spec fn texts_match(texts: Seq<PanelText>, spec: Seq<(Seq<char>, int, int)>) -> bool {
    &&& texts.len() == spec.len()
    &&& forall|i: int| 0 <= i < texts.len() ==> {
        &&& #[trigger] texts[i].text@ == spec[i].0
        &&& texts[i].x == spec[i].1
        &&& texts[i].y == spec[i].2
    }
}

/// One of the eight input buttons: its label, its left edge and whether
/// it is armed.
pub struct ToggleButton {
    pub label: &'static str,
    pub x: i32,
    pub on: bool,
}

/// The labels of the input buttons, left to right: button `i` stands for
/// bit `7 - i` of the input byte.
pub open spec fn toggle_label(i: int) -> Seq<char> {
    if i == 0 { "UP"@ } else if i == 1 { "DOWN"@ } else if i == 2 { "LEFT"@ } else if i == 3 { "RIGHT"@ }
    else if i == 4 { "Z"@ } else if i == 5 { "X"@ } else if i == 6 { "C"@ } else { "SPACE"@ }
}

fn toggle_label_str(i: u8) -> (r: &'static str)
    requires
        i < 8,
    ensures
        r@ == toggle_label(i as int),
{
    if i == 0 { "UP" } else if i == 1 { "DOWN" } else if i == 2 { "LEFT" } else if i == 3 { "RIGHT" }
    else if i == 4 { "Z" } else if i == 5 { "X" } else if i == 6 { "C" } else { "SPACE" }
}

/// How a byte of a memory panel is marked.
#[derive(Debug, Clone, Copy, PartialEq, Eq, Structural)]
pub enum Highlight {
    /// The byte at the program counter.
    Pc,
    /// The byte under the mouse.
    Hovered,
    Plain,
}

/// A byte of a memory panel: two hexadecimal digits at `x`, how it is
/// marked, and whether it is zero (shown dimmed).
pub struct HexCell {
    pub text: String,
    pub x: i32,
    pub highlight: Highlight,
    pub zero: bool,
}

/// A line of a memory panel: its address label at height `y`, then its
/// bytes.
pub struct HexRow {
    pub label: String,
    pub y: i32,
    pub cells: Vec<HexCell>,
}

/// A memory panel: its title, its visible lines, and the address shown
/// beside the mouse when it hovers a byte of the panel.
pub struct HexPanel {
    pub title: String,
    pub rows: Vec<HexRow>,
    pub tooltip: Option<String>,
}

/// How the byte at `addr` is marked.
pub open spec fn highlight_spec(addr: nat, pc: Option<u64>, hovered: Option<usize>) -> Highlight {
    if pc == Some(addr as u64) && addr <= u64::MAX {
        Highlight::Pc
    } else if hovered == Some(addr as usize) && addr <= usize::MAX {
        Highlight::Hovered
    } else {
        Highlight::Plain
    }
}

/// Lines of a memory panel of height `ph`.
pub open spec fn visible_lines(ph: int) -> nat {
    ((ph - ROW_H) / ROW_H as int) as nat
}

/// Number of lines a memory panel shows of a region of `size` bytes,
/// scrolled by `scroll` lines, with room for `visible` lines.
pub open spec fn shown_lines(size: nat, scroll: nat, visible: nat) -> nat {
    let total = (size + 7) / 8;
    let end = if scroll + visible <= total { scroll + visible } else { total };
    if end > scroll { (end - scroll) as nat } else { 0 }
}

/// Whether `cells` are the bytes of `m` from `base` on, up to `end`, at
/// most eight, as a panel at `px` shows them.
pub open spec fn cells_match(cells: Seq<HexCell>, m: MemoryView, base: nat, end: nat, px: int, pc: Option<u64>, hovered: Option<usize>) -> bool {
    &&& cells.len() == if end - base >= 8 { 8 } else { (end - base) as nat }
    &&& forall|c: int| 0 <= c < cells.len() ==> {
        &&& (#[trigger] cells[c]).text@ == hex_padded(m.mem[base + c] as nat, 2)
        &&& cells[c].x == px + ADDR_W + c * CHAR_W * 3
        &&& cells[c].highlight == highlight_spec((base + c) as nat, pc, hovered)
        &&& cells[c].zero == (m.mem[base + c] == 0)
    }
}

/// The title of a memory panel.
pub open spec fn panel_title(title: Seq<char>, size: nat, scroll: nat) -> Seq<char> {
    title + "  ("@ + dec(size as u64) + " bytes, scroll: "@ + dec(scroll as u64) + ")"@
}

/// The address shown beside the mouse.
pub open spec fn tooltip_text(addr: nat) -> Seq<char> {
    " 0x"@ + hex_digits(addr)
}

impl Debugger {
    /// The texts of the registers panel.
    pub fn register_texts(&self) -> (r: Vec<PanelText>)
        requires
            self.wf(),
        ensures
            texts_match(r@, register_texts_spec(self.emulator.memory@)),
    {
        let ghost m = self.emulator.memory@;
        let mut r: Vec<PanelText> = Vec::new();
        r.push(PanelText { text: "REGISTERS".to_owned(), x: 4, y: SCREEN_H + 2 });
        r.push(PanelText { text: "8-bit:".to_owned(), x: 8, y: SCREEN_H + 22 });
        let ghost spec = register_texts_spec(m);
        let mut i: u8 = 0;
        while i < 9
            invariant
                self.wf(),
                m == self.emulator.memory@,
                spec == register_texts_spec(m),
                i <= 9,
                r@.len() == 2 + i,
                forall|k: int| 0 <= k < r@.len() ==> {
                    &&& #[trigger] r@[k].text@ == spec[k].0
                    &&& r@[k].x == spec[k].1
                    &&& r@[k].y == spec[k].2
                },
            decreases 9 - i,
        {
            let reg = Registers::from_bytecode(i);
            let v = self.emulator.memory.read_reg(reg);
            let k = i as i32;
            proof {
                assert((k % 5) * 144 <= 4 * 144 && (k / 5) * 18 <= 18) by (nonlinear_arith)
                    requires
                        0 <= k < 9,
                ;
            }
            let x = 8 + (k % 5) * 144;
            let y = SCREEN_H + 40 + (k / 5) * ROW_H;
            r.push(PanelText { text: label_8(reg, v), x, y });
            proof {
                assert(register_code(reg) == i);
                assert(spec[2 + i as int] == (label_8_spec(reg, v), x as int, y as int));
                assert(r@[2 + i as int].text@ == spec[2 + i as int].0);
            }
            i = i + 1;
        }
        r.push(PanelText { text: "64-bit:".to_owned(), x: 8, y: SCREEN_H + 80 });
        let mut j: u8 = 0;
        while j < 7
            invariant
                self.wf(),
                m == self.emulator.memory@,
                spec == register_texts_spec(m),
                j <= 7,
                r@.len() == 12 + j,
                forall|k: int| 0 <= k < r@.len() ==> {
                    &&& #[trigger] r@[k].text@ == spec[k].0
                    &&& r@[k].x == spec[k].1
                    &&& r@[k].y == spec[k].2
                },
            decreases 7 - j,
        {
            let reg = LongRegisters::from_bytecode(j);
            let v = self.emulator.memory.read_reg_long(reg);
            let k = j as i32;
            proof {
                assert((k % 3) * 224 <= 2 * 224 && (k / 3) * 18 <= 36) by (nonlinear_arith)
                    requires
                        0 <= k < 7,
                ;
            }
            let x = 8 + (k % 3) * 224;
            let y = SCREEN_H + 98 + (k / 3) * ROW_H;
            r.push(PanelText { text: label_64(reg, v), x, y });
            proof {
                assert(long_register_code(reg) == j);
                assert(spec[12 + j as int] == (label_64_spec(reg, v), x as int, y as int));
                assert(r@[12 + j as int].text@ == spec[12 + j as int].0);
            }
            j = j + 1;
        }
        r.push(PanelText {
            text: "INPUT TOGGLES  (click to arm, applied + cleared on vsync):".to_owned(),
            x: 8,
            y: SCREEN_H + TOG_Y_OFFSET - ROW_H,
        });
        r
    }

    /// The eight input buttons, left to right, and whether each is armed.
    pub fn toggle_buttons(&self) -> (r: Vec<ToggleButton>)
        ensures
            r@.len() == 8,
            forall|i: int| 0 <= i < 8 ==> {
                &&& (#[trigger] r@[i]).label@ == toggle_label(i)
                &&& r@[i].x == TOG_X0 + i * (TOG_W + TOG_GAP)
                &&& r@[i].on == (self.input_toggles & (0x80u8 >> (i as u8)) != 0)
            },
    {
        let mut r: Vec<ToggleButton> = Vec::new();
        let mut i: u8 = 0;
        while i < 8
            invariant
                i <= 8,
                r@.len() == i,
                forall|k: int| 0 <= k < i ==> {
                    &&& (#[trigger] r@[k]).label@ == toggle_label(k)
                    &&& r@[k].x == TOG_X0 + k * (TOG_W + TOG_GAP)
                    &&& r@[k].on == (self.input_toggles & (0x80u8 >> (k as u8)) != 0)
                },
            decreases 8 - i,
        {
            let k = i as i32;
            proof {
                assert(k * 59 <= 8 * 59) by (nonlinear_arith)
                    requires
                        0 <= k < 8,
                ;
            }
            r.push(ToggleButton {
                label: toggle_label_str(i),
                x: TOG_X0 + k * (TOG_W + TOG_GAP),
                on: self.input_toggles & (0x80u8 >> i) != 0,
            });
            i = i + 1;
        }
        r
    }
}

impl Debugger {
    /// The bytes of one line of a memory panel: those from `base` on, up to
    /// `end`, at most eight.
    fn hex_cells(&self, base: usize, end: usize, px: i32, pc: Option<u64>) -> (r: Vec<HexCell>)
        requires
            self.wf(),
            base < end <= self.emulator.memory@.mem.len(),
            0 <= px <= 1024,
        ensures
            cells_match(r@, self.emulator.memory@, base as nat, end as nat, px as int, pc, self.hovered_byte),
    {
        let ghost m = self.emulator.memory@;
        let mut r: Vec<HexCell> = Vec::new();
        let mut col: usize = 0;
        let room = end - base;
        while col < BYTES_ROW && col < room
            invariant
                self.wf(),
                m == self.emulator.memory@,
                room == end - base,
                base < end <= m.mem.len(),
                0 <= px <= 1024,
                col <= 8,
                col <= end - base,
                r@.len() == col,
                forall|c: int| 0 <= c < col ==> {
                    &&& (#[trigger] r@[c]).text@ == hex_padded(m.mem[base + c] as nat, 2)
                    &&& r@[c].x == px + ADDR_W + c * CHAR_W * 3
                    &&& r@[c].highlight == highlight_spec((base + c) as nat, pc, self.hovered_byte)
                    &&& r@[c].zero == (m.mem[base + c] == 0)
                },
            decreases 8 - col,
        {
            let addr = base + col;
            let cell = self.emulator.memory.peek(addr, 1);
            let byte = cell[0];
            proof {
                let len = m.mem.len() as int;
                assert((addr as int) % len == addr as int) by (nonlinear_arith)
                    requires
                        0 <= addr < len,
                ;
            }
            let highlight = if pc == Some(addr as u64) {
                Highlight::Pc
            } else if self.hovered_byte == Some(addr) {
                Highlight::Hovered
            } else {
                Highlight::Plain
            };
            let mut text: Vec<char> = Vec::new();
            push_hex_padded(&mut text, byte as u64, 2);
            proof {
                assert(text@ =~= hex_padded(byte as nat, 2));
            }
            r.push(HexCell {
                text: chars_to_string(text.as_slice()),
                x: px + ADDR_W + (col as i32) * CHAR_W * 3,
                highlight,
                zero: byte == 0,
            });
            col = col + 1;
        }
        r
    }

    /// A memory panel at `(px, py)`, `pw` by `ph`, showing `region_size`
    /// bytes from `region_start` on, scrolled by `scroll` lines, marking the
    /// byte at `pc` and the hovered byte.
    fn hex_panel(
        &self,
        mx: i32,
        my: i32,
        px: i32,
        py: i32,
        pw: i32,
        ph: i32,
        title: &str,
        region_start: usize,
        region_size: usize,
        scroll: usize,
        pc: Option<u64>,
    ) -> (r: HexPanel)
        requires
            self.wf(),
            region_start + region_size <= self.emulator.memory@.mem.len(),
            0 <= px <= 1024,
            0 <= py <= 1024,
            ROW_H <= ph <= 1024,
            0 <= pw <= 1024,
        ensures
            r.title@ == panel_title(title@, region_size as nat, scroll as nat),
            r.rows@.len() == shown_lines(region_size as nat, scroll as nat, visible_lines(ph as int)),
            forall|k: int| 0 <= k < r.rows@.len() ==> {
                let base = region_start + (scroll + k) * 8;
                &&& (#[trigger] r.rows@[k]).label@ == hex_padded(base as nat, 6) + ": "@
                &&& r.rows@[k].y == py + ROW_H + k * ROW_H
                &&& cells_match(r.rows@[k].cells@, self.emulator.memory@, base as nat, (region_start + region_size) as nat, px as int, pc, self.hovered_byte)
            },
            tooltip_shown(self.hovered_byte, region_start as int, region_size as int, px as int, py as int, pw as int, ph as int, mx as int, my as int)
                ==> (r.tooltip matches Some(t) && t@ == tooltip_text(self.hovered_byte->0 as nat)),
            !tooltip_shown(self.hovered_byte, region_start as int, region_size as int, px as int, py as int, pw as int, ph as int, mx as int, my as int)
                ==> r.tooltip is None,
    {
        let ghost m = self.emulator.memory@;
        let mut title_chars: Vec<char> = Vec::new();
        push_str(&mut title_chars, title);
        push_str(&mut title_chars, "  (");
        push_decimal(&mut title_chars, region_size as u64);
        push_str(&mut title_chars, " bytes, scroll: ");
        push_decimal(&mut title_chars, scroll as u64);
        push_str(&mut title_chars, ")");
        let end = region_start + region_size;
        let total_rows = region_size / BYTES_ROW + if region_size % BYTES_ROW != 0 { 1usize } else { 0usize };
        proof {
            assert(total_rows == (region_size + 7) / 8) by (nonlinear_arith)
                requires
                    total_rows == region_size / 8 + if region_size % 8 != 0 { 1int } else { 0int },
            ;
        }
        let visible = ((ph - ROW_H) / ROW_H) as usize;
        let lines: usize = if scroll >= total_rows {
            0
        } else if total_rows - scroll >= visible {
            visible
        } else {
            total_rows - scroll
        };
        let mut rows: Vec<HexRow> = Vec::new();
        let mut k: usize = 0;
        while k < lines
            invariant
                self.wf(),
                m == self.emulator.memory@,
                end == region_start + region_size,
                end <= m.mem.len(),
                0 <= px <= 1024,
                0 <= py <= 1024,
                ROW_H <= ph <= 1024,
                visible == visible_lines(ph as int),
                visible <= 56,
                total_rows == (region_size + 7) / 8,
                lines <= visible,
                lines > 0 ==> scroll + lines <= total_rows,
                k <= lines,
                rows@.len() == k,
                forall|j: int| 0 <= j < k ==> {
                    let base = region_start + (scroll + j) * 8;
                    &&& (#[trigger] rows@[j]).label@ == hex_padded(base as nat, 6) + ": "@
                    &&& rows@[j].y == py + ROW_H + j * ROW_H
                    &&& cells_match(rows@[j].cells@, m, base as nat, end as nat, px as int, pc, self.hovered_byte)
                },
            decreases lines - k,
        {
            let row = scroll + k;
            proof {
                assert(row * 8 < region_size) by (nonlinear_arith)
                    requires
                        row < (region_size + 7) / 8,
                ;
            }
            let base = region_start + row * BYTES_ROW;
            let mut label: Vec<char> = Vec::new();
            push_hex_padded(&mut label, base as u64, 6);
            push_str(&mut label, ": ");
            let cells = self.hex_cells(base, end, px, pc);
            proof {
                assert((k as int) * 18 <= 56 * 18) by (nonlinear_arith)
                    requires
                        k < 56,
                ;
            }
            rows.push(HexRow {
                label: chars_to_string(label.as_slice()),
                y: py + ROW_H + (k as i32) * ROW_H,
                cells,
            });
            k = k + 1;
        }
        let tooltip = match self.hovered_byte {
            Some(a) => {
                if region_start <= a && a < end && px <= mx && mx < px + pw && py <= my && my < py + ph {
                    let mut t: Vec<char> = Vec::new();
                    push_str(&mut t, " 0x");
                    let digits = hex_chars(a as u64);
                    crate::flowchart::graph::extend_chars(&mut t, digits.as_slice());
                    Some(chars_to_string(t.as_slice()))
                } else {
                    None
                }
            },
            None => None,
        };
        HexPanel { title: chars_to_string(title_chars.as_slice()), rows, tooltip }
    }

    /// The RAM panel (top right), given the mouse position.
    pub fn ram_panel(&self, mx: i32, my: i32) -> (r: HexPanel)
        requires
            self.wf(),
        ensures
            hex_panel_spec(r, *self, mx as int, my as int, "RAM"@, 0, VRAM_SIZE as nat, self.emulator.memory@.ram_size, self.ram_scroll as nat, None),
    {
        let size = self.emulator.memory.ram_size();
        self.hex_panel(mx, my, SCREEN_W, 0, RIGHT_W, HALF_H, "RAM", VRAM_SIZE, size, self.ram_scroll, None)
    }

    /// The ROM panel (bottom right), marking the byte at the program
    /// counter, given the mouse position.
    pub fn rom_panel(&self, mx: i32, my: i32) -> (r: HexPanel)
        requires
            self.wf(),
        ensures
            hex_panel_spec(
                r,
                *self,
                mx as int,
                my as int,
                "ROM"@,
                HALF_H as int,
                self.emulator.memory@.rom_start(),
                (self.emulator.memory@.mem.len() - self.emulator.memory@.rom_start()) as nat,
                self.rom_scroll as nat,
                Some(self.emulator.memory@.pc() as u64),
            ),
    {
        let rom_start = self.emulator.memory.rom_start();
        let size = self.emulator.memory.total_size() - rom_start;
        let pc = self.emulator.memory.read_reg_long(LongRegisters::PC);
        self.hex_panel(mx, my, SCREEN_W, HALF_H, RIGHT_W, HALF_H, "ROM", rom_start, size, self.rom_scroll, Some(pc))
    }
}

/// Whether the address of the hovered byte is shown beside the mouse: the
/// byte is in the panel's region and the mouse is over the panel.
pub open spec fn tooltip_shown(hovered: Option<usize>, region_start: int, region_size: int, px: int, py: int, pw: int, ph: int, mx: int, my: int) -> bool {
    hovered matches Some(a) && region_start <= a < region_start + region_size && px <= mx < px + pw && py <= my < py + ph
}

/// Whether `r` is the memory panel in the right column at height `py`, half
/// the window high, titled `title`, showing `size` bytes from `start` on,
/// scrolled by `scroll` lines and marking the byte at `pc`.
pub open spec fn hex_panel_spec(r: HexPanel, d: Debugger, mx: int, my: int, title: Seq<char>, py: int, start: nat, size: nat, scroll: nat, pc: Option<u64>) -> bool {
    &&& r.title@ == panel_title(title, size, scroll)
    &&& r.rows@.len() == shown_lines(size, scroll, visible_lines(HALF_H as int))
    &&& forall|k: int| 0 <= k < r.rows@.len() ==> {
        let base = start + (scroll + k) * 8;
        &&& (#[trigger] r.rows@[k]).label@ == hex_padded(base as nat, 6) + ": "@
        &&& r.rows@[k].y == py + ROW_H + k * ROW_H
        &&& cells_match(r.rows@[k].cells@, d.emulator.memory@, base as nat, start + size, SCREEN_W as int, pc, d.hovered_byte)
    }
    &&& tooltip_shown(d.hovered_byte, start as int, size as int, SCREEN_W as int, py, RIGHT_W as int, HALF_H as int, mx, my)
        ==> (r.tooltip matches Some(t) && t@ == tooltip_text(d.hovered_byte->0 as nat))
    &&& !tooltip_shown(d.hovered_byte, start as int, size as int, SCREEN_W as int, py, RIGHT_W as int, HALF_H as int, mx, my)
        ==> r.tooltip is None
}

} // verus!
