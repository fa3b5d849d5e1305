use vstd::prelude::*;
use crate::flowchart::graph::push_str;
use vstd::std_specs::iter::IteratorSpec;
use crate::shared::cartridge::{get_bg_path, indexed_path, Cartridge};
use crate::shared::manifest::Resources;
use crate::shared::format::{dec, push_decimal};
use crate::shared::text::chars_to_string;

verus! {

broadcast use vstd::std_specs::btree::group_btree_axioms, vstd::laws_cmp::group_laws_cmp;

/// Size in bytes of the video memory at the start of main memory: one
/// palette index per pixel of the 256x240 screen.
pub const VRAM_SIZE: u64 = 61440;

/// The bounds of the memory sections of a cartridge, as the compiler
/// reports them.
#[derive(Debug, Clone, Copy, PartialEq, Eq, Structural)]
pub struct AddressReport {
    pub vram_end: u64,
    pub ram_start: u64,
    pub ram_end: u64,
    pub stack_start: u64,
    pub stack_end: u64,
    pub rom_start: u64,
    pub input_held: u64,
    pub input_pressed: u64,
}

/// The section bounds of a machine with `ram` bytes of RAM and `stack`
/// bytes of stack.
pub open spec fn address_report_spec(ram: u64, stack: u64) -> AddressReport {
    let stack_start = VRAM_SIZE + ram;
    AddressReport {
        vram_end: VRAM_SIZE,
        ram_start: (VRAM_SIZE + 1) as u64,
        ram_end: stack_start as u64,
        stack_start: stack_start as u64,
        stack_end: (stack_start + stack - 1) as u64,
        rom_start: (stack_start + stack) as u64,
        input_held: (stack_start - 2) as u64,
        input_pressed: (stack_start - 1) as u64,
    }
}

/// The section bounds of the cartridge's machine: VRAM from 0, then RAM,
/// stack and ROM; the two input bytes are the last two bytes of RAM.
pub fn report_addresses(cartridge: &Cartridge) -> (r: AddressReport)
    requires
        VRAM_SIZE + cartridge.manifest.settings.ram_size + cartridge.manifest.settings.stack_size <= u64::MAX,
        cartridge.manifest.settings.stack_size >= 1,
    ensures
        r == address_report_spec(cartridge.manifest.settings.ram_size, cartridge.manifest.settings.stack_size),
{
    let ram = cartridge.manifest.settings.ram_size;
    let stack = cartridge.manifest.settings.stack_size;
    let stack_start = VRAM_SIZE + ram;
    AddressReport {
        vram_end: VRAM_SIZE,
        ram_start: VRAM_SIZE + 1,
        ram_end: VRAM_SIZE + ram,
        stack_start,
        stack_end: stack_start + stack - 1,
        rom_start: stack_start + stack,
        input_held: stack_start - 2,
        input_pressed: stack_start - 1,
    }
}

/// `prefix`, the decimal form of `n`, then `suffix`, as a string.
fn labelled_number(prefix: &str, n: u64, suffix: &str) -> (r: String)
    ensures
        r@ == prefix@ + dec(n) + suffix@,
{
    let mut out: Vec<char> = Vec::new();
    push_str(&mut out, prefix);
    push_decimal(&mut out, n);
    push_str(&mut out, suffix);
    chars_to_string(out.as_slice())
}

/// `prefix`, the decimal form of `a`, `-`, then the decimal form of `b`.
fn labelled_range(prefix: &str, a: u64, b: u64) -> (r: String)
    ensures
        r@ == prefix@ + dec(a) + "-"@ + dec(b),
{
    let mut out: Vec<char> = Vec::new();
    push_str(&mut out, prefix);
    push_decimal(&mut out, a);
    push_str(&mut out, "-");
    push_decimal(&mut out, b);
    chars_to_string(out.as_slice())
}

/// The lines of the compiler's memory report.
pub open spec fn report_lines_spec(r: AddressReport) -> Seq<Seq<char>> {
    seq![
        "=== SECTIONS ==="@,
        "VRAM: "@ + dec(0) + "-"@ + dec(r.vram_end),
        "RAM: "@ + dec(r.ram_start) + "-"@ + dec(r.ram_end),
        "STACK: "@ + dec(r.stack_start) + "-"@ + dec(r.stack_end),
        "ROM: "@ + dec(r.rom_start) + "-..."@,
        "=== SPECIAL ADDRESSES ==="@,
        "INPUT_HELD: $"@ + dec(r.input_held) + ""@,
        "INPUT_PRESSED: $"@ + dec(r.input_pressed) + ""@,
    ]
}

impl AddressReport {
    /// The report as the lines the compiler prints.
    pub fn lines(&self) -> (r: Vec<String>)
        ensures
            r@.len() == 8,
            forall|i: int| 0 <= i < 8 ==> #[trigger] r@[i]@ == report_lines_spec(*self)[i],
    {
        let mut r: Vec<String> = Vec::new();
        r.push("=== SECTIONS ===".to_owned());
        r.push(labelled_range("VRAM: ", 0, self.vram_end));
        r.push(labelled_range("RAM: ", self.ram_start, self.ram_end));
        r.push(labelled_range("STACK: ", self.stack_start, self.stack_end));
        r.push(labelled_number("ROM: ", self.rom_start, "-..."));
        r.push("=== SPECIAL ADDRESSES ===".to_owned());
        r.push(labelled_number("INPUT_HELD: $", self.input_held, ""));
        r.push(labelled_number("INPUT_PRESSED: $", self.input_pressed, ""));
        r
    }
}

/// The paths of a compiled cartridge's resources: the entry script and
/// palette under fixed names, and every numbered background and sprite
/// under the background path of its number.
pub open spec fn finalized_resources(old_r: Resources, new_r: Resources) -> bool {
    &&& new_r.entry@ == "entry.veb"@
    &&& new_r.palette@ == "palette.rfe"@
    &&& new_r.bg@.dom() == old_r.bg@.dom()
    &&& new_r.img@.dom() == old_r.img@.dom()
    &&& forall|k: u32| #[trigger] new_r.bg@.contains_key(k) ==> new_r.bg@[k]@ == bg_path_of(k)
    &&& forall|k: u32| #[trigger] new_r.img@.contains_key(k) ==> new_r.img@[k]@ == bg_path_of(k)
}

/// The path under which background `k` is stored in a cartridge.
pub open spec fn bg_path_of(k: u32) -> Seq<char> {
    indexed_path(seq!['b', 'g', '/'], k, seq!['.', 'b', 'g', '.', 'b', 'i', 'n'])
}

/// The keys of a map.
fn map_keys(m: &std::collections::BTreeMap<u32, String>) -> (r: Vec<u32>)
    ensures
        r@.to_set() == m@.dom(),
{
    let ghost ks: Seq<u32> = vstd::std_specs::btree::spec_keys_iter(m).remaining().unref();
    proof {
        assert(ks.to_set() == m@.dom());
    }
    let mut r: Vec<u32> = Vec::new();
    for k in it: m.keys()
        invariant
            it.seq() == vstd::std_specs::btree::spec_keys_iter(m).remaining(),
            ks == it.seq().unref(),
            r@ == ks.take(it.index()),
    {
        proof {
            assert(ks.take(it.index() + 1) =~= ks.take(it.index()).push(ks[it.index()]));
        }
        r.push(*k);
    }
    proof {
        assert(r@ =~= ks);
    }
    r
}

/// Points every entry of `m` at the background path of its key.
fn point_at_bg_paths(m: &mut std::collections::BTreeMap<u32, String>)
    ensures
        final(m)@.dom() == old(m)@.dom(),
        forall|k: u32| #[trigger] final(m)@.contains_key(k) ==> final(m)@[k]@ == bg_path_of(k),
{
    let keys = map_keys(m);
    let mut i: usize = 0;
    while i < keys.len()
        invariant
            i <= keys@.len(),
            keys@.to_set() == old(m)@.dom(),
            m@.dom() == old(m)@.dom(),
            forall|j: int| 0 <= j < i ==> m@[#[trigger] keys@[j]]@ == bg_path_of(keys@[j]),
        decreases keys@.len() - i,
    {
        let k = keys[i];
        proof {
            assert(keys@.to_set().contains(k));
        }
        m.insert(k, get_bg_path(&k));
        i = i + 1;
    }
    proof {
        assert forall|k: u32| #[trigger] m@.contains_key(k) implies m@[k]@ == bg_path_of(k) by {
            assert(keys@.to_set().contains(k));
            let j = choose|j: int| 0 <= j < keys@.len() && keys@[j] == k;
            assert(m@[keys@[j]]@ == bg_path_of(keys@[j]));
        }
    }
}

/// Renames the resources of a project to where a compiled cartridge keeps
/// them.
pub fn finalize_resources(resources: &mut Resources)
    ensures
        finalized_resources(*old(resources), *final(resources)),
{
    resources.entry = "entry.veb".to_owned();
    resources.palette = "palette.rfe".to_owned();
    point_at_bg_paths(&mut resources.bg);
    point_at_bg_paths(&mut resources.img);
}

} // verus!
