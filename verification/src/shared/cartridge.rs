use vstd::prelude::*;
use std::collections::BTreeMap;
use crate::shared::manifest::Manifest;
use crate::shared::text::{ascii_chars, ascii_to_string, decimal_digits, extend_bytes, lemma_decimal_digits_ascii, u64_to_decimal};

verus! {

/// Everything a game consists of: its manifest, the assembled entry
/// bytecode, the encoded palette and the encoded backgrounds and sprites.
#[derive(Debug, Clone)]
pub struct Cartridge {
    pub manifest: Manifest,
    pub entry_bytecode: Vec<u8>,
    pub palette: Vec<u8>,
    pub bg_data: BTreeMap<u32, Vec<u8>>,
    pub sprite_data: BTreeMap<u32, Vec<u8>>,
}

/// `prefix`, the decimal form of `ind`, then `suffix`.
pub open spec fn indexed_path(prefix: Seq<char>, ind: u32, suffix: Seq<char>) -> Seq<char> {
    prefix + ascii_chars(decimal_digits(ind as nat)) + suffix
}

/// Builds `prefix ++ decimal(ind) ++ suffix` from ASCII parts.
fn indexed_ascii_path(prefix: &[u8], ind: u32, suffix: &[u8]) -> (r: String)
    requires
        forall|i: int| 0 <= i < prefix@.len() ==> prefix@[i] < 128,
        forall|i: int| 0 <= i < suffix@.len() ==> suffix@[i] < 128,
    ensures
        r@ == ascii_chars(prefix@) + ascii_chars(decimal_digits(ind as nat)) + ascii_chars(suffix@),
{
    let mut out: Vec<u8> = Vec::new();
    extend_bytes(&mut out, prefix);
    let digits = u64_to_decimal(ind as u64);
    extend_bytes(&mut out, digits.as_slice());
    extend_bytes(&mut out, suffix);
    proof {
        lemma_decimal_digits_ascii(ind as nat);
        assert(out@ == prefix@ + decimal_digits(ind as nat) + suffix@);
        assert(ascii_chars(out@) =~= ascii_chars(prefix@) + ascii_chars(decimal_digits(ind as nat)) + ascii_chars(suffix@));
    }
    ascii_to_string(out)
}

/// Path of background `ind` inside a cartridge: `bg/<ind>.bg.bin`.
pub fn get_bg_path(ind: &u32) -> (r: String)
    ensures
        r@ == indexed_path(seq!['b', 'g', '/'], *ind, seq!['.', 'b', 'g', '.', 'b', 'i', 'n']),
{
    let prefix: [u8; 3] = [98, 103, 47];
    let suffix: [u8; 7] = [46, 98, 103, 46, 98, 105, 110];
    let r = indexed_ascii_path(prefix.as_slice(), *ind, suffix.as_slice());
    proof {
        assert(ascii_chars(prefix@) =~= seq!['b', 'g', '/']);
        assert(ascii_chars(suffix@) =~= seq!['.', 'b', 'g', '.', 'b', 'i', 'n']);
    }
    r
}

/// Path of sprite `ind` inside a cartridge: `sprite/<ind>.sprite.bin`.
pub fn get_spr_path(ind: &u32) -> (r: String)
    ensures
        r@ == indexed_path(
            seq!['s', 'p', 'r', 'i', 't', 'e', '/'],
            *ind,
            seq!['.', 's', 'p', 'r', 'i', 't', 'e', '.', 'b', 'i', 'n'],
        ),
{
    let prefix: [u8; 7] = [115, 112, 114, 105, 116, 101, 47];
    let suffix: [u8; 11] = [46, 115, 112, 114, 105, 116, 101, 46, 98, 105, 110];
    let r = indexed_ascii_path(prefix.as_slice(), *ind, suffix.as_slice());
    proof {
        assert(ascii_chars(prefix@) =~= seq!['s', 'p', 'r', 'i', 't', 'e', '/']);
        assert(ascii_chars(suffix@) =~= seq!['.', 's', 'p', 'r', 'i', 't', 'e', '.', 'b', 'i', 'n']);
    }
    r
}

impl Cartridge {
    /// A cartridge holding only `manifest`: no code, palette or images yet.
    pub fn new(manifest: Manifest) -> (r: Cartridge)
        ensures
            r.manifest == manifest,
            r.entry_bytecode@.len() == 0,
            r.palette@.len() == 0,
            r.bg_data@ == Map::<u32, Vec<u8>>::empty(),
            r.sprite_data@ == Map::<u32, Vec<u8>>::empty(),
    {
        Cartridge {
            manifest,
            entry_bytecode: Vec::new(),
            palette: Vec::new(),
            bg_data: BTreeMap::new(),
            sprite_data: BTreeMap::new(),
        }
    }
}

} // verus!
