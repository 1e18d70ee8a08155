use vstd::prelude::*;

pub mod components;
pub mod css;
pub mod daemon;
pub mod formats;
pub mod hex;
pub mod programs;
pub mod startup;
pub mod state;
pub mod text;

verus! {

/// Packs three 8-bit channels into `0xRRGGBB`.
pub fn pack_rgb(r: u8, g: u8, b: u8) -> (v: u32)
    ensures
        v as int == r as int * 65536 + g as int * 256 + b as int,
{
    (r as u32) * 65536 + (g as u32) * 256 + (b as u32)
}

} // verus!
