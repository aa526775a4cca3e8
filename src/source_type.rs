use vstd::prelude::*;

verus! {

pub const M3U: u8 = 0;

pub const M3U_LINK: u8 = 1;

pub const XTREAM: u8 = 2;

pub const CUSTOM: u8 = 3;

pub const STALKER: u8 = 4;

} // verus!
