use vstd::prelude::*;

verus! {

pub const LIVESTREAM: u8 = 0;

pub const MOVIE: u8 = 1;

pub const SERIE: u8 = 2;

pub const GROUP: u8 = 3;

pub const SEASON: u8 = 4;

} // verus!
