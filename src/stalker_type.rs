use vstd::prelude::*;

verus! {

/// Portal content type of live channels.
pub const LIVE: &'static str = "itv";

/// Portal content type of movies.
pub const VOD: &'static str = "vod";

/// Portal content type of series.
pub const SERIES: &'static str = "series";

} // verus!
