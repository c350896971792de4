//! `profinet-rt`: a PROFINET RT IO-Device stack.
//!
//! The protocol logic (Ethernet header codec, DCP header and TLV block codecs,
//! the DCP Identify request/response exchange, process-data codecs and the
//! in-memory transport) is verified: every public function states, over the
//! byte-level models of `wire`, what it returns.
//!
//! Community project, not affiliated with or endorsed by PROFIBUS & PROFINET
//! International. "PROFINET" is a registered trademark of PNO.
use vstd::prelude::*;

pub mod capture;
pub mod data;
pub mod dcp;
pub mod eth;
pub mod wire;

verus! {

/// The crate version string.
pub open spec fn spec_version() -> Seq<char> {
    seq!['0', '.', '0', '.', '0']
}

/// Crate version.
pub fn version() -> (v: &'static str)
    ensures
        v@ == spec_version(),
{
    let v = "0.0.0";
    proof {
        reveal_strlit("0.0.0");
    }
    assert(v@ =~= spec_version());
    v
}

} // verus!
