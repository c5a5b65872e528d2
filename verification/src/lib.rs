//! Command line front ends of the FASM tools: argument parsing that
//! reproduces Python's argparse and gflags, Python string semantics, and the
//! pure computations of the Xilinx tools.

use vstd::prelude::*;

pub mod argparse;
pub mod bitread;
pub mod db_cache;
pub mod fasm2frames;
pub mod gflags;
pub mod pystr;
pub mod terminal;
pub mod text;
pub mod tool;
pub mod unicode;
pub mod uray_fasm2frames;
pub mod xc7frames2bit;
pub mod xcfasm;

verus! {

} // verus!
