//! Hardware capability figures, as plain values; probing them is the
//! surrounding program's work.

use vstd::prelude::*;

verus! {

/// What the machine offers.
#[derive(Debug, Clone, Copy)]
pub struct HardwareCaps {
    pub has_avx2: bool,
    pub has_neon: bool,
    pub has_io_uring: bool,
    pub has_ebpf: bool,
    pub ram_gb: u64,
    pub cpu_cores: usize,
}

} // verus!
