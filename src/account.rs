use vstd::prelude::*;

verus! {

/// Estimate of what sending an amount would take.
#[derive(Clone, Copy, Debug, Default)]
pub struct Estimate {
    pub total_sompi: u64,
    pub fees_sompi: u64,
    pub utxos: usize,
    pub transactions: usize,
}

/// How far an address scan goes.
#[derive(Clone, Copy, Debug, PartialEq, Eq, Structural, Default)]
pub enum ScanExtent {
    /// Until a window of addresses with no outputs is found.
    #[default]
    EmptyWindow,
    /// Until a given derivation index.
    Depth(u32),
}

} // verus!
