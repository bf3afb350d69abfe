use vstd::prelude::*;

verus! {

/// One-shot configuration for an engine handle; the only recognized
/// option enables model generation, which every call site that reads
/// back concrete values must set.
#[derive(Clone, Copy, Debug)]
pub struct Config {
    /// Whether a satisfying assignment may be read back after a check.
    pub model: bool,
}

impl Config {
    /// A configuration with model generation disabled.
    pub fn new() -> (r: Config)
        ensures
            !r.model,
    {
        Config { model: false }
    }

    /// Enable model generation.
    pub fn enable_model(self) -> (r: Config)
        ensures
            r.model,
    {
        Config { model: true }
    }
}

} // verus!
