//! Where the mining kernel is read from.

use vstd::prelude::*;

verus! {

/// The environment names no kernel.
#[derive(Debug, Clone, Copy, PartialEq, Eq, Structural)]
pub struct KernelPathMissing;

impl KernelPathMissing {
    /// The message that is shown.
    pub fn message(&self) -> (r: String)
        ensures
            r@ == "MINER_JAM_PATH non défini"@,
    {
        "MINER_JAM_PATH non défini".to_owned()
    }
}

/// The path of the kernel, given what the environment variable
/// `MINER_JAM_PATH` holds, if it can be read.
pub fn kernel_path(variable: Option<String>) -> (r: Result<String, KernelPathMissing>)
    ensures
        match r {
            Ok(path) => variable == Some(path),
            Err(_) => variable is None,
        },
{
    match variable {
        Some(path) => Ok(path),
        None => Err(KernelPathMissing),
    }
}

} // verus!
