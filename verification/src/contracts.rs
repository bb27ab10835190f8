//! Contract routing chosen at the command-line boundary: which families a
//! command targets and how strictly a check judges them.

use vstd::prelude::*;

verus! {

/// Contract families a top-level command targets.
#[derive(Clone, Copy, Debug, PartialEq, Eq, Structural)]
pub enum ContractTarget {
    /// Every family this tool supports.
    All,
    /// Signature contracts only.
    Signatures,
    /// Sketch contracts only.
    Sketches,
}

/// How a contract check judges diagnostics.
#[derive(Clone, Copy, Debug, PartialEq, Eq, Structural)]
pub enum ContractCheckMode {
    /// Permit signature capability warnings while enforcing sketch diagnostics.
    Default,
    /// Require a diagnostic-free signature check and enforce sketch diagnostics.
    Strict,
    /// Retain diagnostics while letting the check pass.
    Warning,
}

impl ContractCheckMode {
    /// The mode the check flags select: `--strict` first, then
    /// `--warning`, else the default.
    pub fn select(strict: bool, warning: bool) -> (m: Self)
        ensures
            strict ==> m == ContractCheckMode::Strict,
            !strict && warning ==> m == ContractCheckMode::Warning,
            !strict && !warning ==> m == ContractCheckMode::Default,
    {
        if strict {
            ContractCheckMode::Strict
        } else if warning {
            ContractCheckMode::Warning
        } else {
            ContractCheckMode::Default
        }
    }

    /// Sketch diagnostics are enforced in every mode but warning.
    pub fn enforces_sketches(self) -> (r: bool)
        ensures
            r == (self != ContractCheckMode::Warning),
    {
        !matches!(self, ContractCheckMode::Warning)
    }
}

} // verus!
