//! The data model of the pipeline: verdicts and lookup failures.

use vstd::prelude::*;

verus! {

/// The existence outcome for one address: the address itself, and
/// whether the remote service confirmed an existing account for it.
#[derive(Debug)]
pub struct Verdict {
    pub address: Vec<u8>,
    pub exists: bool,
}

/// The mathematical value of a [`Verdict`].
#[verifier::ext_equal]
pub struct SpecVerdict {
    pub address: Seq<u8>,
    pub exists: bool,
}

impl View for Verdict {
    type V = SpecVerdict;

    open spec fn view(&self) -> SpecVerdict {
        SpecVerdict { address: self.address@, exists: self.exists }
    }
}

impl DeepView for Verdict {
    type V = SpecVerdict;

    open spec fn deep_view(&self) -> SpecVerdict {
        self@
    }
}

/// Why a lookup produced no verdict. A failed lookup leaves the
/// address's existence unknown; it never counts as "does not exist".
#[derive(Clone, Copy, Debug, PartialEq, Eq, Structural)]
pub enum LookupError {
    /// The request produced no response: network failure, unreachable
    /// or non-responsive host.
    Transport,
    /// A response arrived but its body did not carry the expected
    /// structure.
    Decode,
}

} // verus!
