use vstd::prelude::*;

verus! {

/// Why a raw command parameter was refused before anything was submitted.
#[derive(Debug, Clone, Copy, PartialEq, Eq, Structural)]
pub enum ParamError {
    InvalidSubnetId,
    InvalidAddress,
    InvalidCollateralAmount,
    InvalidPublicKeyEncoding,
}

} // verus!
