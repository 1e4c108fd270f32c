//! Account and actor addresses, parsed by fvm_shared.
use vstd::prelude::*;

use crate::errors::ParamError;

verus! {

#[verifier::external_type_specification]
#[verifier::external_body]
pub struct ExAddress(fvm_shared::address::Address);

#[verifier::external_type_specification]
#[verifier::external_body]
pub struct ExAddressError(fvm_shared::address::Error);

/// Relies on fvm_shared's `Address::from_str`. Whether text parses depends on
/// the process-wide current network (the first character names a network),
/// so nothing is stated of the outcome.
#[verifier::external_body]
fn address_from_str(s: &str) -> (r: Result<fvm_shared::address::Address, fvm_shared::address::Error>) {
    <fvm_shared::address::Address as std::str::FromStr>::from_str(s)
}

/// Parses an address; any failure of the parser is `InvalidAddress`.
pub fn parse_address(s: &str) -> (r: Result<fvm_shared::address::Address, ParamError>)
    ensures
        r matches Err(e) ==> e == ParamError::InvalidAddress,
{
    match address_from_str(s) {
        Ok(a) => Ok(a),
        Err(_) => Err(ParamError::InvalidAddress),
    }
}

/// Parses an optional sender: none stays none, text must parse.
pub fn parse_optional_address(s: &Option<String>) -> (r: Result<
    Option<fvm_shared::address::Address>,
    ParamError,
>)
    ensures
        s is None ==> (r matches Ok(a) && a is None),
        s is Some ==> (r matches Ok(a) ==> a is Some),
        r matches Err(e) ==> e == ParamError::InvalidAddress,
{
    match s {
        None => Ok(None),
        Some(text) => match parse_address(text.as_str()) {
            Ok(a) => Ok(Some(a)),
            Err(e) => Err(e),
        },
    }
}

} // verus!
