//! The `join` and `stake` commands: raw arguments checked and assembled into
//! requests, before anything is submitted.
use vstd::prelude::*;

use crate::address::parse_optional_address;
use crate::collateral::{collateral_units, to_collateral, valid_collateral, CollateralAmount};
use crate::errors::ParamError;
use crate::public_key::{decode_public_key, hex_bytes, is_hex_text};
use crate::subnet::{parse_subnet_id, split_slash, subnet_parts, subnet_syntax_ok, SubnetId};

verus! {

/// The command that joins a subnet.
pub struct JoinSubnet;

/// Arguments of `join`.
pub struct JoinSubnetArgs {
    /// The address that joins the subnet; none for the default signer.
    pub from: Option<String>,
    /// The subnet to join.
    pub subnet: String,
    /// The collateral in whole units, as the bit pattern of a binary64 float.
    pub collateral: u64,
    /// The validator's public key, hex encoded.
    pub public_key: String,
}

/// The command that adds collateral to a subnet already joined.
pub struct StakeSubnet;

/// Arguments of `stake`.
pub struct StakeSubnetArgs {
    /// The address that stakes; none for the default signer.
    pub from: Option<String>,
    /// The subnet to add collateral to.
    pub subnet: String,
    /// The collateral in whole units, as the bit pattern of a binary64 float.
    pub collateral: u64,
}

/// A checked request to join a subnet.
pub struct JoinRequest {
    pub subnet: SubnetId,
    pub from: Option<fvm_shared::address::Address>,
    pub collateral: CollateralAmount,
    pub public_key: Vec<u8>,
}

/// A checked request to add collateral to a subnet.
pub struct StakeRequest {
    pub subnet: SubnetId,
    pub from: Option<fvm_shared::address::Address>,
    pub collateral: CollateralAmount,
}

/// What the subnet text, sender and collateral of a request say, given the
/// raw values they came from.
pub open spec fn request_matches(
    subnet: &SubnetId,
    from: &Option<fvm_shared::address::Address>,
    collateral: CollateralAmount,
    subnet_text: Seq<char>,
    from_text: &Option<String>,
    collateral_bits: u64,
) -> bool {
    &&& split_slash(subnet_text) == subnet_parts(subnet@.0, subnet@.1)
    &&& (from_text is None <==> from is None)
    &&& collateral.atto == collateral_units(collateral_bits)
}

impl JoinSubnet {
    /// Checks the arguments of `join`, in this order: collateral, public key,
    /// subnet, sender; the first that fails gives the error.
    pub fn request(args: &JoinSubnetArgs) -> (r: Result<JoinRequest, ParamError>)
        ensures
            !valid_collateral(args.collateral) ==> r == Err::<JoinRequest, ParamError>(
                ParamError::InvalidCollateralAmount,
            ),
            valid_collateral(args.collateral) && !is_hex_text(args.public_key@) ==> r == Err::<
                JoinRequest,
                ParamError,
            >(ParamError::InvalidPublicKeyEncoding),
            valid_collateral(args.collateral) && is_hex_text(args.public_key@)
                && !subnet_syntax_ok(args.subnet@) ==> r == Err::<JoinRequest, ParamError>(
                ParamError::InvalidSubnetId,
            ),
            valid_collateral(args.collateral) && is_hex_text(args.public_key@) && subnet_syntax_ok(
                args.subnet@,
            ) && split_slash(args.subnet@).len() == 2 && args.from is None ==> r is Ok,
            valid_collateral(args.collateral) && is_hex_text(args.public_key@) ==> (r matches Err(
                e,
            ) ==> e == ParamError::InvalidSubnetId || e == ParamError::InvalidAddress),
            r matches Ok(q) ==> request_matches(
                &q.subnet,
                &q.from,
                q.collateral,
                args.subnet@,
                &args.from,
                args.collateral,
            ) && q.public_key@ == hex_bytes(args.public_key@),
    {
        let collateral = match to_collateral(args.collateral) {
            Ok(c) => c,
            Err(e) => {
                return Err(e);
            },
        };
        let public_key = match decode_public_key(args.public_key.as_str()) {
            Ok(k) => k,
            Err(e) => {
                return Err(e);
            },
        };
        let subnet = match parse_subnet_id(args.subnet.as_str()) {
            Ok(s) => s,
            Err(e) => {
                return Err(e);
            },
        };
        let from = match parse_optional_address(&args.from) {
            Ok(a) => a,
            Err(e) => {
                return Err(e);
            },
        };
        Ok(JoinRequest { subnet, from, collateral, public_key })
    }
}

impl StakeSubnet {
    /// Checks the arguments of `stake`, in this order: collateral, subnet,
    /// sender; the first that fails gives the error.
    pub fn request(args: &StakeSubnetArgs) -> (r: Result<StakeRequest, ParamError>)
        ensures
            !valid_collateral(args.collateral) ==> r == Err::<StakeRequest, ParamError>(
                ParamError::InvalidCollateralAmount,
            ),
            valid_collateral(args.collateral) && !subnet_syntax_ok(args.subnet@) ==> r == Err::<
                StakeRequest,
                ParamError,
            >(ParamError::InvalidSubnetId),
            valid_collateral(args.collateral) && subnet_syntax_ok(args.subnet@) && split_slash(
                args.subnet@,
            ).len() == 2 && args.from is None ==> r is Ok,
            valid_collateral(args.collateral) ==> (r matches Err(e) ==> e
                == ParamError::InvalidSubnetId || e == ParamError::InvalidAddress),
            r matches Ok(q) ==> request_matches(
                &q.subnet,
                &q.from,
                q.collateral,
                args.subnet@,
                &args.from,
                args.collateral,
            ),
    {
        let collateral = match to_collateral(args.collateral) {
            Ok(c) => c,
            Err(e) => {
                return Err(e);
            },
        };
        let subnet = match parse_subnet_id(args.subnet.as_str()) {
            Ok(s) => s,
            Err(e) => {
                return Err(e);
            },
        };
        let from = match parse_optional_address(&args.from) {
            Ok(a) => a,
            Err(e) => {
                return Err(e);
            },
        };
        Ok(StakeRequest { subnet, from, collateral })
    }
}

/// A command of the membership pipeline, with its raw arguments.
pub enum MembershipCommand {
    Join(JoinSubnetArgs),
    Stake(StakeSubnetArgs),
}

/// A checked request, ready to be submitted.
pub enum MembershipRequest {
    Join(JoinRequest),
    Stake(StakeRequest),
}

/// What a checked `join` command owes, whatever the address parser answers:
/// the errors found before any address is parsed, and success for a root-only
/// subnet and no sender.
pub open spec fn join_outcome_ok(a: &JoinSubnetArgs, r: Result<MembershipRequest, ParamError>) -> bool {
    &&& !valid_collateral(a.collateral) ==> r == Err::<MembershipRequest, ParamError>(
        ParamError::InvalidCollateralAmount,
    )
    &&& valid_collateral(a.collateral) && !is_hex_text(a.public_key@) ==> r == Err::<
        MembershipRequest,
        ParamError,
    >(ParamError::InvalidPublicKeyEncoding)
    &&& valid_collateral(a.collateral) && is_hex_text(a.public_key@) && !subnet_syntax_ok(
        a.subnet@,
    ) ==> r == Err::<MembershipRequest, ParamError>(ParamError::InvalidSubnetId)
    &&& valid_collateral(a.collateral) && is_hex_text(a.public_key@) ==> (r matches Err(e) ==> e
        == ParamError::InvalidSubnetId || e == ParamError::InvalidAddress)
    &&& valid_collateral(a.collateral) && is_hex_text(a.public_key@) && subnet_syntax_ok(a.subnet@)
        && split_slash(a.subnet@).len() == 2 && a.from is None ==> r is Ok
}

/// What a checked `stake` command owes, whatever the address parser answers.
pub open spec fn stake_outcome_ok(a: &StakeSubnetArgs, r: Result<MembershipRequest, ParamError>) -> bool {
    &&& !valid_collateral(a.collateral) ==> r == Err::<MembershipRequest, ParamError>(
        ParamError::InvalidCollateralAmount,
    )
    &&& valid_collateral(a.collateral) && !subnet_syntax_ok(a.subnet@) ==> r == Err::<
        MembershipRequest,
        ParamError,
    >(ParamError::InvalidSubnetId)
    &&& valid_collateral(a.collateral) ==> (r matches Err(e) ==> e == ParamError::InvalidSubnetId
        || e == ParamError::InvalidAddress)
    &&& valid_collateral(a.collateral) && subnet_syntax_ok(a.subnet@) && split_slash(a.subnet@).len()
        == 2 && a.from is None ==> r is Ok
}

impl MembershipCommand {
    /// Checks a command's arguments and builds its request; the request is of
    /// the command's own kind.
    pub fn validate(&self) -> (r: Result<MembershipRequest, ParamError>)
        ensures
            match self {
                MembershipCommand::Join(a) => join_outcome_ok(a, r),
                MembershipCommand::Stake(a) => stake_outcome_ok(a, r),
            },
            r matches Ok(q) ==> match self {
                MembershipCommand::Join(a) => q matches MembershipRequest::Join(j)
                    && request_matches(
                    &j.subnet,
                    &j.from,
                    j.collateral,
                    a.subnet@,
                    &a.from,
                    a.collateral,
                ) && j.public_key@ == hex_bytes(a.public_key@),
                MembershipCommand::Stake(a) => q matches MembershipRequest::Stake(t)
                    && request_matches(
                    &t.subnet,
                    &t.from,
                    t.collateral,
                    a.subnet@,
                    &a.from,
                    a.collateral,
                ),
            },
    {
        match self {
            MembershipCommand::Join(a) => match JoinSubnet::request(a) {
                Ok(q) => Ok(MembershipRequest::Join(q)),
                Err(e) => Err(e),
            },
            MembershipCommand::Stake(a) => match StakeSubnet::request(a) {
                Ok(q) => Ok(MembershipRequest::Stake(q)),
                Err(e) => Err(e),
            },
        }
    }
}

} // verus!
