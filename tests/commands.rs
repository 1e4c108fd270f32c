use ipc_membership::command::{
    JoinSubnet, JoinSubnetArgs, MembershipCommand, MembershipRequest, StakeSubnet,
    StakeSubnetArgs,
};
use ipc_membership::errors::ParamError;

fn join_args(from: Option<&str>, subnet: &str, collateral: f64, key: &str) -> JoinSubnetArgs {
    JoinSubnetArgs {
        from: from.map(|s| s.to_string()),
        subnet: subnet.to_string(),
        collateral: collateral.to_bits(),
        public_key: key.to_string(),
    }
}

fn stake_args(from: Option<&str>, subnet: &str, collateral: f64) -> StakeSubnetArgs {
    StakeSubnetArgs {
        from: from.map(|s| s.to_string()),
        subnet: subnet.to_string(),
        collateral: collateral.to_bits(),
    }
}

#[test]
fn join_builds_request() {
    let q = JoinSubnet::request(&join_args(None, "/r123/f0456", 2.5, "04ab")).unwrap();
    assert_eq!(q.public_key, vec![0x04, 0xab]);
    assert_eq!(q.public_key.len(), 2);
    assert_eq!(q.collateral.atto, 2_500_000_000_000_000_000);
    assert!(q.from.is_none());
    assert_eq!(q.subnet.to_string(), "/r123/f0456");
}

#[test]
fn stake_with_negative_collateral_fails_first() {
    let r = StakeSubnet::request(&stake_args(Some("t1abc"), "/r123/f0456", -1.0));
    assert_eq!(r.err(), Some(ParamError::InvalidCollateralAmount));
}

#[test]
fn join_errors_in_order() {
    let r = JoinSubnet::request(&join_args(Some("bogus"), "/bad", f64::NAN, "zz"));
    assert_eq!(r.err(), Some(ParamError::InvalidCollateralAmount));
    let r = JoinSubnet::request(&join_args(Some("bogus"), "/bad", 1.0, "zz"));
    assert_eq!(r.err(), Some(ParamError::InvalidPublicKeyEncoding));
    let r = JoinSubnet::request(&join_args(Some("bogus"), "/bad", 1.0, "04ab"));
    assert_eq!(r.err(), Some(ParamError::InvalidSubnetId));
    let r = JoinSubnet::request(&join_args(Some("bogus"), "/r1", 1.0, "04ab"));
    assert_eq!(r.err(), Some(ParamError::InvalidAddress));
    let q = JoinSubnet::request(&join_args(Some("f0100"), "/r1", 1.0, "04ab")).unwrap();
    assert!(q.from.is_some());
}

#[test]
fn stake_builds_request() {
    let q = StakeSubnet::request(&stake_args(Some("f0100"), "/r123/f0456", 0.5)).unwrap();
    assert_eq!(q.collateral.atto, 500_000_000_000_000_000);
    assert!(q.from.is_some());
    assert_eq!(q.subnet.root_id(), 123);
    let r = StakeSubnet::request(&stake_args(None, "/r123/f0456", 3e9));
    assert_eq!(r.err(), Some(ParamError::InvalidCollateralAmount));
    let r = StakeSubnet::request(&stake_args(Some("t1abc"), "/r123/f0456", 1.0));
    assert_eq!(r.err(), Some(ParamError::InvalidAddress));
}

#[test]
fn commands_validate_to_their_own_kind() {
    let j = MembershipCommand::Join(join_args(None, "/r123/f0456", 2.5, "04ab"));
    assert!(matches!(j.validate(), Ok(MembershipRequest::Join(_))));
    let s = MembershipCommand::Stake(stake_args(None, "/r123/f0456", 2.5));
    assert!(matches!(s.validate(), Ok(MembershipRequest::Stake(_))));
    let bad = MembershipCommand::Stake(stake_args(None, "/r123/f0456", -1.0));
    assert!(matches!(bad.validate(), Err(ParamError::InvalidCollateralAmount)));
}

#[test]
fn root_only_subnet_without_sender_succeeds() {
    let q = JoinSubnet::request(&join_args(None, "/r314159", 1.0, "")).unwrap();
    assert_eq!(q.subnet.to_string(), "/r314159");
    assert!(q.public_key.is_empty());
    let q = StakeSubnet::request(&stake_args(None, "/r314159", 0.0)).unwrap();
    assert_eq!(q.collateral.atto, 0);
    let c = MembershipCommand::Stake(stake_args(None, "/r7", 1.0));
    assert!(matches!(c.validate(), Ok(MembershipRequest::Stake(_))));
}
