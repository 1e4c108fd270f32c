use ipc_membership::dispatch::{Method, MethodTable, RegisterError, CUSTOMSYSCALL_ACTOR_NAME};
use ipc_membership::selector::{selector_of, DispatchError, MethodNameError};

#[test]
fn constructor_is_method_one() {
    assert_eq!(selector_of("Constructor"), Ok(1));
}

#[test]
fn known_selectors() {
    assert_eq!(selector_of("Receive"), Ok(3726118371));
    assert_eq!(selector_of("Invoke"), Ok(3929173870));
    assert_eq!(selector_of("Transfer"), Ok(80475954));
}

#[test]
fn selector_is_deterministic() {
    let a = selector_of("Invoke");
    let b = selector_of("Invoke");
    assert_eq!(a, b);
    assert_ne!(selector_of("Invoke"), selector_of("Transfer"));
}

#[test]
fn invalid_method_names() {
    assert_eq!(selector_of(""), Err(MethodNameError::EmptyName));
    assert_eq!(selector_of("invoke"), Err(MethodNameError::NotValidStart));
    assert_eq!(selector_of("Inv-oke"), Err(MethodNameError::IllegalCharacters));
    assert_eq!(selector_of("Invoké"), Err(MethodNameError::IllegalCharacters));
    assert!(selector_of("_Private9").is_ok());
}

#[test]
fn invoke_method_round_trips_through_its_selector() {
    assert_eq!(Method::Invoke.name(), "Invoke");
    assert_eq!(CUSTOMSYSCALL_ACTOR_NAME, "customsyscall");
    let s = Method::Invoke.selector().unwrap();
    assert_eq!(s, 3929173870);
    assert_eq!(Method::from_selector(s), Ok(Method::Invoke));
    assert_eq!(Method::from_selector(7), Err(DispatchError::UnknownMethod));
}

#[test]
fn table_resolves_registered_handlers() {
    let mut t: MethodTable<&str> = MethodTable::new();
    assert_eq!(t.register("Invoke", "invoke handler"), Ok(3929173870));
    assert_eq!(t.register("Transfer", "transfer handler"), Ok(80475954));
    assert_eq!(t.len(), 2);
    assert_eq!(t.resolve(selector_of("Invoke").unwrap()), Ok(&"invoke handler"));
    assert_eq!(t.resolve(selector_of("Transfer").unwrap()), Ok(&"transfer handler"));
    assert_eq!(t.resolve(42), Err(DispatchError::UnknownMethod));
    assert_eq!(
        t.resolve(selector_of("Receive").unwrap()),
        Err(DispatchError::UnknownMethod)
    );
}

#[test]
fn table_refuses_collisions_and_bad_names() {
    let mut t: MethodTable<u32> = MethodTable::new();
    assert_eq!(t.register("Invoke", 1), Ok(3929173870));
    assert_eq!(t.register("Invoke", 2), Err(RegisterError::Collision));
    assert_eq!(
        t.register("bad", 3),
        Err(RegisterError::InvalidName(MethodNameError::NotValidStart))
    );
    assert_eq!(t.len(), 1);
    assert_eq!(t.resolve(3929173870), Ok(&1));
}
