//! Routing a method selector to the handler registered under a method name.
use vstd::prelude::*;

use crate::selector::{method_selector, selector_of, DispatchError, MethodNameError};

verus! {

/// The name of the actor that exposes custom syscalls.
pub const CUSTOMSYSCALL_ACTOR_NAME: &'static str = "customsyscall";

pub open spec fn invoke_name() -> Seq<char> {
    seq!['I', 'n', 'v', 'o', 'k', 'e']
}

/// The methods of the custom-syscall actor.
#[derive(Debug, Clone, Copy, PartialEq, Eq, Structural)]
pub enum Method {
    Invoke,
}

impl Method {
    pub open spec fn spec_name(self) -> Seq<char> {
        match self {
            Method::Invoke => invoke_name(),
        }
    }

    /// The method's name, whose selector identifies it on chain.
    pub fn name(&self) -> (r: &'static str)
        ensures
            r@ == self.spec_name(),
    {
        proof {
            reveal_strlit("Invoke");
        }
        match self {
            Method::Invoke => "Invoke",
        }
    }

    /// The method's selector.
    pub fn selector(&self) -> (r: Result<u64, MethodNameError>)
        ensures
            r == method_selector(self.spec_name()),
    {
        selector_of(self.name())
    }

    /// The method whose selector is `selector`.
    pub fn from_selector(selector: u64) -> (r: Result<Method, DispatchError>)
        ensures
            r matches Ok(m) ==> method_selector(m.spec_name()) == Ok::<u64, MethodNameError>(
                selector,
            ),
            r is Err <==> forall|m: Method|
                method_selector(#[trigger] m.spec_name()) != Ok::<u64, MethodNameError>(selector),
            r matches Err(e) ==> e == DispatchError::UnknownMethod,
    {
        match Method::Invoke.selector() {
            Ok(s) => {
                if s == selector {
                    return Ok(Method::Invoke);
                }
            },
            Err(_) => {},
        }
        assert forall|m: Method|
            method_selector(#[trigger] m.spec_name()) != Ok::<u64, MethodNameError>(selector) by {
            assert(m == Method::Invoke);
        }
        Err(DispatchError::UnknownMethod)
    }
}

/// Why a method could not be added to a table.
#[derive(Debug, Clone, Copy, PartialEq, Eq, Structural)]
pub enum RegisterError {
    /// The name yields no selector.
    InvalidName(MethodNameError),
    /// The name's selector is already registered.
    Collision,
}

/// One registered method.
pub struct MethodEntry<H> {
    pub name: String,
    pub selector: u64,
    pub handler: H,
}

/// A table from selectors to handlers, filled once when an actor starts.
/// Every selector in it is that of the name it was registered under, and no
/// two entries share a selector.
pub struct MethodTable<H> {
    entries: Vec<MethodEntry<H>>,
}

impl<H> View for MethodTable<H> {
    /// The entries in order of registration: name, selector, handler.
    type V = Seq<(Seq<char>, u64, H)>;

    closed spec fn view(&self) -> Self::V {
        self.entries@.map_values(|e: MethodEntry<H>| (e.name@, e.selector, e.handler))
    }
}

/// Some entry of `t` has selector `s`.
pub open spec fn has_selector<H>(t: Seq<(Seq<char>, u64, H)>, s: u64) -> bool {
    exists|i: int| 0 <= i < t.len() && (#[trigger] t[i]).1 == s
}

impl<H> MethodTable<H> {
    pub open spec fn wf(&self) -> bool {
        &&& forall|i: int|
            0 <= i < self@.len() ==> method_selector((#[trigger] self@[i]).0) == Ok::<
                u64,
                MethodNameError,
            >(self@[i].1)
        &&& forall|i: int, j: int|
            0 <= i < self@.len() && 0 <= j < self@.len() && i != j ==> (#[trigger] self@[i]).1
                != (#[trigger] self@[j]).1
    }

    /// The handler registered under selector `s`, if any.
    pub open spec fn spec_resolve(&self, s: u64) -> Option<H> {
        if has_selector(self@, s) {
            Some(self@[choose|i: int| 0 <= i < self@.len() && (#[trigger] self@[i]).1 == s].2)
        } else {
            None
        }
    }

    pub fn new() -> (r: Self)
        ensures
            r.wf(),
            r@ == Seq::<(Seq<char>, u64, H)>::empty(),
    {
        let r = MethodTable { entries: Vec::new() };
        assert(r@ =~= Seq::<(Seq<char>, u64, H)>::empty());
        r
    }

    pub fn len(&self) -> (r: usize)
        ensures
            r == self@.len(),
    {
        self.entries.len()
    }

    fn find(&self, selector: u64) -> (r: Option<usize>)
        ensures
            r matches Some(i) ==> i < self@.len() && self@[i as int].1 == selector,
            r is None <==> !has_selector(self@, selector),
    {
        let mut i: usize = 0;
        while i < self.entries.len()
            invariant
                i <= self.entries@.len(),
                forall|j: int| 0 <= j < i ==> (#[trigger] self@[j]).1 != selector,
            decreases self.entries@.len() - i,
        {
            if self.entries[i].selector == selector {
                assert(self@[i as int].1 == selector);
                return Some(i);
            }
            i = i + 1;
        }
        None
    }

    /// Registers `handler` under `name`, returning the name's selector. A name
    /// that yields no selector, or whose selector is already registered, is
    /// refused and the table is left as it was.
    pub fn register(&mut self, name: &str, handler: H) -> (r: Result<u64, RegisterError>)
        requires
            old(self).wf(),
        ensures
            final(self).wf(),
            match method_selector(name@) {
                Err(e) => r == Err::<u64, RegisterError>(RegisterError::InvalidName(e))
                    && final(self)@ == old(self)@,
                Ok(s) => if has_selector(old(self)@, s) {
                    r == Err::<u64, RegisterError>(RegisterError::Collision) && final(self)@
                        == old(self)@
                } else {
                    r == Ok::<u64, RegisterError>(s) && final(self)@ == old(self)@.push(
                        (name@, s, handler),
                    )
                },
            },
    {
        let s = match selector_of(name) {
            Ok(s) => s,
            Err(e) => {
                return Err(RegisterError::InvalidName(e));
            },
        };
        if self.find(s).is_some() {
            return Err(RegisterError::Collision);
        }
        let entry = MethodEntry { name: name.to_owned(), selector: s, handler };
        self.entries.push(entry);
        assert(self@ =~= old(self)@.push((name@, s, handler)));
        Ok(s)
    }

    /// The handler registered under `selector`.
    pub fn resolve(&self, selector: u64) -> (r: Result<&H, DispatchError>)
        requires
            self.wf(),
        ensures
            match r {
                Ok(h) => self.spec_resolve(selector) == Some(*h),
                Err(e) => self.spec_resolve(selector) is None && e == DispatchError::UnknownMethod,
            },
    {
        match self.find(selector) {
            Some(i) => {
                let i_ghost = Ghost(i as int);
                proof {
                    let c = choose|j: int| 0 <= j < self@.len() && (#[trigger] self@[j]).1 == selector;
                    assert(c == i_ghost@);
                }
                Ok(&self.entries[i].handler)
            },
            None => Err(DispatchError::UnknownMethod),
        }
    }
}

/// A handler registered under a name is found again by that name's selector.
pub proof fn lemma_registered_name_resolves<H>(t: MethodTable<H>, i: int)
    requires
        t.wf(),
        0 <= i < t@.len(),
    ensures
        method_selector(t@[i].0) == Ok::<u64, MethodNameError>(t@[i].1),
        t.spec_resolve(t@[i].1) == Some(t@[i].2),
{
    assert(has_selector(t@, t@[i].1));
    let c = choose|j: int| 0 <= j < t@.len() && (#[trigger] t@[j]).1 == t@[i].1;
    assert(c == i);
}

/// A selector that no registered name yields resolves to nothing.
pub proof fn lemma_unregistered_selector_unknown<H>(t: MethodTable<H>, s: u64)
    requires
        t.wf(),
        forall|i: int|
            0 <= i < t@.len() ==> method_selector((#[trigger] t@[i]).0) != Ok::<
                u64,
                MethodNameError,
            >(s),
    ensures
        t.spec_resolve(s) is None,
{
    if has_selector(t@, s) {
        let i = choose|j: int| 0 <= j < t@.len() && (#[trigger] t@[j]).1 == s;
        assert(method_selector(t@[i].0) == Ok::<u64, MethodNameError>(s));
    }
}

} // verus!
