//! FRC-0042 method selectors: stable method numbers derived from method names
//! through a BLAKE2b digest.
use frc42_dispatch::hash::{IllegalNameErr, MethodNameErr, MethodResolver};
use vstd::prelude::*;

verus! {

/// The 64-byte BLAKE2b digest of a byte string.
pub uninterp spec fn blake2b512_of(data: Seq<u8>) -> Seq<u8>;

/// The BLAKE2b hasher by which FRC-0042 method numbers are defined.
pub struct Blake2bHasher;

impl frc42_dispatch::hash::Hasher for Blake2bHasher {
    /// Relies on blake2b_simd::blake2b: the default-parameter BLAKE2b digest
    /// of the input, 64 bytes long, a function of the input alone.
    #[verifier::external_body]
    fn hash(&self, bytes: &[u8]) -> (r: Vec<u8>)
        ensures
            r@ == blake2b512_of(bytes@),
            r@.len() == 64,
    {
        blake2b_simd::blake2b(bytes).as_bytes().to_vec()
    }
}

/// Why no method number can be derived from a name.
#[derive(Debug, Clone, Copy, PartialEq, Eq, Structural)]
pub enum MethodNameError {
    EmptyName,
    /// The first character is neither an upper-case ASCII letter nor `_`.
    NotValidStart,
    /// A character lies outside `[a-zA-Z0-9_]`.
    IllegalCharacters,
    /// No four-byte chunk of the digest reaches the first method number.
    IndeterminableId,
}

/// A selector that names no method of a table.
#[derive(Debug, Clone, Copy, PartialEq, Eq, Structural)]
pub enum DispatchError {
    UnknownMethod,
}

/// The method number reserved for the constructor.
pub const CONSTRUCTOR_METHOD_NUMBER: u64 = 1;

/// Method numbers below this one are reserved.
pub const FIRST_METHOD_NUMBER: u64 = 0x100_0000;

pub open spec fn constructor_name() -> Seq<char> {
    seq!['C', 'o', 'n', 's', 't', 'r', 'u', 'c', 't', 'o', 'r']
}

pub open spec fn is_name_start(c: char) -> bool {
    ('A' <= c && c <= 'Z') || c == '_'
}

pub open spec fn is_name_char(c: char) -> bool {
    ('A' <= c && c <= 'Z') || ('a' <= c && c <= 'z') || ('0' <= c && c <= '9') || c == '_'
}

/// The first reason, in the order they are checked, why `n` is no method name.
pub open spec fn name_error(n: Seq<char>) -> Option<MethodNameError> {
    if n.len() == 0 {
        Some(MethodNameError::EmptyName)
    } else if !is_name_start(n[0]) {
        Some(MethodNameError::NotValidStart)
    } else if !(forall|i: int| 0 <= i < n.len() ==> is_name_char(#[trigger] n[i])) {
        Some(MethodNameError::IllegalCharacters)
    } else {
        None
    }
}

/// What is hashed for a (valid, hence ASCII) name: `1|` and the name.
pub open spec fn hash_input(n: Seq<char>) -> Seq<u8> {
    seq![0x31u8, 0x7cu8] + Seq::new(n.len(), |i: int| n[i] as u8)
}

/// The `k`-th four-byte chunk of a digest, read big-endian.
pub open spec fn chunk_value(d: Seq<u8>, k: int) -> int {
    d[4 * k] as int * 0x100_0000 + d[4 * k + 1] as int * 0x1_0000 + d[4 * k + 2] as int * 0x100
        + d[4 * k + 3] as int
}

/// The first whole chunk from the `k`-th on that is not reserved.
pub open spec fn first_method_chunk(d: Seq<u8>, k: nat) -> Option<u64>
    decreases d.len() - 4 * k,
{
    if 4 * k + 4 > d.len() {
        None
    } else if chunk_value(d, k as int) >= FIRST_METHOD_NUMBER {
        Some(chunk_value(d, k as int) as u64)
    } else {
        first_method_chunk(d, k + 1)
    }
}

/// The method number of name `n`, given the digest `d` of its hash input.
pub open spec fn selector_with_digest(n: Seq<char>, d: Seq<u8>) -> Result<u64, MethodNameError> {
    match name_error(n) {
        Some(e) => Err(e),
        None => if n == constructor_name() {
            Ok(CONSTRUCTOR_METHOD_NUMBER)
        } else {
            match first_method_chunk(d, 0) {
                Some(v) => Ok(v),
                None => Err(MethodNameError::IndeterminableId),
            }
        },
    }
}

/// The method number of name `n`.
pub open spec fn method_selector(n: Seq<char>) -> Result<u64, MethodNameError> {
    selector_with_digest(n, blake2b512_of(hash_input(n)))
}

/// Relies on frc42's `MethodResolver::method_number` with the BLAKE2b hasher
/// above: it checks the name (empty; first character not in `[A-Z_]`; a
/// character outside `[a-zA-Z0-9_]`, in that order), gives `Constructor`
/// number one, and otherwise hashes `1|` and the name and takes the first
/// big-endian four-byte chunk of the digest that is not reserved, failing
/// when there is none. Its errors are carried over variant by variant.
#[verifier::external_body]
fn frc42_method_number(name: &str) -> (r: Result<u64, MethodNameError>)
    ensures
        r == selector_with_digest(name@, blake2b512_of(hash_input(name@))),
{
    match MethodResolver::new(Blake2bHasher).method_number(name) {
        Ok(n) => Ok(n),
        Err(MethodNameErr::EmptyString) => Err(MethodNameError::EmptyName),
        Err(MethodNameErr::IllegalName(IllegalNameErr::NotValidStart)) => Err(MethodNameError::NotValidStart),
        Err(MethodNameErr::IllegalName(IllegalNameErr::IllegalCharacters)) => Err(MethodNameError::IllegalCharacters),
        Err(MethodNameErr::IndeterminableId) => Err(MethodNameError::IndeterminableId),
    }
}

/// The method number of a name: a pure function of the name.
pub fn selector_of(name: &str) -> (r: Result<u64, MethodNameError>)
    ensures
        r == method_selector(name@),
{
    frc42_method_number(name)
}

/// The same name always yields the same method number.
pub proof fn lemma_selector_deterministic(a: Seq<char>, b: Seq<char>)
    requires
        a == b,
    ensures
        method_selector(a) == method_selector(b),
{
}

} // verus!
