use vstd::prelude::*;

verus! {

/// Lifecycle state of a signing request.
#[derive(Clone, Copy, Debug, PartialEq, Eq, Structural)]
pub enum Status {
    Pending,
    Approved,
    Executed,
    Rejected,
    Expired,
}

/// The external artifact layout an action type declares for its results.
#[derive(Clone, Copy, Debug, PartialEq, Eq, Structural)]
pub enum ArtifactFormat {
    /// An ECDSA `r || s` value re-encoded as a DER `SEQUENCE { INTEGER r, INTEGER s }`.
    EcdsaDer,
    /// An RSA PKCS#1 v1.5 signature, published as the raw big-endian value.
    RsaPkcs1,
    /// Public key material from key generation, published as the device returns it.
    RawKey,
    /// No output format is declared; such an action cannot be executed.
    Undeclared,
}

/// The device operation an action type performs.
#[derive(Clone, Copy, Debug, PartialEq, Eq, Structural)]
pub enum Operation {
    /// Sign the request's payload digest with the action's key.
    Sign,
    /// Generate a key pair in the slot the action's key reference names.
    GenerateKey,
}

/// A provisioned user. The id is the user's index in the engine's user table.
#[derive(Clone, Debug)]
pub struct User {
    pub id: u64,
    pub active: bool,
}

/// A kind of privileged operation together with its approval policy.
#[derive(Clone, Debug)]
pub struct ActionType {
    pub name: String,
    /// Required number of distinct eligible approvals.
    pub threshold: u64,
    /// Users allowed to approve requests of this kind.
    pub eligible: Vec<u64>,
    /// Length in bytes of the payload digest this action signs.
    pub digest_len: usize,
    /// Device-resident key the operation uses.
    pub key_ref: u16,
    pub operation: Operation,
    pub format: ArtifactFormat,
}

/// One approver's consent to one request.
#[derive(Clone, Debug)]
pub struct Approval {
    pub request: u64,
    pub approver: u64,
    pub signature: Vec<u8>,
    pub time: u64,
}

/// The outcome of a successful device call.
#[derive(Clone, Debug)]
pub struct SigningResult {
    pub request: u64,
    pub raw: Vec<u8>,
    pub artifact: Vec<u8>,
    pub created: u64,
}

pub open spec fn is_terminal(s: Status) -> bool {
    s == Status::Executed || s == Status::Rejected || s == Status::Expired
}

} // verus!
