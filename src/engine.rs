use vstd::prelude::*;

use crate::encoder::{encode, encode_spec, EncodeError};
use crate::policy::{count_eligible, eligible, is_eligible, satisfied, tally};
use crate::types::{ActionType, Approval, ArtifactFormat, Operation, SigningResult, Status, User, is_terminal};

verus! {

/// Why a device invocation did not yield a result.
#[derive(Clone, Copy, Debug, PartialEq, Eq, Structural)]
pub enum DeviceFailure {
    /// The device could not be reached; the request stays retryable.
    Unreachable,
    /// The session credential was refused; the request stays retryable.
    AuthFailed,
    /// The device refused the operation itself (e.g. a bad digest length).
    OperationRejected,
    /// The device answered with a value the action's format cannot encode.
    MalformedResult,
}

/// What the device returned for one session-bearing call.
#[derive(Clone, Debug)]
pub enum DeviceOutcome {
    Completed(Vec<u8>),
    Failed(DeviceFailure),
}

/// A signing request and everything recorded about it.
#[derive(Clone, Debug)]
pub struct SigningRequest {
    pub id: u64,
    /// Index of the action type in the engine's action table.
    pub action: u64,
    /// The digest to sign (empty for actions that generate a key).
    pub payload: Vec<u8>,
    pub requester: u64,
    pub created: u64,
    pub status: Status,
    /// Set while a device call for this request is under way.
    pub in_flight: bool,
    pub approvals: Vec<Approval>,
    pub result: Option<SigningResult>,
    /// Number of failed device invocations, kept for audit.
    pub failures: u64,
    pub last_failure: Option<DeviceFailure>,
}

/// The request store together with the user and action tables it is checked against.
#[derive(Clone, Debug)]
pub struct Engine {
    pub users: Vec<User>,
    pub actions: Vec<ActionType>,
    pub requests: Vec<SigningRequest>,
    /// Time after creation at which a pending request may be expired.
    pub ttl: u64,
}

#[derive(Clone, Copy, Debug, PartialEq, Eq, Structural)]
pub enum CreateError {
    UnsupportedActionType,
    InvalidPayload,
}

#[derive(Clone, Copy, Debug, PartialEq, Eq, Structural)]
pub enum ApprovalError {
    UnknownRequest,
    RequestNotPending,
    UnauthorizedApprover,
    BadSignature,
    DuplicateApproval,
}


#[derive(Clone, Copy, Debug, PartialEq, Eq, Structural)]
pub enum TransitionError {
    UnknownRequest,
    RequestNotPending,
    NotYetExpired,
}

#[derive(Clone, Copy, Debug, PartialEq, Eq, Structural)]
pub enum ExecError {
    UnknownRequest,
    /// The request is not in the Approved state.
    NotApproved,
    /// A device call for the request is already under way.
    InFlight,
    /// No device call for the request is under way.
    NotInFlight,
}

#[derive(Clone, Copy, Debug, PartialEq, Eq, Structural)]
pub enum FetchError {
    UnknownRequest,
    NotReady,
    Rejected,
    Expired,
}

/// What the device is asked to do for a claimed request.
#[derive(Clone, Debug)]
pub struct DeviceOrder {
    pub request: u64,
    pub operation: Operation,
    pub key_ref: u16,
    pub digest: Vec<u8>,
}

/// `x + 1`, held at the largest `u64`.
pub open spec fn bump(x: u64) -> u64 {
    if x < u64::MAX {
        (x + 1) as u64
    } else {
        x
    }
}

/// Whether a device failure leaves the request retryable.
pub open spec fn is_transient(f: DeviceFailure) -> bool {
    f == DeviceFailure::Unreachable || f == DeviceFailure::AuthFailed
}

/// `o` after the failed device call `f`.
pub open spec fn after_failure(o: SigningRequest, f: DeviceFailure) -> SigningRequest {
    SigningRequest {
        status: if is_transient(f) {
            o.status
        } else {
            Status::Rejected
        },
        in_flight: false,
        failures: bump(o.failures),
        last_failure: Some(f),
        ..o
    }
}

/// `new` is `old` with request `req` replaced by `n`.
pub open spec fn request_replaced(old: Engine, new: Engine, req: int, n: SigningRequest) -> bool {
    &&& only_request_changed(old, new, req)
    &&& new.requests@[req] == n
}

/// The tally and state reported after an accepted approval.
#[derive(Clone, Copy, Debug, PartialEq, Eq, Structural)]
pub struct Submission {
    pub tally: u64,
    pub status: Status,
}

pub open spec fn approvers_of(r: SigningRequest) -> Seq<u64> {
    r.approvals@.map_values(|a: Approval| a.approver)
}

pub open spec fn action_of(e: Engine, r: SigningRequest) -> ActionType {
    e.actions@[r.action as int]
}

pub open spec fn tally_of(e: Engine, r: SigningRequest) -> nat {
    tally(action_of(e, r), r.requester, approvers_of(r))
}

pub open spec fn threshold_met(e: Engine, r: SigningRequest) -> bool {
    satisfied(action_of(e, r), r.requester, approvers_of(r))
}

/// Invariant of one stored request.
pub open spec fn request_wf(e: Engine, i: int) -> bool {
    let r = e.requests@[i];
    &&& r.id == i
    &&& r.action < e.actions.len()
    &&& r.payload.len() == action_of(e, r).digest_len
    &&& forall|k: int| 0 <= k < r.approvals.len() ==> (#[trigger] r.approvals@[k]).request == i
    &&& forall|k: int| 0 <= k < r.approvals.len() ==> eligible(action_of(e, r), r.requester, #[trigger] r.approvals@[k].approver)
    &&& forall|j: int, k: int| 0 <= j < k < r.approvals.len() ==> r.approvals@[j].approver != r.approvals@[k].approver
    &&& (r.status == Status::Pending ==> !threshold_met(e, r))
    &&& (r.status == Status::Approved || r.status == Status::Executed ==> threshold_met(e, r))
    &&& (r.result.is_some() <==> r.status == Status::Executed)
    &&& (r.in_flight ==> r.status == Status::Approved)
    &&& (r.result matches Some(res) ==> res.request == i && encode_spec(action_of(e, r).format, res.raw@) == Ok::<Seq<u8>, EncodeError>(res.artifact@))
}


/// Whether `r` holds an approval by `u` with exactly the signature `sig`.
pub open spec fn has_signature(r: SigningRequest, u: u64, sig: Seq<u8>) -> bool {
    exists|k: int| 0 <= k < r.approvals.len() && r.approvals@[k].approver == u && r.approvals@[k].signature@ == sig
}

/// `n` is `o` with the approval `a` appended and, where the new tally reaches the
/// threshold of a pending request, the status moved to Approved.
pub open spec fn approval_appended(e: Engine, o: SigningRequest, n: SigningRequest, a: Approval) -> bool {
    &&& n.approvals@ == o.approvals@.push(a)
    &&& n.status == if o.status == Status::Pending && threshold_met(e, n) {
        Status::Approved
    } else {
        o.status
    }
    &&& n == (SigningRequest { approvals: n.approvals, status: n.status, ..o })
}

/// `new` differs from `old` at most in request `req`.
pub open spec fn only_request_changed(old: Engine, new: Engine, req: int) -> bool {
    &&& new.users == old.users
    &&& new.actions == old.actions
    &&& new.ttl == old.ttl
    &&& new.requests.len() == old.requests.len()
    &&& forall|j: int| 0 <= j < old.requests.len() && j != req ==> new.requests@[j] == old.requests@[j]
}

/// `new` is `old` after recording `approver`'s first approval of `req`.
pub open spec fn approval_recorded(old: Engine, new: Engine, req: u64, approver: u64, sig: Seq<u8>, now: u64) -> bool {
    &&& only_request_changed(old, new, req as int)
    &&& new.requests@[req as int].approvals@.last().signature@ == sig
    &&& approval_appended(new, old.requests@[req as int], new.requests@[req as int], Approval {
        request: req,
        approver,
        signature: new.requests@[req as int].approvals@.last().signature,
        time: now,
    })
}

fn bytes_equal(a: &Vec<u8>, b: &Vec<u8>) -> (r: bool)
    ensures
        r == (a@ == b@),
{
    if a.len() != b.len() {
        return false;
    }
    let mut i: usize = 0;
    while i < a.len()
        invariant
            i <= a.len() == b.len(),
            forall|j: int| 0 <= j < i ==> a@[j] == b@[j],
        decreases a.len() - i,
    {
        if a[i] != b[i] {
            return false;
        }
        i += 1;
    }
    assert(a@ =~= b@);
    true
}

/// The approvers of `r`, in the order their approvals were recorded.
pub fn approver_list(r: &SigningRequest) -> (v: Vec<u64>)
    ensures
        v@ == approvers_of(*r),
{
    let mut v: Vec<u64> = Vec::new();
    let mut i: usize = 0;
    while i < r.approvals.len()
        invariant
            i <= r.approvals.len(),
            v@ == r.approvals@.subrange(0, i as int).map_values(|a: Approval| a.approver),
        decreases r.approvals.len() - i,
    {
        v.push(r.approvals[i].approver);
        assert(r.approvals@.subrange(0, i + 1).map_values(|a: Approval| a.approver)
            =~= r.approvals@.subrange(0, i as int).map_values(|a: Approval| a.approver).push(r.approvals@[i as int].approver));
        i += 1;
    }
    assert(r.approvals@.subrange(0, i as int) =~= r.approvals@);
    v
}

proof fn lemma_tally_push(action: ActionType, requester: u64, s: Seq<u64>, u: u64)
    ensures
        tally(action, requester, s.push(u)) == tally(action, requester, s) + if eligible(action, requester, u) && !s.contains(u) {
            1nat
        } else {
            0nat
        },
{
    assert(s.push(u).drop_last() =~= s);
}


/// The last `n` bytes of `x` in big-endian order.
pub open spec fn be_bytes(x: nat, n: nat) -> Seq<u8>
    decreases n,
{
    if n == 0 {
        Seq::empty()
    } else {
        be_bytes(x / 256, (n - 1) as nat).push((x % 256) as u8)
    }
}

/// The canonical bytes an approver signs to consent to one request: the action id
/// and the request id as eight big-endian bytes each, then the payload digest.
pub open spec fn approval_message_spec(action: u64, request: u64, digest: Seq<u8>) -> Seq<u8> {
    be_bytes(action as nat, 8) + be_bytes(request as nat, 8) + digest
}

/// `256` to the power `n`.
pub open spec fn p256(n: nat) -> nat
    decreases n,
{
    if n == 0 {
        1
    } else {
        256 * p256((n - 1) as nat)
    }
}

pub proof fn lemma_be_bytes_len(x: nat, n: nat)
    ensures
        be_bytes(x, n).len() == n,
    decreases n,
{
    if n > 0 {
        lemma_be_bytes_len(x / 256, (n - 1) as nat);
    }
}

/// Values below `256^n` have distinct `n`-byte big-endian forms.
pub proof fn lemma_be_bytes_injective(x: nat, y: nat, n: nat)
    requires
        x < p256(n),
        y < p256(n),
        be_bytes(x, n) == be_bytes(y, n),
    ensures
        x == y,
    decreases n,
{
    if n > 0 {
        let m = (n - 1) as nat;
        let bx = be_bytes(x, n);
        let by = be_bytes(y, n);
        assert(bx.drop_last() =~= be_bytes(x / 256, m));
        assert(by.drop_last() =~= be_bytes(y / 256, m));
        assert(bx.last() == (x % 256) as u8);
        assert(by.last() == (y % 256) as u8);
        let q = p256(m);
        assert(x / 256 < q) by (nonlinear_arith)
            requires
                x < 256 * q,
        ;
        assert(y / 256 < q) by (nonlinear_arith)
            requires
                y < 256 * q,
        ;
        lemma_be_bytes_injective(x / 256, y / 256, m);
        assert(x == 256 * (x / 256) + x % 256) by (nonlinear_arith);
        assert(y == 256 * (y / 256) + y % 256) by (nonlinear_arith);
    }
}

fn push_be(out: &mut Vec<u8>, x: u64, n: usize)
    requires
        n <= 8,
    ensures
        final(out)@ == old(out)@ + be_bytes(x as nat, n as nat),
    decreases n,
{
    if n > 0 {
        push_be(out, x / 256, n - 1);
        out.push((x % 256) as u8);
        assert(final(out)@ =~= old(out)@ + be_bytes(x as nat, n as nat));
    } else {
        assert(out@ =~= old(out)@ + be_bytes(x as nat, n as nat));
    }
}

/// Builds the canonical message for `approval_message_spec`.
pub fn approval_message(action: u64, request: u64, digest: &Vec<u8>) -> (r: Vec<u8>)
    ensures
        r@ == approval_message_spec(action, request, digest@),
{
    let mut out: Vec<u8> = Vec::new();
    push_be(&mut out, action, 8);
    push_be(&mut out, request, 8);
    let ghost head = out@;
    let mut j: usize = 0;
    while j < digest.len()
        invariant
            j <= digest.len(),
            out@ == head + digest@.subrange(0, j as int),
        decreases digest.len() - j,
    {
        out.push(digest[j]);
        assert(digest@.subrange(0, j + 1) =~= digest@.subrange(0, j as int).push(digest@[j as int]));
        j += 1;
    }
    assert(digest@.subrange(0, j as int) =~= digest@);
    assert(out@ =~= approval_message_spec(action, request, digest@));
    out
}

impl Engine {
    pub open spec fn wf(&self) -> bool {
        &&& forall|i: int| 0 <= i < self.users.len() ==> (#[trigger] self.users@[i]).id == i
        &&& forall|i: int| 0 <= i < self.requests.len() ==> #[trigger] request_wf(*self, i)
    }

    /// An engine with no users, actions or requests.
    pub fn new(ttl: u64) -> (r: Engine)
        ensures
            r.wf(),
            r.users@.len() == 0,
            r.actions@.len() == 0,
            r.requests@.len() == 0,
            r.ttl == ttl,
    {
        Engine { users: Vec::new(), actions: Vec::new(), requests: Vec::new(), ttl }
    }

    /// Provisions a new active user and returns its id.
    pub fn add_user(&mut self) -> (id: u64)
        requires
            old(self).wf(),
            old(self).users.len() < u64::MAX,
        ensures
            final(self).wf(),
            id == old(self).users.len(),
            final(self).users@ == old(self).users@.push(User { id, active: true }),
            final(self).actions == old(self).actions,
            final(self).requests == old(self).requests,
            final(self).ttl == old(self).ttl,
    {
        let id = self.users.len() as u64;
        self.users.push(User { id, active: true });
        proof {
            assert forall|i: int| 0 <= i < self.requests.len() implies #[trigger] request_wf(*self, i) by {
                assert(request_wf(*old(self), i));
            }
        }
        id
    }

    /// Registers an action type and returns its id.
    pub fn add_action(&mut self, action: ActionType) -> (id: u64)
        requires
            old(self).wf(),
            old(self).actions.len() < u64::MAX,
        ensures
            final(self).wf(),
            id == old(self).actions.len(),
            final(self).actions@ == old(self).actions@.push(action),
            final(self).users == old(self).users,
            final(self).requests == old(self).requests,
            final(self).ttl == old(self).ttl,
    {
        let id = self.actions.len() as u64;
        self.actions.push(action);
        proof {
            assert forall|i: int| 0 <= i < self.requests.len() implies #[trigger] request_wf(*self, i) by {
                assert(request_wf(*old(self), i));
                assert(action_of(*self, self.requests@[i]) == action_of(*old(self), self.requests@[i]));
            }
        }
        id
    }

    /// Why `create_request` would refuse these arguments, if it would.
    pub open spec fn create_error(&self, action: u64, payload: Seq<u8>) -> Option<CreateError> {
        if action >= self.actions.len() || self.actions@[action as int].format == ArtifactFormat::Undeclared {
            Some(CreateError::UnsupportedActionType)
        } else if payload.len() != self.actions@[action as int].digest_len {
            Some(CreateError::InvalidPayload)
        } else {
            None
        }
    }

    /// Stores a new request for `action` over the digest `payload` and returns its id.
    /// The request starts Pending, or Approved when the action needs no approval.
    pub fn create_request(&mut self, action: u64, payload: Vec<u8>, requester: u64, now: u64) -> (r: Result<u64, CreateError>)
        requires
            old(self).wf(),
            old(self).requests.len() < u64::MAX,
        ensures
            final(self).wf(),
            match old(self).create_error(action, payload@) {
                Some(err) => r == Err::<u64, CreateError>(err) && *final(self) == *old(self),
                None => {
                    &&& r == Ok::<u64, CreateError>(old(self).requests.len() as u64)
                    &&& final(self).users == old(self).users
                    &&& final(self).actions == old(self).actions
                    &&& final(self).ttl == old(self).ttl
                    &&& final(self).requests@ == old(self).requests@.push(SigningRequest {
                        id: old(self).requests.len() as u64,
                        action,
                        payload,
                        requester,
                        created: now,
                        status: if old(self).actions@[action as int].threshold == 0 {
                            Status::Approved
                        } else {
                            Status::Pending
                        },
                        in_flight: false,
                        approvals: final(self).requests@.last().approvals,
                        result: None,
                        failures: 0,
                        last_failure: None,
                    })
                    &&& final(self).requests@.last().approvals@.len() == 0
                },
            },
    {
        if action >= self.actions.len() as u64 {
            return Err(CreateError::UnsupportedActionType);
        }
        let a = &self.actions[action as usize];
        match a.format {
            ArtifactFormat::Undeclared => {
                return Err(CreateError::UnsupportedActionType);
            },
            _ => {},
        }
        if payload.len() != a.digest_len {
            return Err(CreateError::InvalidPayload);
        }
        let status = if a.threshold == 0 {
            Status::Approved
        } else {
            Status::Pending
        };
        let id = self.requests.len() as u64;
        let req = SigningRequest {
            id,
            action,
            payload,
            requester,
            created: now,
            status,
            in_flight: false,
            approvals: Vec::new(),
            result: None,
            failures: 0,
            last_failure: None,
        };
        self.requests.push(req);
        proof {
            assert forall|i: int| 0 <= i < self.requests.len() implies #[trigger] request_wf(*self, i) by {
                if i < old(self).requests.len() {
                    assert(request_wf(*old(self), i));
                } else {
                    assert(approvers_of(self.requests@[i]) =~= Seq::<u64>::empty());
                }
            }
        }
        Ok(id)
    }

    /// Why `submit_approval` would refuse these arguments, if it would. An identical
    /// re-submission of a recorded approval is no error.
    pub open spec fn approval_error(&self, req: u64, approver: u64, sig: Seq<u8>, signature_valid: bool) -> Option<ApprovalError> {
        if req >= self.requests.len() {
            Some(ApprovalError::UnknownRequest)
        } else {
            let r = self.requests@[req as int];
            if is_terminal(r.status) {
                Some(ApprovalError::RequestNotPending)
            } else if !(approver < self.users.len() && self.users@[approver as int].active
                && eligible(action_of(*self, r), r.requester, approver)) {
                Some(ApprovalError::UnauthorizedApprover)
            } else if approvers_of(r).contains(approver) {
                if has_signature(r, approver, sig) {
                    None
                } else {
                    Some(ApprovalError::DuplicateApproval)
                }
            } else if !signature_valid {
                Some(ApprovalError::BadSignature)
            } else {
                None
            }
        }
    }

    /// Records `approver`'s consent to request `req`. `signature_valid` says whether
    /// `signature` verifies under the approver's registered key over
    /// `approval_message` of the request. Returns the distinct eligible approver
    /// count and the request's state; reaching the threshold moves a pending request
    /// to Approved. Re-submitting a recorded signature changes nothing.
    pub fn submit_approval(&mut self, req: u64, approver: u64, signature: Vec<u8>, signature_valid: bool, now: u64) -> (r: Result<Submission, ApprovalError>)
        requires
            old(self).wf(),
        ensures
            final(self).wf(),
            match old(self).approval_error(req, approver, signature@, signature_valid) {
                Some(err) => r == Err::<Submission, ApprovalError>(err) && *final(self) == *old(self),
                None => {
                    let n = final(self).requests@[req as int];
                    &&& r == Ok::<Submission, ApprovalError>(Submission { tally: tally_of(*final(self), n) as u64, status: n.status })
                    &&& if approvers_of(old(self).requests@[req as int]).contains(approver) {
                        *final(self) == *old(self)
                    } else {
                        approval_recorded(*old(self), *final(self), req, approver, signature@, now)
                    }
                },
            },
    {
        if req >= self.requests.len() as u64 {
            return Err(ApprovalError::UnknownRequest);
        }
        let i = req as usize;
        let ghost ri = i as int;
        proof {
            assert(request_wf(*self, ri));
        }
        let st = self.requests[i].status;
        match st {
            Status::Executed | Status::Rejected | Status::Expired => {
                return Err(ApprovalError::RequestNotPending);
            },
            _ => {},
        }
        if approver >= self.users.len() as u64 || !self.users[approver as usize].active {
            return Err(ApprovalError::UnauthorizedApprover);
        }
        let requester = self.requests[i].requester;
        let ai = self.requests[i].action as usize;
        if !is_eligible(&self.actions[ai], requester, approver) {
            return Err(ApprovalError::UnauthorizedApprover);
        }
        let mut k: usize = 0;
        while k < self.requests[i].approvals.len()
            invariant
                self == old(self),
                ri == i as int,
                i < self.requests.len(),
                request_wf(*self, ri),
                self.wf(),
                ai as int == self.requests@[ri].action,
                requester == self.requests@[ri].requester,
                st == self.requests@[ri].status,
                !is_terminal(st),
                approver < self.users.len(),
                self.users@[approver as int].active,
                eligible(action_of(*self, self.requests@[ri]), requester, approver),
                req == i,
                k <= self.requests@[ri].approvals.len(),
                forall|j: int| 0 <= j < k ==> self.requests@[ri].approvals@[j].approver != approver,
            decreases self.requests@[ri].approvals.len() - k,
        {
            if self.requests[i].approvals[k].approver == approver {
                proof {
                    assert(approvers_of(self.requests@[ri])[k as int] == approver);
                    let rr = self.requests@[ri];
                    if has_signature(rr, approver, signature@) {
                        let k2 = choose|k2: int| 0 <= k2 < rr.approvals.len() && rr.approvals@[k2].approver == approver && rr.approvals@[k2].signature@ == signature@;
                        if k2 != k {
                            if k2 < k {
                                assert(rr.approvals@[k2].approver != rr.approvals@[k as int].approver);
                            } else {
                                assert(rr.approvals@[k as int].approver != rr.approvals@[k2].approver);
                            }
                        }
                    }
                }
                if bytes_equal(&self.requests[i].approvals[k].signature, &signature) {
                    let list = approver_list(&self.requests[i]);
                    let t = count_eligible(&self.actions[ai], requester, &list);
                    return Ok(Submission { tally: t, status: st });
                } else {
                    return Err(ApprovalError::DuplicateApproval);
                }
            }
            k += 1;
        }
        proof {
            let rr = self.requests@[ri];
            if approvers_of(rr).contains(approver) {
                let j = choose|j: int| 0 <= j < approvers_of(rr).len() && approvers_of(rr)[j] == approver;
                assert(rr.approvals@[j].approver == approver);
            }
        }
        if !signature_valid {
            return Err(ApprovalError::BadSignature);
        }
        let ghost o = self.requests@[ri];
        let ghost sig = signature@;
        self.requests[i].approvals.push(Approval { request: req, approver, signature, time: now });
        let list = approver_list(&self.requests[i]);
        let t = count_eligible(&self.actions[ai], requester, &list);
        proof {
            assert(approvers_of(self.requests@[ri]) =~= approvers_of(o).push(approver));
            lemma_tally_push(self.actions@[ai as int], requester, approvers_of(o), approver);
        }
        let mut status = st;
        if t >= self.actions[ai].threshold {
            match st {
                Status::Pending => {
                    self.requests[i].status = Status::Approved;
                    status = Status::Approved;
                },
                _ => {},
            }
        }
        proof {
            let n = self.requests@[ri];
            assert(approvers_of(n) =~= approvers_of(o).push(approver));
            assert(n == (SigningRequest { approvals: n.approvals, status: n.status, ..o }));
            assert forall|j: int| 0 <= j < self.requests.len() implies #[trigger] request_wf(*self, j) by {
                assert(request_wf(*old(self), j));
                if j == ri {
                    assert forall|a: int, b: int| 0 <= a < b < n.approvals.len() implies n.approvals@[a].approver != n.approvals@[b].approver by {
                        if b == n.approvals.len() - 1 {
                            assert(approvers_of(o)[a] == o.approvals@[a].approver);
                        }
                    }
                    assert forall|a: int| 0 <= a < n.approvals.len() implies eligible(action_of(*self, n), n.requester, #[trigger] n.approvals@[a].approver) by {
                        if a < o.approvals.len() {
                            assert(n.approvals@[a] == o.approvals@[a]);
                        }
                    }
                }
            }
        }
        Ok(Submission { tally: t, status })
    }

    /// Disables user `id`; the user's recorded approvals stay counted.
    pub fn revoke_user(&mut self, id: u64) -> (r: bool)
        requires
            old(self).wf(),
        ensures
            final(self).wf(),
            r == (id < old(self).users.len()),
            r ==> final(self).users@ == old(self).users@.update(id as int, User { id, active: false }),
            !r ==> final(self).users == old(self).users,
            final(self).actions == old(self).actions,
            final(self).requests == old(self).requests,
            final(self).ttl == old(self).ttl,
    {
        if id >= self.users.len() as u64 {
            return false;
        }
        self.users.set(id as usize, User { id, active: false });
        proof {
            assert forall|i: int| 0 <= i < self.requests.len() implies #[trigger] request_wf(*self, i) by {
                assert(request_wf(*old(self), i));
            }
        }
        true
    }

    /// Explicitly rejects a pending request.
    pub fn reject_request(&mut self, req: u64) -> (r: Result<(), TransitionError>)
        requires
            old(self).wf(),
        ensures
            final(self).wf(),
            req >= old(self).requests.len() ==> r == Err::<(), TransitionError>(TransitionError::UnknownRequest),
            req < old(self).requests.len() && old(self).requests@[req as int].status != Status::Pending
                ==> r == Err::<(), TransitionError>(TransitionError::RequestNotPending),
            r is Err ==> *final(self) == *old(self),
            r is Ok <==> req < old(self).requests.len() && old(self).requests@[req as int].status == Status::Pending,
            r is Ok ==> request_replaced(*old(self), *final(self), req as int,
                SigningRequest { status: Status::Rejected, ..old(self).requests@[req as int] }),
    {
        self.end_pending(req, Status::Rejected)
    }

    /// Expires a pending request whose time to live has run out at `now`.
    pub fn expire_request(&mut self, req: u64, now: u64) -> (r: Result<(), TransitionError>)
        requires
            old(self).wf(),
        ensures
            final(self).wf(),
            req >= old(self).requests.len() ==> r == Err::<(), TransitionError>(TransitionError::UnknownRequest),
            req < old(self).requests.len() && old(self).requests@[req as int].status != Status::Pending
                ==> r == Err::<(), TransitionError>(TransitionError::RequestNotPending),
            req < old(self).requests.len() && old(self).requests@[req as int].status == Status::Pending
                && now < old(self).requests@[req as int].created + old(self).ttl
                ==> r == Err::<(), TransitionError>(TransitionError::NotYetExpired),
            r is Err ==> *final(self) == *old(self),
            r is Ok <==> req < old(self).requests.len() && old(self).requests@[req as int].status == Status::Pending
                && now >= old(self).requests@[req as int].created + old(self).ttl,
            r is Ok ==> request_replaced(*old(self), *final(self), req as int,
                SigningRequest { status: Status::Expired, ..old(self).requests@[req as int] }),
    {
        if req < self.requests.len() as u64 {
            let r = &self.requests[req as usize];
            match r.status {
                Status::Pending => {
                    if now < r.created || now - r.created < self.ttl {
                        return Err(TransitionError::NotYetExpired);
                    }
                },
                _ => {},
            }
        }
        self.end_pending(req, Status::Expired)
    }

    fn end_pending(&mut self, req: u64, to: Status) -> (r: Result<(), TransitionError>)
        requires
            old(self).wf(),
            to == Status::Rejected || to == Status::Expired,
        ensures
            final(self).wf(),
            req >= old(self).requests.len() ==> r == Err::<(), TransitionError>(TransitionError::UnknownRequest),
            req < old(self).requests.len() && old(self).requests@[req as int].status != Status::Pending
                ==> r == Err::<(), TransitionError>(TransitionError::RequestNotPending),
            r is Err ==> *final(self) == *old(self),
            r is Ok <==> req < old(self).requests.len() && old(self).requests@[req as int].status == Status::Pending,
            r is Ok ==> request_replaced(*old(self), *final(self), req as int,
                SigningRequest { status: to, ..old(self).requests@[req as int] }),
    {
        if req >= self.requests.len() as u64 {
            return Err(TransitionError::UnknownRequest);
        }
        let i = req as usize;
        match self.requests[i].status {
            Status::Pending => {},
            _ => {
                return Err(TransitionError::RequestNotPending);
            },
        }
        self.requests[i].status = to;
        proof {
            assert forall|j: int| 0 <= j < self.requests.len() implies #[trigger] request_wf(*self, j) by {
                assert(request_wf(*old(self), j));
            }
        }
        Ok(())
    }

    /// Why `claim_execution` would refuse request `req`, if it would.
    pub open spec fn claim_error(&self, req: u64) -> Option<ExecError> {
        if req >= self.requests.len() {
            Some(ExecError::UnknownRequest)
        } else if self.requests@[req as int].status != Status::Approved {
            Some(ExecError::NotApproved)
        } else if self.requests@[req as int].in_flight {
            Some(ExecError::InFlight)
        } else {
            None
        }
    }

    /// Atomically marks an approved request as having a device call under way and
    /// returns what the device must do. At most one claim succeeds until the call's
    /// outcome is recorded with `complete_execution`.
    pub fn claim_execution(&mut self, req: u64) -> (r: Result<DeviceOrder, ExecError>)
        requires
            old(self).wf(),
        ensures
            final(self).wf(),
            match old(self).claim_error(req) {
                Some(err) => r == Err::<DeviceOrder, ExecError>(err) && *final(self) == *old(self),
                None => {
                    let o = old(self).requests@[req as int];
                    &&& r matches Ok(order) && order.request == req && order.key_ref == action_of(*old(self), o).key_ref
                        && order.operation == action_of(*old(self), o).operation
                        && order.digest@ == o.payload@
                    &&& request_replaced(*old(self), *final(self), req as int, SigningRequest { in_flight: true, ..o })
                },
            },
    {
        if req >= self.requests.len() as u64 {
            return Err(ExecError::UnknownRequest);
        }
        let i = req as usize;
        match self.requests[i].status {
            Status::Approved => {},
            _ => {
                return Err(ExecError::NotApproved);
            },
        }
        if self.requests[i].in_flight {
            return Err(ExecError::InFlight);
        }
        proof {
            assert(request_wf(*self, i as int));
        }
        let key_ref = self.actions[self.requests[i].action as usize].key_ref;
        let operation = self.actions[self.requests[i].action as usize].operation;
        let digest = self.requests[i].payload.clone();
        self.requests[i].in_flight = true;
        proof {
            assert forall|j: int| 0 <= j < self.requests.len() implies #[trigger] request_wf(*self, j) by {
                assert(request_wf(*old(self), j));
            }
        }
        Ok(DeviceOrder { request: req, operation, key_ref, digest })
    }

    /// Records the outcome of the device call for claimed request `req` and returns
    /// the request's new state. A returned value that encodes in the action's format
    /// becomes the request's result and the request is Executed; a transient failure
    /// leaves it Approved for a retry; any other failure rejects it. Every failure is
    /// counted on the request.
    pub fn complete_execution(&mut self, req: u64, outcome: DeviceOutcome, now: u64) -> (r: Result<Status, ExecError>)
        requires
            old(self).wf(),
        ensures
            final(self).wf(),
            req >= old(self).requests.len() ==> r == Err::<Status, ExecError>(ExecError::UnknownRequest) && *final(self) == *old(self),
            req < old(self).requests.len() && !old(self).requests@[req as int].in_flight
                ==> r == Err::<Status, ExecError>(ExecError::NotInFlight) && *final(self) == *old(self),
            req < old(self).requests.len() && old(self).requests@[req as int].in_flight ==> {
                let o = old(self).requests@[req as int];
                let n = final(self).requests@[req as int];
                &&& only_request_changed(*old(self), *final(self), req as int)
                &&& r == Ok::<Status, ExecError>(n.status)
                &&& match outcome {
                    DeviceOutcome::Completed(raw) => match encode_spec(action_of(*old(self), o).format, raw@) {
                        Ok(a) => {
                            &&& n == (SigningRequest { status: Status::Executed, in_flight: false, result: n.result, ..o })
                            &&& n.result matches Some(res) && res.request == req && res.raw == raw && res.artifact@ == a && res.created == now
                        },
                        Err(_) => n == after_failure(o, DeviceFailure::MalformedResult),
                    },
                    DeviceOutcome::Failed(f) => n == after_failure(o, f),
                }
            },
    {
        if req >= self.requests.len() as u64 {
            return Err(ExecError::UnknownRequest);
        }
        let i = req as usize;
        if !self.requests[i].in_flight {
            return Err(ExecError::NotInFlight);
        }
        proof {
            assert(request_wf(*self, i as int));
        }
        match outcome {
            DeviceOutcome::Completed(raw) => {
                let format = self.actions[self.requests[i].action as usize].format;
                match encode(format, &raw) {
                    Ok(artifact) => {
                        self.requests[i].result = Some(SigningResult { request: req, raw, artifact, created: now });
                        self.requests[i].status = Status::Executed;
                        self.requests[i].in_flight = false;
                        proof {
                            assert forall|j: int| 0 <= j < self.requests.len() implies #[trigger] request_wf(*self, j) by {
                                assert(request_wf(*old(self), j));
                            }
                        }
                        Ok(Status::Executed)
                    },
                    Err(_) => Ok(self.record_failure(i, DeviceFailure::MalformedResult)),
                }
            },
            DeviceOutcome::Failed(f) => Ok(self.record_failure(i, f)),
        }
    }

    fn record_failure(&mut self, i: usize, f: DeviceFailure) -> (st: Status)
        requires
            old(self).wf(),
            i < old(self).requests.len(),
            old(self).requests@[i as int].in_flight,
        ensures
            final(self).wf(),
            request_replaced(*old(self), *final(self), i as int, after_failure(old(self).requests@[i as int], f)),
            st == final(self).requests@[i as int].status,
    {
        proof {
            assert(request_wf(*self, i as int));
        }
        let failures = self.requests[i].failures;
        self.requests[i].failures = if failures < u64::MAX {
            failures + 1
        } else {
            failures
        };
        self.requests[i].last_failure = Some(f);
        self.requests[i].in_flight = false;
        match f {
            DeviceFailure::Unreachable | DeviceFailure::AuthFailed => {},
            _ => {
                self.requests[i].status = Status::Rejected;
            },
        }
        proof {
            assert forall|j: int| 0 <= j < self.requests.len() implies #[trigger] request_wf(*self, j) by {
                assert(request_wf(*old(self), j));
            }
        }
        self.requests[i].status
    }

    /// The result of request `req`, once it is Executed.
    pub fn fetch_result(&self, req: u64) -> (r: Result<SigningResult, FetchError>)
        requires
            self.wf(),
        ensures
            req >= self.requests.len() ==> r == Err::<SigningResult, FetchError>(FetchError::UnknownRequest),
            req < self.requests.len() ==> match self.requests@[req as int].status {
                Status::Executed => r matches Ok(res) && self.requests@[req as int].result matches Some(s)
                    && res.request == s.request && res.raw@ == s.raw@ && res.artifact@ == s.artifact@ && res.created == s.created,
                Status::Rejected => r == Err::<SigningResult, FetchError>(FetchError::Rejected),
                Status::Expired => r == Err::<SigningResult, FetchError>(FetchError::Expired),
                _ => r == Err::<SigningResult, FetchError>(FetchError::NotReady),
            },
    {
        if req >= self.requests.len() as u64 {
            return Err(FetchError::UnknownRequest);
        }
        let r = &self.requests[req as usize];
        proof {
            assert(request_wf(*self, req as int));
        }
        match r.status {
            Status::Rejected => Err(FetchError::Rejected),
            Status::Expired => Err(FetchError::Expired),
            Status::Executed => match &r.result {
                Some(s) => Ok(SigningResult { request: s.request, raw: s.raw.clone(), artifact: s.artifact.clone(), created: s.created }),
                None => Err(FetchError::NotReady),
            },
            _ => Err(FetchError::NotReady),
        }
    }

    /// The message an approver of request `req` must sign, if the request exists.
    pub fn message_for(&self, req: u64) -> (r: Option<Vec<u8>>)
        requires
            self.wf(),
        ensures
            req >= self.requests.len() ==> r is None,
            req < self.requests.len() ==> (r matches Some(m) && m@ == approval_message_spec(
                self.requests@[req as int].action, req, self.requests@[req as int].payload@)),
    {
        if req >= self.requests.len() as u64 {
            return None;
        }
        let r = &self.requests[req as usize];
        Some(approval_message(r.action, req, &r.payload))
    }
}

} // verus!
