use vstd::prelude::*;

use crate::engine::{
    Engine, SigningRequest, ApprovalError, ExecError, approval_message_spec, be_bytes, lemma_be_bytes_injective,
    lemma_be_bytes_len, p256, approval_recorded, approvers_of, has_signature, request_replaced,
    request_wf, tally_of, action_of,
};
use crate::encoder::{
    EncodeError, be_value, encode_spec, lemma_der_int_content, lemma_read_ecdsa_der, read_ecdsa_der,
};
use crate::policy::eligible;
use crate::types::{ArtifactFormat, Status};

verus! {

/// In every well-formed store, a pending request is short of its action's threshold,
/// and an Approved or Executed request has at least that many distinct, eligible
/// approvers other than the requester, each recorded once.
pub proof fn lemma_approved_iff_threshold(e: Engine, req: int)
    requires
        e.wf(),
        0 <= req < e.requests.len(),
    ensures
        ({
            let r = e.requests@[req];
            &&& r.status == Status::Pending ==> tally_of(e, r) < action_of(e, r).threshold
            &&& r.status == Status::Approved || r.status == Status::Executed ==> tally_of(e, r) >= action_of(e, r).threshold
            &&& forall|k: int| 0 <= k < r.approvals.len() ==> eligible(action_of(e, r), r.requester, #[trigger] r.approvals@[k].approver)
            &&& forall|k: int| 0 <= k < r.approvals.len() ==> (#[trigger] r.approvals@[k]).approver != r.requester
            &&& forall|j: int, k: int| 0 <= j < k < r.approvals.len() ==> r.approvals@[j].approver != r.approvals@[k].approver
        }),
{
    assert(request_wf(e, req));
    let r = e.requests@[req];
    assert forall|k: int| 0 <= k < r.approvals.len() implies (#[trigger] r.approvals@[k]).approver != r.requester by {
        assert(eligible(action_of(e, r), r.requester, r.approvals@[k].approver));
    }
}

/// Once an approval is recorded, submitting the same signature again is accepted
/// without change (it is no error and the approver is already recorded), while any
/// other signature by the same approver is refused as a duplicate.
pub proof fn lemma_resubmission(e0: Engine, e1: Engine, req: u64, approver: u64, sig: Seq<u8>, valid: bool, now: u64)
    requires
        e0.wf(),
        e0.approval_error(req, approver, sig, valid) == None::<ApprovalError>,
        !approvers_of(e0.requests@[req as int]).contains(approver),
        approval_recorded(e0, e1, req, approver, sig, now),
    ensures
        e1.approval_error(req, approver, sig, valid) == None::<ApprovalError>,
        approvers_of(e1.requests@[req as int]).contains(approver),
        forall|other: Seq<u8>, v: bool| other != sig ==> e1.approval_error(req, approver, other, v)
            == Some(ApprovalError::DuplicateApproval),
{
    let o = e0.requests@[req as int];
    let n = e1.requests@[req as int];
    let last = n.approvals.len() - 1;
    assert(n.approvals@[last].approver == approver);
    assert(approvers_of(n)[last] == approver);
    assert(has_signature(n, approver, sig));
    assert(action_of(e1, n) == action_of(e0, o));
    assert forall|other: Seq<u8>, v: bool| other != sig implies e1.approval_error(req, approver, other, v)
        == Some(ApprovalError::DuplicateApproval) by {
        if has_signature(n, approver, other) {
            let k = choose|k: int| 0 <= k < n.approvals.len() && n.approvals@[k].approver == approver && n.approvals@[k].signature@ == other;
            if k < last {
                assert(n.approvals@[k] == o.approvals@[k]);
                assert(approvers_of(o)[k] == approver);
            }
        }
    }
}

/// A successful claim blocks every further claim of the same request until its
/// outcome is recorded, and an Executed request can never be claimed again: the
/// device runs at most once per result, and a request holds at most one result.
pub proof fn lemma_single_claim(e0: Engine, e1: Engine, req: u64)
    requires
        e0.wf(),
        e0.claim_error(req) == None::<ExecError>,
        request_replaced(e0, e1, req as int, SigningRequest { in_flight: true, ..e0.requests@[req as int] }),
    ensures
        e1.claim_error(req) == Some(ExecError::InFlight),
{
}

/// An Executed request has exactly one result, is not awaiting a device call, and
/// cannot be claimed again.
pub proof fn lemma_executed_once(e: Engine, req: u64)
    requires
        e.wf(),
        req < e.requests.len(),
        e.requests@[req as int].status == Status::Executed,
    ensures
        e.requests@[req as int].result is Some,
        !e.requests@[req as int].in_flight,
        e.claim_error(req) == Some(ExecError::NotApproved),
{
    assert(request_wf(e, req as int));
}

/// A Rejected or Expired request has no result and never gets one: approvals are
/// refused, it cannot be claimed, and no device call for it is under way.
pub proof fn lemma_closed_request_stays_closed(e: Engine, req: u64)
    requires
        e.wf(),
        req < e.requests.len(),
        e.requests@[req as int].status == Status::Rejected || e.requests@[req as int].status == Status::Expired,
    ensures
        e.requests@[req as int].result is None,
        !e.requests@[req as int].in_flight,
        e.claim_error(req) == Some(ExecError::NotApproved),
        forall|approver: u64, sig: Seq<u8>, valid: bool| e.approval_error(req, approver, sig, valid)
            == Some(ApprovalError::RequestNotPending),
{
    assert(request_wf(e, req as int));
}

/// The result of an Executed request holds the artifact its action's format gives
/// for the device's raw value. For an ECDSA action, a DER reader takes that artifact
/// apart into exactly two non-negative INTEGERs whose values are the raw `r` and `s`;
/// for an RSA action the artifact is the raw signature itself.
pub proof fn lemma_executed_artifact(e: Engine, req: u64)
    requires
        e.wf(),
        req < e.requests.len(),
        e.requests@[req as int].status == Status::Executed,
    ensures
        ({
            let r = e.requests@[req as int];
            let res = r.result->Some_0;
            let raw = res.raw@;
            let h = raw.len() / 2;
            &&& r.result is Some
            &&& encode_spec(action_of(e, r).format, raw) == Ok::<Seq<u8>, EncodeError>(res.artifact@)
            &&& action_of(e, r).format == ArtifactFormat::RsaPkcs1 ==> res.artifact@ == raw
            &&& action_of(e, r).format == ArtifactFormat::EcdsaDer ==> (read_ecdsa_der(res.artifact@) matches Some((x, y))
                && be_value(x) == be_value(raw.subrange(0, h as int))
                && be_value(y) == be_value(raw.subrange(h as int, raw.len() as int))
                && x.len() > 0 && x[0] < 0x80 && y.len() > 0 && y[0] < 0x80)
        }),
{
    assert(request_wf(e, req as int));
    let r = e.requests@[req as int];
    let raw = r.result->Some_0.raw@;
    if action_of(e, r).format == ArtifactFormat::EcdsaDer {
        let h = raw.len() / 2;
        lemma_read_ecdsa_der(raw);
        lemma_der_int_content(raw.subrange(0, h as int));
        lemma_der_int_content(raw.subrange(h as int, raw.len() as int));
    }
}

/// The canonical approval message determines the action, the request and the
/// digest it was built from, so a signature over one request's message cannot be
/// replayed as consent to another.
pub proof fn lemma_approval_message_binds(a1: u64, r1: u64, d1: Seq<u8>, a2: u64, r2: u64, d2: Seq<u8>)
    requires
        approval_message_spec(a1, r1, d1) == approval_message_spec(a2, r2, d2),
    ensures
        a1 == a2,
        r1 == r2,
        d1 == d2,
{
    let m1 = approval_message_spec(a1, r1, d1);
    let m2 = approval_message_spec(a2, r2, d2);
    lemma_be_bytes_len(a1 as nat, 8);
    lemma_be_bytes_len(a2 as nat, 8);
    lemma_be_bytes_len(r1 as nat, 8);
    lemma_be_bytes_len(r2 as nat, 8);
    assert(m1.subrange(0, 8) =~= be_bytes(a1 as nat, 8));
    assert(m2.subrange(0, 8) =~= be_bytes(a2 as nat, 8));
    assert(m1.subrange(8, 16) =~= be_bytes(r1 as nat, 8));
    assert(m2.subrange(8, 16) =~= be_bytes(r2 as nat, 8));
    assert(m1.subrange(16, m1.len() as int) =~= d1);
    assert(m2.subrange(16, m2.len() as int) =~= d2);
    assert(p256(0) == 1);
    assert(p256(1) == 0x100);
    assert(p256(2) == 0x10000);
    assert(p256(3) == 0x1000000);
    assert(p256(4) == 0x100000000);
    assert(p256(5) == 0x10000000000);
    assert(p256(6) == 0x1000000000000);
    assert(p256(7) == 0x100000000000000);
    assert(p256(8) == 0x10000000000000000);
    lemma_be_bytes_injective(a1 as nat, a2 as nat, 8);
    lemma_be_bytes_injective(r1 as nat, r2 as nat, 8);
}

} // verus!
