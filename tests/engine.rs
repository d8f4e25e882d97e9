use fero::engine::{
    approval_message, ApprovalError, CreateError, DeviceFailure, DeviceOutcome, Engine, ExecError, FetchError,
    Submission, TransitionError,
};
use fero::encoder::ecdsa_to_der;
use fero::types::{ActionType, ArtifactFormat, Operation, Status};

struct Setup {
    engine: Engine,
    requester: u64,
    user_a: u64,
    user_b: u64,
    outsider: u64,
    action: u64,
}

fn setup(threshold: u64) -> Setup {
    let mut engine = Engine::new(100);
    let requester = engine.add_user();
    let user_a = engine.add_user();
    let user_b = engine.add_user();
    let outsider = engine.add_user();
    let action = engine.add_action(ActionType {
        name: "sign-artifact".to_string(),
        threshold,
        eligible: vec![requester, user_a, user_b],
        digest_len: 32,
        key_ref: 7,
        operation: Operation::Sign,
        format: ArtifactFormat::EcdsaDer,
    });
    Setup { engine, requester, user_a, user_b, outsider, action }
}

fn raw_signature() -> Vec<u8> {
    let mut raw = vec![0u8; 31];
    raw.push(5);
    raw.extend(vec![0x90u8; 32]);
    raw
}

#[test]
fn scenario_two_approvals_execute_once() {
    let mut s = setup(2);
    let r1 = s.engine.create_request(s.action, vec![0xab; 32], s.requester, 10).unwrap();
    assert_eq!(s.engine.submit_approval(r1, s.user_a, vec![1], true, 11), Ok(Submission { tally: 1, status: Status::Pending }));
    assert_eq!(s.engine.submit_approval(r1, s.user_b, vec![2], true, 12), Ok(Submission { tally: 2, status: Status::Approved }));
    let order = s.engine.claim_execution(r1).unwrap();
    assert_eq!(order.request, r1);
    assert_eq!(order.key_ref, 7);
    assert_eq!(order.digest, vec![0xab; 32]);
    assert_eq!(s.engine.complete_execution(r1, DeviceOutcome::Completed(raw_signature()), 13), Ok(Status::Executed));
    let result = s.engine.fetch_result(r1).unwrap();
    assert_eq!(result.request, r1);
    assert_eq!(result.raw, raw_signature());
    assert_eq!(result.artifact, ecdsa_to_der(&raw_signature()));
    assert_eq!(&result.artifact[0..5], &[0x30, 0x26, 0x02, 0x01, 0x05]);
    assert_eq!(result.created, 13);
    assert_eq!(s.engine.claim_execution(r1).err(), Some(ExecError::NotApproved));
    assert_eq!(s.engine.complete_execution(r1, DeviceOutcome::Completed(raw_signature()), 14), Err(ExecError::NotInFlight));
}

#[test]
fn scenario_identical_resubmission_is_a_no_op() {
    let mut s = setup(2);
    let r1 = s.engine.create_request(s.action, vec![1; 32], s.requester, 0).unwrap();
    let first = s.engine.submit_approval(r1, s.user_a, vec![4, 4], true, 1);
    assert_eq!(first, Ok(Submission { tally: 1, status: Status::Pending }));
    let second = s.engine.submit_approval(r1, s.user_a, vec![4, 4], true, 2);
    assert_eq!(second, Ok(Submission { tally: 1, status: Status::Pending }));
    assert_eq!(s.engine.requests[r1 as usize].approvals.len(), 1);
    assert_eq!(s.engine.requests[r1 as usize].status, Status::Pending);
}

#[test]
fn different_signature_from_counted_approver_is_rejected() {
    let mut s = setup(2);
    let r1 = s.engine.create_request(s.action, vec![1; 32], s.requester, 0).unwrap();
    s.engine.submit_approval(r1, s.user_a, vec![4, 4], true, 1).unwrap();
    assert_eq!(s.engine.submit_approval(r1, s.user_a, vec![5], true, 2), Err(ApprovalError::DuplicateApproval));
    assert_eq!(s.engine.requests[r1 as usize].approvals.len(), 1);
}

#[test]
fn scenario_self_approval_is_unauthorized() {
    let mut s = setup(1);
    let r1 = s.engine.create_request(s.action, vec![1; 32], s.requester, 0).unwrap();
    assert_eq!(s.engine.submit_approval(r1, s.requester, vec![3], true, 1), Err(ApprovalError::UnauthorizedApprover));
    assert_eq!(s.engine.requests[r1 as usize].approvals.len(), 0);
    assert_eq!(s.engine.requests[r1 as usize].status, Status::Pending);
}

#[test]
fn scenario_transient_failure_then_retry() {
    let mut s = setup(2);
    let r1 = s.engine.create_request(s.action, vec![2; 32], s.requester, 0).unwrap();
    s.engine.submit_approval(r1, s.user_a, vec![1], true, 1).unwrap();
    s.engine.submit_approval(r1, s.user_b, vec![2], true, 2).unwrap();
    s.engine.claim_execution(r1).unwrap();
    assert_eq!(s.engine.claim_execution(r1).err(), Some(ExecError::InFlight));
    assert_eq!(s.engine.complete_execution(r1, DeviceOutcome::Failed(DeviceFailure::Unreachable), 3), Ok(Status::Approved));
    assert_eq!(s.engine.requests[r1 as usize].failures, 1);
    assert_eq!(s.engine.requests[r1 as usize].last_failure, Some(DeviceFailure::Unreachable));
    assert_eq!(s.engine.fetch_result(r1).err(), Some(FetchError::NotReady));
    assert_eq!(s.engine.requests[r1 as usize].approvals.len(), 2);
    s.engine.claim_execution(r1).unwrap();
    assert_eq!(s.engine.complete_execution(r1, DeviceOutcome::Completed(raw_signature()), 4), Ok(Status::Executed));
    assert!(s.engine.fetch_result(r1).is_ok());
    assert_eq!(s.engine.claim_execution(r1).err(), Some(ExecError::NotApproved));
}

#[test]
fn operation_rejection_rejects_request() {
    let mut s = setup(1);
    let r1 = s.engine.create_request(s.action, vec![2; 32], s.requester, 0).unwrap();
    s.engine.submit_approval(r1, s.user_a, vec![1], true, 1).unwrap();
    s.engine.claim_execution(r1).unwrap();
    assert_eq!(
        s.engine.complete_execution(r1, DeviceOutcome::Failed(DeviceFailure::OperationRejected), 2),
        Ok(Status::Rejected)
    );
    assert_eq!(s.engine.fetch_result(r1).err(), Some(FetchError::Rejected));
    assert_eq!(s.engine.claim_execution(r1).err(), Some(ExecError::NotApproved));
}

#[test]
fn malformed_device_value_rejects_request() {
    let mut s = setup(1);
    let r1 = s.engine.create_request(s.action, vec![2; 32], s.requester, 0).unwrap();
    s.engine.submit_approval(r1, s.user_a, vec![1], true, 1).unwrap();
    s.engine.claim_execution(r1).unwrap();
    assert_eq!(s.engine.complete_execution(r1, DeviceOutcome::Completed(vec![1, 2, 3]), 2), Ok(Status::Rejected));
    assert_eq!(s.engine.requests[r1 as usize].last_failure, Some(DeviceFailure::MalformedResult));
}

#[test]
fn closed_requests_take_no_approvals() {
    let mut s = setup(1);
    let r1 = s.engine.create_request(s.action, vec![2; 32], s.requester, 0).unwrap();
    let r2 = s.engine.create_request(s.action, vec![3; 32], s.requester, 0).unwrap();
    assert_eq!(s.engine.reject_request(r1), Ok(()));
    assert_eq!(s.engine.reject_request(r1), Err(TransitionError::RequestNotPending));
    assert_eq!(s.engine.expire_request(r2, 99), Err(TransitionError::NotYetExpired));
    assert_eq!(s.engine.expire_request(r2, 100), Ok(()));
    for r in [r1, r2] {
        assert_eq!(s.engine.submit_approval(r, s.user_a, vec![1], true, 200), Err(ApprovalError::RequestNotPending));
        assert_eq!(s.engine.claim_execution(r).err(), Some(ExecError::NotApproved));
        assert!(s.engine.requests[r as usize].result.is_none());
    }
    assert_eq!(s.engine.fetch_result(r1).err(), Some(FetchError::Rejected));
    assert_eq!(s.engine.fetch_result(r2).err(), Some(FetchError::Expired));
    assert_eq!(s.engine.reject_request(9), Err(TransitionError::UnknownRequest));
}

#[test]
fn approval_errors() {
    let mut s = setup(2);
    let r1 = s.engine.create_request(s.action, vec![2; 32], s.requester, 0).unwrap();
    assert_eq!(s.engine.submit_approval(42, s.user_a, vec![1], true, 1), Err(ApprovalError::UnknownRequest));
    assert_eq!(s.engine.submit_approval(r1, s.outsider, vec![1], true, 1), Err(ApprovalError::UnauthorizedApprover));
    assert_eq!(s.engine.submit_approval(r1, 77, vec![1], true, 1), Err(ApprovalError::UnauthorizedApprover));
    assert_eq!(s.engine.submit_approval(r1, s.user_a, vec![1], false, 1), Err(ApprovalError::BadSignature));
    assert!(s.engine.revoke_user(s.user_b));
    assert_eq!(s.engine.submit_approval(r1, s.user_b, vec![1], true, 1), Err(ApprovalError::UnauthorizedApprover));
    assert_eq!(s.engine.requests[r1 as usize].approvals.len(), 0);
}

#[test]
fn approvals_after_threshold_are_inert() {
    let mut s = setup(1);
    let r1 = s.engine.create_request(s.action, vec![2; 32], s.requester, 0).unwrap();
    assert_eq!(s.engine.submit_approval(r1, s.user_a, vec![1], true, 1), Ok(Submission { tally: 1, status: Status::Approved }));
    assert_eq!(s.engine.submit_approval(r1, s.user_b, vec![2], true, 2), Ok(Submission { tally: 2, status: Status::Approved }));
}

#[test]
fn create_request_errors() {
    let mut s = setup(1);
    assert_eq!(s.engine.create_request(5, vec![0; 32], s.requester, 0), Err(CreateError::UnsupportedActionType));
    assert_eq!(s.engine.create_request(s.action, vec![0; 31], s.requester, 0), Err(CreateError::InvalidPayload));
    let undeclared = s.engine.add_action(ActionType {
        name: "issue-key".to_string(),
        threshold: 1,
        eligible: vec![],
        digest_len: 0,
        key_ref: 1,
        operation: Operation::Sign,
        format: ArtifactFormat::Undeclared,
    });
    assert_eq!(s.engine.create_request(undeclared, vec![], s.requester, 0), Err(CreateError::UnsupportedActionType));
    assert_eq!(s.engine.requests.len(), 0);
}

#[test]
fn zero_threshold_request_starts_approved() {
    let mut s = setup(0);
    let r1 = s.engine.create_request(s.action, vec![0; 32], s.requester, 0).unwrap();
    assert_eq!(s.engine.requests[r1 as usize].status, Status::Approved);
}

#[test]
fn approval_message_layout() {
    let m = approval_message(0x0102, 7, &vec![0xaa, 0xbb]);
    assert_eq!(m, vec![0, 0, 0, 0, 0, 0, 1, 2, 0, 0, 0, 0, 0, 0, 0, 7, 0xaa, 0xbb]);
    let mut s = setup(1);
    let r1 = s.engine.create_request(s.action, vec![3; 32], s.requester, 0).unwrap();
    let expected = approval_message(s.action, r1, &vec![3; 32]);
    assert_eq!(s.engine.message_for(r1), Some(expected));
    assert_eq!(s.engine.message_for(r1 + 1), None);
}

#[test]
fn key_generation_publishes_key_material() {
    let mut s = setup(1);
    let issue = s.engine.add_action(ActionType {
        name: "issue-key".to_string(),
        threshold: 1,
        eligible: vec![s.user_a],
        digest_len: 0,
        key_ref: 12,
        operation: Operation::GenerateKey,
        format: ArtifactFormat::RawKey,
    });
    let r1 = s.engine.create_request(issue, vec![], s.requester, 0).unwrap();
    s.engine.submit_approval(r1, s.user_a, vec![1], true, 1).unwrap();
    let order = s.engine.claim_execution(r1).unwrap();
    assert_eq!(order.operation, Operation::GenerateKey);
    assert_eq!(order.key_ref, 12);
    assert_eq!(s.engine.complete_execution(r1, DeviceOutcome::Completed(vec![4, 5, 6]), 2), Ok(Status::Executed));
    assert_eq!(s.engine.fetch_result(r1).unwrap().artifact, vec![4, 5, 6]);
}

#[test]
fn approval_messages_differ_across_requests() {
    let digest = vec![5u8; 4];
    assert_ne!(approval_message(1, 2, &digest), approval_message(1, 3, &digest));
    assert_ne!(approval_message(1, 2, &digest), approval_message(2, 2, &digest));
    assert_ne!(approval_message(1, 2, &digest), approval_message(1, 2, &vec![5u8; 3]));
}
