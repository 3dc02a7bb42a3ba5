use mpi_two_sided::buffer::{DynamicBuffer, ElementKind};
use mpi_two_sided::header::MessageHeader;
use mpi_two_sided::two_sided::{
    plan_receive, plan_sends, retain_pending, Phase, PollTarget, ProgressEvent, Step, TwoSidedExchange, TAG_DATA, TAG_HEADER,
    TIMEOUT_NANOS,
};

#[test]
fn plan_sends_posts_header_then_payload_per_target() {
    let ranks = [1, 0];
    let data = [DynamicBuffer::I32(vec![6, 7, 8, 9]), DynamicBuffer::F64(vec![4.0f64.to_bits()])];
    let msgs = plan_sends(&ranks, &data);
    assert_eq!(msgs.len(), 4);
    assert_eq!((msgs[0].destination, msgs[0].tag), (1, TAG_HEADER));
    assert_eq!(msgs[0].bytes, vec![2, 4, 0, 0, 0, 0, 0, 0, 0]);
    assert_eq!((msgs[1].destination, msgs[1].tag), (1, TAG_DATA));
    assert_eq!(msgs[1].bytes.len(), 16);
    assert_eq!((msgs[2].destination, msgs[2].tag), (0, TAG_HEADER));
    assert_eq!(msgs[2].bytes, vec![1, 1, 0, 0, 0, 0, 0, 0, 0]);
    assert_eq!((msgs[3].destination, msgs[3].tag), (0, TAG_DATA));
    assert_eq!(msgs[3].bytes, 4.0f64.to_ne_bytes().to_vec());
}

#[test]
fn plan_sends_of_nothing_is_empty() {
    assert!(plan_sends(&[], &[]).is_empty());
}

#[test]
fn tags_are_100_and_101() {
    assert_eq!(TAG_HEADER, 100);
    assert_eq!(TAG_DATA, 101);
}

#[test]
fn receiver_reads_the_kind_the_sender_announced() {
    let sent = [
        DynamicBuffer::F32(vec![1]),
        DynamicBuffer::F64(vec![]),
        DynamicBuffer::I32(vec![1, 2]),
        DynamicBuffer::I64(vec![3]),
    ];
    let kinds = [ElementKind::F32, ElementKind::F64, ElementKind::I32, ElementKind::I64];
    for (d, k) in sent.iter().zip(kinds.iter()) {
        assert_eq!(plan_receive(&d.header().to_bytes()), Ok(*k));
    }
}

#[test]
fn plan_receive_rejects_unknown_type() {
    let bytes = MessageHeader { data_type: 4, count: 1 }.to_bytes();
    assert_eq!(plan_receive(&bytes), Err("Unknown data type".to_string()));
}

#[test]
fn plan_receive_rejects_bad_length() {
    assert_eq!(
        plan_receive(&[0, 1]),
        Err("Invalid header length: expected 9, got 2".to_string())
    );
}

#[test]
fn deadline_passes_until_thirty_seconds() {
    let x = TwoSidedExchange::new();
    assert_eq!(TIMEOUT_NANOS, 30_000_000_000);
    assert!(x.check_deadline(0).is_ok());
    assert!(x.check_deadline(TIMEOUT_NANOS).is_ok());
    assert_eq!(
        x.check_deadline(TIMEOUT_NANOS + 1),
        Err("Communication timeout - possible deadlock".to_string())
    );
}

#[test]
fn phases_advance_only_after_sends_then_barrier() {
    let mut x = TwoSidedExchange::new();
    assert_eq!(x.phase(), Phase::AwaitingSends);
    assert_eq!(x.observe(ProgressEvent::BarrierTested(true)), Step::KeepPolling);
    assert_eq!(x.phase(), Phase::AwaitingSends);
    assert_eq!(x.observe(ProgressEvent::SendsTested(2)), Step::KeepPolling);
    assert_eq!(x.phase(), Phase::AwaitingSends);
    assert_eq!(x.observe(ProgressEvent::SendsTested(0)), Step::EnterBarrier);
    assert_eq!(x.phase(), Phase::AwaitingBarrier);
    assert_eq!(x.observe(ProgressEvent::SendsTested(0)), Step::KeepPolling);
    assert_eq!(x.observe(ProgressEvent::BarrierTested(false)), Step::KeepPolling);
    assert_eq!(x.phase(), Phase::AwaitingBarrier);
    assert_eq!(x.observe(ProgressEvent::BarrierTested(true)), Step::Finish);
    assert_eq!(x.phase(), Phase::Complete);
    assert_eq!(x.observe(ProgressEvent::SendsTested(3)), Step::Finish);
    assert_eq!(x.phase(), Phase::Complete);
}

#[test]
fn retain_pending_keeps_unfinished_requests_in_order() {
    let outcomes: Vec<Result<(), &str>> = vec![Err("a"), Ok(()), Err("b"), Ok(()), Err("c")];
    assert_eq!(retain_pending(outcomes), vec!["a", "b", "c"]);
    let done: Vec<Result<(), u8>> = vec![Ok(()), Ok(())];
    assert!(retain_pending(done).is_empty());
    assert!(retain_pending(Vec::<Result<(), u8>>::new()).is_empty());
}

#[test]
fn result_keeps_arrivals_paired_and_in_order() {
    let mut x = TwoSidedExchange::new();
    x.record(3, DynamicBuffer::I32(vec![1]));
    x.record(1, DynamicBuffer::I64(vec![2, 3]));
    x.record(3, DynamicBuffer::F32(vec![]));
    let r = x.into_result();
    assert_eq!(r.from_ranks, vec![3, 1, 3]);
    assert_eq!(r.from_data.len(), 3);
    assert_eq!((r.from_data[0].type_id(), r.from_data[0].len()), (2, 1));
    assert_eq!((r.from_data[1].type_id(), r.from_data[1].len()), (3, 2));
    assert_eq!((r.from_data[2].type_id(), r.from_data[2].len()), (0, 0));
}

#[test]
fn result_of_exchange_without_arrivals_is_empty() {
    let r = TwoSidedExchange::new().into_result();
    assert!(r.from_ranks.is_empty());
    assert!(r.from_data.is_empty());
}

#[test]
fn poll_target_follows_phase() {
    let mut x = TwoSidedExchange::new();
    assert_eq!(x.poll_target(), PollTarget::Sends);
    x.observe(ProgressEvent::SendsTested(1));
    assert_eq!(x.poll_target(), PollTarget::Sends);
    x.observe(ProgressEvent::SendsTested(0));
    assert_eq!(x.poll_target(), PollTarget::Barrier);
    x.observe(ProgressEvent::BarrierTested(true));
    assert_eq!(x.poll_target(), PollTarget::Barrier);
}
