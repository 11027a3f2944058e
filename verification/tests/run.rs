use sbom_insight::run::{Action, Event, Phase, Pipeline};

fn started(capacity: usize, candidates: usize) -> Pipeline<u32> {
    let mut run: Pipeline<u32> = Pipeline::new(capacity);
    assert_eq!(run.step(Event::Scanned { candidates }), Action::Start);
    run
}

#[test]
fn a_run_starts_with_its_scan() {
    let mut run: Pipeline<u32> = Pipeline::new(10);
    assert_eq!(run.phase(), Phase::Scanning);
    assert_eq!(run.offer(7).0, Action::Refuse);
    assert_eq!(run.take().0, Action::Refuse);
    assert_eq!(run.step(Event::Handled { ok: true }), Action::Refuse);
    assert_eq!(run.phase(), Phase::Scanning);
    assert_eq!(run.step(Event::Scanned { candidates: 3 }), Action::Start);
    assert_eq!(run.phase(), Phase::Streaming);
    assert_eq!(run.step(Event::Scanned { candidates: 3 }), Action::Refuse);
    assert_eq!(run.step(Event::ScanFailed), Action::Refuse);
}

#[test]
fn a_failed_scan_aborts() {
    let mut run: Pipeline<u32> = Pipeline::new(10);
    assert_eq!(run.step(Event::ScanFailed), Action::Abort);
    assert_eq!(run.phase(), Phase::Aborted);
    assert_eq!(run.step(Event::Scanned { candidates: 1 }), Action::Refuse);
}

#[test]
fn a_run_without_candidates_is_done_at_once() {
    let mut run: Pipeline<u32> = Pipeline::new(10);
    assert_eq!(run.step(Event::Scanned { candidates: 0 }), Action::Finish);
    assert_eq!(run.phase(), Phase::Done);
    assert_eq!(run.processed(), 0);
    assert_eq!(run.take().0, Action::Refuse);
}

#[test]
fn of_three_candidates_with_one_undecodable_two_are_processed() {
    let mut run = started(10, 3);
    let mut invoked = 0;
    let mut warned = 0;
    assert_eq!(run.offer(7).0, Action::Accept);
    assert_eq!(run.take().0, Action::Invoke);
    invoked += 1;
    assert_eq!(run.step(Event::DecodeFailed), Action::Warn);
    warned += 1;
    assert_eq!(run.step(Event::Handled { ok: true }), Action::Continue);
    assert_eq!(run.take().0, Action::Idle);
    assert_eq!(run.phase(), Phase::Streaming);
    assert_eq!(run.offer(7).0, Action::Accept);
    assert_eq!(run.phase(), Phase::Draining);
    assert_eq!(run.offer(7).0, Action::Refuse);
    assert_eq!(run.step(Event::DecodeFailed), Action::Refuse);
    assert_eq!(run.step(Event::ReadFailed), Action::Refuse);
    assert_eq!(run.take().0, Action::Invoke);
    invoked += 1;
    assert_eq!(run.step(Event::Handled { ok: true }), Action::Finish);
    assert_eq!(run.phase(), Phase::Done);
    assert_eq!(run.processed(), 2);
    assert_eq!(run.skipped(), 1);
    assert_eq!(invoked, 2);
    assert_eq!(warned, 1);
    assert_eq!(run.take().0, Action::Refuse);
}

#[test]
fn a_run_of_undecodable_candidates_ends_without_a_call() {
    let mut run = started(10, 2);
    assert_eq!(run.step(Event::DecodeFailed), Action::Warn);
    assert_eq!(run.phase(), Phase::Streaming);
    assert_eq!(run.step(Event::DecodeFailed), Action::Warn);
    assert_eq!(run.phase(), Phase::Done);
    assert_eq!(run.processed(), 0);
    assert_eq!(run.skipped(), 2);
}

#[test]
fn no_more_documents_are_in_flight_than_the_capacity() {
    let mut run = started(2, 5);
    assert_eq!(run.offer(7).0, Action::Accept);
    assert_eq!(run.offer(7).0, Action::Accept);
    assert_eq!(run.in_flight(), 2);
    assert_eq!(run.offer(7).0, Action::Wait);
    assert_eq!(run.offer(7).0, Action::Wait);
    assert_eq!(run.in_flight(), 2);
    assert_eq!(run.take().0, Action::Invoke);
    assert_eq!(run.in_flight(), 1);
    assert_eq!(run.offer(7).0, Action::Accept);
    assert_eq!(run.offer(7).0, Action::Wait);
    assert_eq!(run.in_flight(), 2);
}

#[test]
fn with_room_for_one_the_documents_go_through_one_by_one() {
    let mut run = started(1, 2);
    assert_eq!(run.offer(7).0, Action::Accept);
    assert_eq!(run.offer(7).0, Action::Wait);
    assert_eq!(run.take().0, Action::Invoke);
    assert_eq!(run.offer(7).0, Action::Accept);
    assert_eq!(run.phase(), Phase::Draining);
    assert_eq!(run.step(Event::Handled { ok: true }), Action::Continue);
    assert_eq!(run.take().0, Action::Invoke);
    assert_eq!(run.step(Event::Handled { ok: true }), Action::Finish);
    assert_eq!(run.processed(), 2);
}

#[test]
fn the_consumer_handles_one_document_at_a_time() {
    let mut run = started(3, 3);
    assert_eq!(run.offer(7).0, Action::Accept);
    assert_eq!(run.offer(7).0, Action::Accept);
    assert_eq!(run.step(Event::Handled { ok: true }), Action::Refuse);
    assert_eq!(run.take().0, Action::Invoke);
    assert_eq!(run.take().0, Action::Refuse);
    assert_eq!(run.step(Event::Handled { ok: true }), Action::Continue);
    assert_eq!(run.processed(), 1);
}

#[test]
fn a_handler_error_aborts_at_once() {
    let mut run = started(3, 3);
    assert_eq!(run.offer(7).0, Action::Accept);
    assert_eq!(run.offer(7).0, Action::Accept);
    assert_eq!(run.take().0, Action::Invoke);
    assert_eq!(run.step(Event::Handled { ok: false }), Action::Abort);
    assert_eq!(run.phase(), Phase::Aborted);
    assert_eq!(run.processed(), 0);
    assert_eq!(run.take().0, Action::Refuse);
    assert_eq!(run.offer(7).0, Action::Refuse);
}

#[test]
fn a_read_error_aborts_at_once() {
    let mut run = started(3, 3);
    assert_eq!(run.offer(7).0, Action::Accept);
    assert_eq!(run.step(Event::ReadFailed), Action::Abort);
    assert_eq!(run.phase(), Phase::Aborted);
    assert_eq!(run.take().0, Action::Refuse);
}

#[test]
fn documents_come_out_in_the_order_in_which_they_went_in() {
    let mut run = started(3, 4);
    assert_eq!(run.offer(1), (Action::Accept, None));
    assert_eq!(run.offer(2), (Action::Accept, None));
    assert_eq!(run.take(), (Action::Invoke, Some(1)));
    assert_eq!(run.offer(3), (Action::Accept, None));
    assert_eq!(run.take(), (Action::Refuse, None));
    assert_eq!(run.step(Event::Handled { ok: true }), Action::Continue);
    assert_eq!(run.take(), (Action::Invoke, Some(2)));
    assert_eq!(run.step(Event::Handled { ok: true }), Action::Continue);
    assert_eq!(run.offer(4), (Action::Accept, None));
    assert_eq!(run.take(), (Action::Invoke, Some(3)));
    assert_eq!(run.step(Event::Handled { ok: true }), Action::Continue);
    assert_eq!(run.take(), (Action::Invoke, Some(4)));
    assert_eq!(run.take(), (Action::Refuse, None));
    assert_eq!(run.step(Event::Handled { ok: true }), Action::Finish);
    assert_eq!(run.take(), (Action::Refuse, None));
    assert_eq!(run.processed(), 4);
}

#[test]
fn a_document_that_is_not_accepted_is_handed_back() {
    let mut run: Pipeline<u32> = Pipeline::new(1);
    assert_eq!(run.offer(1), (Action::Refuse, Some(1)));
    assert_eq!(run.step(Event::Scanned { candidates: 2 }), Action::Start);
    assert_eq!(run.take(), (Action::Idle, None));
    assert_eq!(run.offer(1), (Action::Accept, None));
    assert_eq!(run.offer(2), (Action::Wait, Some(2)));
    assert_eq!(run.in_flight(), 1);
    assert_eq!(run.take(), (Action::Invoke, Some(1)));
    assert_eq!(run.offer(2), (Action::Accept, None));
    assert_eq!(run.offer(3), (Action::Refuse, Some(3)));
}

#[test]
fn step_is_not_told_of_documents() {
    let mut run = started(2, 2);
    assert_eq!(run.step(Event::Offered), Action::Refuse);
    assert_eq!(run.step(Event::Taken), Action::Refuse);
    assert_eq!(run.in_flight(), 0);
    assert_eq!(run.phase(), Phase::Streaming);
    assert_eq!(run.offer(1), (Action::Accept, None));
    assert_eq!(run.step(Event::Taken), Action::Refuse);
    assert_eq!(run.in_flight(), 1);
    assert_eq!(run.take(), (Action::Invoke, Some(1)));
}
