use tcp_fanout::{Action, Event, Phase, Relay, SinkRegistry, SinkWrite, WriteOutcome, WriteStatus};

fn accept(r: &mut Relay) -> u64 {
    match r.on_event(Event::Accepted) {
        Action::Register(id) => id,
        other => panic!("expected a registration, got {:?}", other),
    }
}

#[test]
fn two_clients_receive_whole_payload() {
    let mut r = Relay::new();
    let a = accept(&mut r);
    let b = accept(&mut r);
    assert_eq!((a, b), (0, 1));
    let act = r.on_event(Event::SourceData(vec![1, 2, 3]));
    assert_eq!(act, Action::Write { sink: a, from: 0 });
    assert_eq!(r.payload(), &[1u8, 2, 3][..]);
    let act = r.on_write(WriteOutcome::Wrote(3));
    assert_eq!(act, Action::Write { sink: b, from: 0 });
    assert_eq!(r.payload(), &[1u8, 2, 3][..]);
    let act = r.on_write(WriteOutcome::Wrote(3));
    assert_eq!(act, Action::RoundDone(vec![]));
    assert_eq!(r.phase(), Phase::Waiting);
    assert_eq!(r.sink_count(), 2);
}

#[test]
fn closed_client_is_dropped_and_survivor_receives() {
    let mut r = Relay::new();
    let a = accept(&mut r);
    let b = accept(&mut r);
    assert_eq!(r.on_event(Event::SourceData(vec![1, 2, 3])), Action::Write { sink: a, from: 0 });
    assert_eq!(r.on_write(WriteOutcome::Failed), Action::Write { sink: b, from: 0 });
    assert_eq!(r.on_write(WriteOutcome::Wrote(3)), Action::RoundDone(vec![a]));
    assert_eq!(r.sink_count(), 1);
    assert_eq!(r.on_event(Event::SourceData(vec![4])), Action::Write { sink: b, from: 0 });
}

#[test]
fn zero_byte_write_drops_the_sink() {
    let mut r = Relay::new();
    let a = accept(&mut r);
    let b = accept(&mut r);
    assert_eq!(r.on_event(Event::SourceData(vec![9, 9])), Action::Write { sink: a, from: 0 });
    assert_eq!(r.on_write(WriteOutcome::Wrote(2)), Action::Write { sink: b, from: 0 });
    assert_eq!(r.on_write(WriteOutcome::Wrote(0)), Action::RoundDone(vec![b]));
    assert_eq!(r.sink_count(), 1);
}

#[test]
fn several_failures_remove_the_failed_sinks_only() {
    let mut r = Relay::new();
    let ids: Vec<u64> = (0..4).map(|_| accept(&mut r)).collect();
    assert_eq!(r.on_event(Event::SourceData(vec![5])), Action::Write { sink: ids[0], from: 0 });
    assert_eq!(r.on_write(WriteOutcome::Failed), Action::Write { sink: ids[1], from: 0 });
    assert_eq!(r.on_write(WriteOutcome::Failed), Action::Write { sink: ids[2], from: 0 });
    assert_eq!(r.on_write(WriteOutcome::Wrote(1)), Action::Write { sink: ids[3], from: 0 });
    assert_eq!(r.on_write(WriteOutcome::Wrote(1)), Action::RoundDone(vec![ids[0], ids[1]]));
    assert_eq!(r.on_event(Event::SourceData(vec![6])), Action::Write { sink: ids[2], from: 0 });
    assert_eq!(r.on_write(WriteOutcome::Wrote(1)), Action::Write { sink: ids[3], from: 0 });
    assert_eq!(r.on_write(WriteOutcome::Wrote(1)), Action::RoundDone(vec![]));
}

#[test]
fn partial_writes_resume_at_the_unsent_tail() {
    let mut r = Relay::new();
    let a = accept(&mut r);
    assert_eq!(r.on_event(Event::SourceData(vec![1, 2, 3, 4, 5])), Action::Write { sink: a, from: 0 });
    assert_eq!(r.on_write(WriteOutcome::Wrote(2)), Action::Write { sink: a, from: 2 });
    assert_eq!(r.on_write(WriteOutcome::Wrote(1)), Action::Write { sink: a, from: 3 });
    assert_eq!(&r.payload()[3..], &[4u8, 5][..]);
    assert_eq!(r.on_write(WriteOutcome::Wrote(2)), Action::RoundDone(vec![]));
    assert_eq!(r.sink_count(), 1);
}

#[test]
fn late_joiner_gets_only_later_rounds() {
    let mut r = Relay::new();
    let a = accept(&mut r);
    assert_eq!(r.on_event(Event::SourceData(vec![1, 2])), Action::Write { sink: a, from: 0 });
    assert_eq!(r.on_write(WriteOutcome::Wrote(2)), Action::RoundDone(vec![]));
    let b = accept(&mut r);
    assert_eq!(b, 1);
    assert_eq!(r.on_event(Event::SourceData(vec![3])), Action::Write { sink: a, from: 0 });
    assert_eq!(r.payload(), &[3u8][..]);
    assert_eq!(r.on_write(WriteOutcome::Wrote(1)), Action::Write { sink: b, from: 0 });
    assert_eq!(r.on_write(WriteOutcome::Wrote(1)), Action::RoundDone(vec![]));
}

#[test]
fn data_without_sinks_ends_the_round_at_once() {
    let mut r = Relay::new();
    assert_eq!(r.on_event(Event::SourceData(vec![1, 2, 3])), Action::RoundDone(vec![]));
    assert_eq!(r.phase(), Phase::Waiting);
    assert_eq!(r.sink_count(), 0);
}

#[test]
fn cancel_stops_and_stays_stopped() {
    let mut r = Relay::new();
    accept(&mut r);
    assert_eq!(r.on_event(Event::Cancelled), Action::Stop);
    assert_eq!(r.phase(), Phase::Stopped);
    assert_eq!(r.on_event(Event::Accepted), Action::Stop);
    assert_eq!(r.on_event(Event::SourceData(vec![1])), Action::Stop);
    assert_eq!(r.on_event(Event::Cancelled), Action::Stop);
    assert_eq!(r.sink_count(), 1);
}

#[test]
fn empty_read_ends_the_relay() {
    let mut r = Relay::new();
    accept(&mut r);
    assert_eq!(r.on_event(Event::SourceData(vec![])), Action::Stop);
    assert_eq!(r.phase(), Phase::Stopped);
}

#[test]
fn source_failure_ends_the_relay() {
    let mut r = Relay::new();
    assert_eq!(r.on_event(Event::SourceEnded), Action::Stop);
    assert_eq!(r.phase(), Phase::Stopped);
}

#[test]
fn sink_write_tracks_offset_and_status() {
    let mut w = SinkWrite::new(4);
    assert_eq!(w.status(), WriteStatus::Pending);
    assert_eq!(w.record(WriteOutcome::Wrote(3)), WriteStatus::Pending);
    assert_eq!(w.sent(), 3);
    assert_eq!(w.record(WriteOutcome::Wrote(1)), WriteStatus::Complete);
    assert_eq!(w.sent(), 4);
}

#[test]
fn sink_write_fails_on_error_or_zero() {
    let mut w = SinkWrite::new(4);
    assert_eq!(w.record(WriteOutcome::Failed), WriteStatus::Failed);
    assert_eq!(w.sent(), 0);
    let mut z = SinkWrite::new(4);
    assert_eq!(z.record(WriteOutcome::Wrote(1)), WriteStatus::Pending);
    assert_eq!(z.record(WriteOutcome::Wrote(0)), WriteStatus::Failed);
    assert_eq!(z.sent(), 1);
}

#[test]
fn registry_filters_by_outcome_in_order() {
    let mut s = SinkRegistry::new();
    let ids: Vec<u64> = (0..5).map(|_| s.add().unwrap()).collect();
    assert_eq!(ids, vec![0, 1, 2, 3, 4]);
    let gone = s.complete_round(&vec![7, 8], &vec![true, false, true, false, false]);
    assert_eq!(gone, vec![1, 3, 4]);
    assert_eq!(s.len(), 2);
    assert_eq!((s.id_at(0), s.id_at(1)), (0, 2));
    assert_eq!(s.add(), Some(5));
    assert_eq!(s.id_at(2), 5);
}
