use json_ecs_sub::{classify, send_outcome, FanOut, SendOutcome, WriteFault};

/// Runs one tick: `outcome(channel, result)` is what each write ends in.
/// Returns the writes in the order in which they were made.
fn tick(
    writes: &mut Vec<&'static str>,
    results: usize,
    outcome: fn(&str, usize) -> SendOutcome,
) -> Vec<(&'static str, usize)> {
    let mut fan_out = FanOut::new(writes.len(), results);
    let mut made = Vec::new();
    while let Some((channel, result)) = fan_out.next() {
        made.push((writes[channel], result));
        fan_out.record(outcome(writes[channel], result));
    }
    fan_out.prune(writes);
    made
}

#[test]
fn closed_connections_are_connection_faults() {
    assert_eq!(
        classify(WriteFault::ConnectionClosed),
        SendOutcome::ConnectionFault
    );
    assert_eq!(
        classify(WriteFault::AlreadyClosed),
        SendOutcome::ConnectionFault
    );
    assert_eq!(
        classify(WriteFault::ResetWithoutClosingHandshake),
        SendOutcome::ConnectionFault
    );
    assert_eq!(classify(WriteFault::Other), SendOutcome::OtherFault);
}

#[test]
fn send_outcome_is_delivered_or_what_the_fault_counts_as() {
    assert_eq!(send_outcome(&Ok(())), SendOutcome::Delivered);
    assert_eq!(
        send_outcome(&Err(WriteFault::ConnectionClosed)),
        SendOutcome::ConnectionFault
    );
    assert_eq!(
        send_outcome(&Err(WriteFault::AlreadyClosed)),
        SendOutcome::ConnectionFault
    );
    assert_eq!(
        send_outcome(&Err(WriteFault::ResetWithoutClosingHandshake)),
        SendOutcome::ConnectionFault
    );
    assert_eq!(
        send_outcome(&Err(WriteFault::Other)),
        SendOutcome::OtherFault
    );
}

#[test]
fn a_channel_that_reports_closed_is_pruned_wherever_it_stands() {
    for closed in ["first", "second"] {
        let mut writes = vec!["first", "second"];
        let mut fan_out = FanOut::new(writes.len(), 3);
        let mut served = Vec::new();
        while let Some((channel, result)) = fan_out.next() {
            let sent = if writes[channel] == closed {
                Err(WriteFault::ConnectionClosed)
            } else {
                served.push(result);
                Ok(())
            };
            fan_out.record(send_outcome(&sent));
        }
        fan_out.prune(&mut writes);
        assert_eq!(served, vec![0, 1, 2]);
        assert_eq!(writes.len(), 1);
        assert_ne!(writes[0], closed);
    }
}

#[test]
fn every_response_goes_to_every_channel_in_order() {
    let mut writes = vec!["a", "b", "c"];
    let made = tick(&mut writes, 2, |_, _| SendOutcome::Delivered);
    assert_eq!(
        made,
        vec![("a", 0), ("a", 1), ("b", 0), ("b", 1), ("c", 0), ("c", 1)]
    );
    assert_eq!(writes, vec!["a", "b", "c"]);
}

#[test]
fn a_closed_channel_is_pruned_after_the_tick() {
    let mut writes = vec!["closed", "open"];
    let made = tick(&mut writes, 2, |channel, _| {
        if channel == "closed" {
            SendOutcome::ConnectionFault
        } else {
            SendOutcome::Delivered
        }
    });
    assert_eq!(
        made,
        vec![("closed", 0), ("closed", 1), ("open", 0), ("open", 1)]
    );
    assert_eq!(writes, vec!["open"]);

    let made = tick(&mut writes, 3, |_, _| SendOutcome::Delivered);
    assert_eq!(made, vec![("open", 0), ("open", 1), ("open", 2)]);
    assert_eq!(writes, vec!["open"]);
}

#[test]
fn one_connection_fault_marks_the_channel() {
    let mut writes = vec!["a", "b", "c", "d"];
    tick(&mut writes, 3, |channel, result| match (channel, result) {
        ("b", 1) => SendOutcome::ConnectionFault,
        ("d", 2) => SendOutcome::ConnectionFault,
        ("c", _) => SendOutcome::OtherFault,
        _ => SendOutcome::Delivered,
    });
    assert_eq!(writes, vec!["a", "c"]);
}

#[test]
fn other_faults_keep_the_channel() {
    let mut writes = vec!["a", "b"];
    tick(&mut writes, 2, |_, _| SendOutcome::OtherFault);
    assert_eq!(writes, vec!["a", "b"]);
}

#[test]
fn all_channels_may_go() {
    let mut writes = vec!["a", "b", "c"];
    tick(&mut writes, 1, |_, _| SendOutcome::ConnectionFault);
    assert!(writes.is_empty());
}

#[test]
fn a_tick_without_responses_writes_nothing() {
    let mut writes = vec!["a", "b"];
    let made = tick(&mut writes, 0, |_, _| SendOutcome::ConnectionFault);
    assert!(made.is_empty());
    assert_eq!(writes, vec!["a", "b"]);
}

#[test]
fn a_tick_without_channels_writes_nothing() {
    let mut writes: Vec<&'static str> = vec![];
    let made = tick(&mut writes, 5, |_, _| SendOutcome::Delivered);
    assert!(made.is_empty());
    assert!(writes.is_empty());
}

#[test]
fn marks_follow_the_recorded_outcomes() {
    let mut fan_out = FanOut::new(2, 2);
    assert_eq!(fan_out.next(), Some((0, 0)));
    fan_out.record(SendOutcome::Delivered);
    assert!(!fan_out.is_marked(0));
    assert_eq!(fan_out.next(), Some((0, 1)));
    fan_out.record(SendOutcome::ConnectionFault);
    assert!(fan_out.is_marked(0));
    assert_eq!(fan_out.next(), Some((1, 0)));
    fan_out.record(SendOutcome::OtherFault);
    assert_eq!(fan_out.next(), Some((1, 1)));
    fan_out.record(SendOutcome::Delivered);
    assert_eq!(fan_out.next(), None);
    fan_out.record(SendOutcome::ConnectionFault);
    assert_eq!(fan_out.next(), None);
    assert!(fan_out.is_marked(0));
    assert!(!fan_out.is_marked(1));
    assert!(!fan_out.is_marked(2));
}

#[test]
fn channels_that_joined_during_the_tick_stay() {
    let mut fan_out = FanOut::new(2, 1);
    fan_out.record(SendOutcome::ConnectionFault);
    fan_out.record(SendOutcome::ConnectionFault);
    let mut writes = vec!["a", "b", "late"];
    fan_out.prune(&mut writes);
    assert_eq!(writes, vec!["late"]);
}
