use vstd::prelude::*;

verus! {

/// The errors of a write that the fan-out tells apart. Whoever makes the
/// write says which of them the socket's error is.
#[derive(Debug, Clone, Copy, PartialEq, Eq)]
pub enum WriteFault {
    /// The connection was closed normally.
    ConnectionClosed,
    /// The connection had been closed before the write.
    AlreadyClosed,
    /// The peer went away without a closing handshake.
    ResetWithoutClosingHandshake,
    /// Any other error.
    Other,
}

/// What became of one write to a client's channel.
#[derive(Debug, Clone, Copy, PartialEq, Eq)]
pub enum SendOutcome {
    /// The write went through.
    Delivered,
    /// The connection is closed or reset: the channel is of no more use.
    ConnectionFault,
    /// The write failed for another reason: the channel is kept.
    OtherFault,
}

/// The outcome that a failed write counts as.
pub open spec fn fault_outcome(fault: WriteFault) -> SendOutcome {
    match fault {
        WriteFault::ConnectionClosed => SendOutcome::ConnectionFault,
        WriteFault::AlreadyClosed => SendOutcome::ConnectionFault,
        WriteFault::ResetWithoutClosingHandshake => SendOutcome::ConnectionFault,
        WriteFault::Other => SendOutcome::OtherFault,
    }
}

/// Classifies a failed write: a closed or reset connection is a connection
/// fault, anything else is not.
pub fn classify(fault: WriteFault) -> (outcome: SendOutcome)
    ensures
        outcome == fault_outcome(fault),
{
    match fault {
        WriteFault::ConnectionClosed => SendOutcome::ConnectionFault,
        WriteFault::AlreadyClosed => SendOutcome::ConnectionFault,
        WriteFault::ResetWithoutClosingHandshake => SendOutcome::ConnectionFault,
        WriteFault::Other => SendOutcome::OtherFault,
    }
}

/// The outcome of a write from what the socket returned: a write that went
/// through is delivered, a failed one is what its fault counts as.
pub fn send_outcome(sent: &Result<(), WriteFault>) -> (outcome: SendOutcome)
    ensures
        outcome == match *sent {
            Ok(_) => SendOutcome::Delivered,
            Err(fault) => fault_outcome(fault),
        },
{
    match sent {
        Ok(_) => SendOutcome::Delivered,
        Err(fault) => classify(*fault),
    }
}

/// The fan-out of one tick: `results` responses go to each of `channels`
/// channels, channel by channel, and `attempts` holds the outcome of every
/// write made so far, by channel. `channel` and `result` say which write
/// comes next; with `channel == channels` none is left.
pub struct FanOutView {
    pub channels: nat,
    pub results: nat,
    pub channel: nat,
    pub result: nat,
    pub attempts: Seq<Seq<SendOutcome>>,
}

impl FanOutView {
    /// The fan-out before its first write.
    pub open spec fn start(channels: nat, results: nat) -> FanOutView {
        FanOutView {
            channels,
            results,
            channel: if results == 0 {
                channels
            } else {
                0
            },
            result: 0,
            attempts: Seq::new(channels, |i: int| Seq::empty()),
        }
    }

    /// The next write, as the position of its channel and of its response.
    pub open spec fn pending(self) -> Option<(nat, nat)> {
        if self.channel < self.channels {
            Some((self.channel, self.result))
        } else {
            None
        }
    }

    /// The fan-out after the pending write ended in `outcome`. With no write
    /// pending nothing changes.
    pub open spec fn recorded(self, outcome: SendOutcome) -> FanOutView {
        if self.channel < self.channels {
            let row = self.attempts[self.channel as int].push(outcome);
            let last = self.result + 1 == self.results;
            FanOutView {
                channel: if last {
                    self.channel + 1
                } else {
                    self.channel
                },
                result: if last {
                    0
                } else {
                    self.result + 1
                },
                attempts: self.attempts.update(self.channel as int, row),
                ..self
            }
        } else {
            self
        }
    }

    /// Some write to the channel at `position` ended in a connection fault.
    pub open spec fn marked(self, position: int) -> bool {
        0 <= position < self.attempts.len() && exists|k: int|
            0 <= k < self.attempts[position].len() && #[trigger] self.attempts[position][k]
                == SendOutcome::ConnectionFault
    }

    /// The writes were made channel by channel, each channel's in the order
    /// of the responses.
    pub open spec fn ordered(self) -> bool {
        &&& self.attempts.len() == self.channels
        &&& self.channel <= self.channels
        &&& self.channel < self.channels ==> self.result < self.results
        &&& self.channel == self.channels ==> self.result == 0
        &&& forall|i: int|
            0 <= i < self.channel ==> (#[trigger] self.attempts[i]).len() == self.results
        &&& self.channel < self.channels ==> self.attempts[self.channel as int].len()
            == self.result
        &&& forall|i: int|
            self.channel < i < self.channels ==> (#[trigger] self.attempts[i]).len() == 0
    }

    /// The channels of `writes` that stay: those that are not marked, in
    /// their order.
    pub open spec fn survivors<T>(self, writes: Seq<T>) -> Seq<T>
        decreases writes.len(),
    {
        if writes.len() == 0 {
            writes
        } else if self.marked(writes.len() - 1) {
            self.survivors(writes.drop_last())
        } else {
            self.survivors(writes.drop_last()).push(writes.last())
        }
    }
}

/// The progress of one tick's fan-out. The caller makes the writes: it asks
/// for the next one, performs it, and records its outcome, until none is
/// left; then it prunes the channels.
pub struct FanOut {
    channels: usize,
    results: usize,
    channel: usize,
    result: usize,
    marked: Vec<bool>,
    attempts: Ghost<Seq<Seq<SendOutcome>>>,
}

impl View for FanOut {
    type V = FanOutView;

    closed spec fn view(&self) -> FanOutView {
        FanOutView {
            channels: self.channels as nat,
            results: self.results as nat,
            channel: self.channel as nat,
            result: self.result as nat,
            attempts: self.attempts@,
        }
    }
}

impl FanOut {
    /// The state is one that a fan-out can reach.
    pub closed spec fn wf(&self) -> bool {
        &&& self@.ordered()
        &&& self.marked.len() == self.channels
        &&& forall|i: int| 0 <= i < self.channels ==> self.marked[i] == self@.marked(i)
    }

    /// Starts the fan-out of `results` responses to `channels` channels.
    pub fn new(channels: usize, results: usize) -> (tick: Self)
        ensures
            tick.wf(),
            tick@.ordered(),
            tick@ == FanOutView::start(channels as nat, results as nat),
    {
        let mut marked: Vec<bool> = Vec::new();
        let mut i: usize = 0;
        while i < channels
            invariant
                0 <= i <= channels,
                marked.len() == i,
                forall|k: int| 0 <= k < i ==> !marked[k],
            decreases channels - i,
        {
            marked.push(false);
            i += 1;
        }
        let channel = if results == 0 {
            channels
        } else {
            0
        };
        FanOut {
            channels,
            results,
            channel,
            result: 0,
            marked,
            attempts: Ghost(Seq::new(channels as nat, |i: int| Seq::empty())),
        }
    }

    /// The write to make next: the position of the channel and that of the
    /// response. `None` when every response was written to every channel.
    pub fn next(&self) -> (step: Option<(usize, usize)>)
        requires
            self.wf(),
        ensures
            match step {
                Some((channel, result)) => self@.pending() == Some((channel as nat, result as nat)),
                None => self@.pending().is_none(),
            },
    {
        if self.channel < self.channels {
            Some((self.channel, self.result))
        } else {
            None
        }
    }

    /// Records the outcome of the pending write and moves on to the next. A
    /// connection fault marks the channel; the remaining responses are still
    /// written to it. With no write pending nothing changes.
    pub fn record(&mut self, outcome: SendOutcome)
        requires
            old(self).wf(),
        ensures
            final(self).wf(),
            final(self)@.ordered(),
            final(self)@ == old(self)@.recorded(outcome),
    {
        if self.channel < self.channels {
            let ghost before = self@;
            let c = self.channel;
            proof {
                self.attempts@ = before.attempts.update(
                    c as int,
                    before.attempts[c as int].push(outcome),
                );
            }
            match outcome {
                SendOutcome::ConnectionFault => {
                    self.marked.set(c, true);
                },
                _ => {},
            }
            if self.result + 1 == self.results {
                self.channel = c + 1;
                self.result = 0;
            } else {
                self.result = self.result + 1;
            }
            proof {
                let after = self@;
                let row = after.attempts[c as int];
                let last = row.len() - 1;
                assert(row[last] == outcome);
                assert forall|i: int| 0 <= i < self.channels implies self.marked[i]
                    == after.marked(i) by {
                    assert(old(self).marked[i] == before.marked(i));
                    if i != c {
                        assert(after.attempts[i] == before.attempts[i]);
                    } else if outcome != SendOutcome::ConnectionFault {
                        if before.marked(i) {
                            let k = choose|k: int|
                                0 <= k < last && #[trigger] before.attempts[i][k]
                                    == SendOutcome::ConnectionFault;
                            assert(row[k] == SendOutcome::ConnectionFault);
                        }
                        if after.marked(i) {
                            let k = choose|k: int|
                                0 <= k < row.len() && #[trigger] row[k]
                                    == SendOutcome::ConnectionFault;
                            assert(before.attempts[i][k] == SendOutcome::ConnectionFault);
                        }
                    }
                }
            }
        }
    }

    /// Whether a write to the channel at `position` ended in a connection
    /// fault during this tick.
    pub fn is_marked(&self, position: usize) -> (marked: bool)
        requires
            self.wf(),
        ensures
            marked == self@.marked(position as int),
    {
        position < self.marked.len() && self.marked[position]
    }

    /// Ends the tick: removes from `writes` the channels that are marked and
    /// keeps the others in their order. Channels that joined during the tick
    /// stand behind those it began with, and stay.
    pub fn prune<T>(&self, writes: &mut Vec<T>)
        requires
            self.wf(),
            self@.pending().is_none(),
        ensures
            final(writes)@ == self@.survivors(old(writes)@),
    {
        let ghost all = writes@;
        let n = writes.len();
        let mut i: usize = 0;
        let mut kept: usize = 0;
        while i < n
            invariant
                0 <= i <= n,
                n == all.len(),
                self.wf(),
                kept == self@.survivors(all.take(i as int)).len(),
                kept <= i,
                writes@ == self@.survivors(all.take(i as int)) + all.skip(i as int),
            decreases n - i,
        {
            assert(all.take(i + 1).drop_last() =~= all.take(i as int));
            assert(all.take(i + 1).last() == all[i as int]);
            if self.is_marked(i) {
                let _ = writes.remove(kept);
                assert(writes@ =~= self@.survivors(all.take(i + 1)) + all.skip(i + 1));
            } else {
                assert(writes@ =~= self@.survivors(all.take(i + 1)) + all.skip(i + 1));
                kept += 1;
            }
            i += 1;
        }
        assert(all.take(n as int) =~= all);
        assert(writes@ =~= self@.survivors(all));
    }
}

/// A well-formed fan-out is in order: what holds of every ordered state holds
/// of every state that [`FanOut::new`] and [`FanOut::record`] reach.
pub proof fn lemma_well_formed_is_ordered(tick: FanOut)
    requires
        tick.wf(),
    ensures
        tick@.ordered(),
{
}

/// A fan-out starts in order, and recording an outcome keeps it in order.
pub proof fn lemma_fan_out_stays_ordered(tick: FanOutView, outcome: SendOutcome)
    requires
        tick.ordered(),
    ensures
        FanOutView::start(tick.channels, tick.results).ordered(),
        tick.recorded(outcome).ordered(),
{
}

/// Recording files an outcome under the write it belongs to: the outcome of
/// writing the response at `result` to the channel at `channel` stands at
/// `attempts[channel][result]`, and every outcome filed before stays where
/// it is.
pub proof fn lemma_outcome_is_filed_under_its_write(tick: FanOutView, outcome: SendOutcome)
    requires
        tick.ordered(),
        tick.pending().is_some(),
    ensures
        ({
            let (channel, result) = tick.pending().unwrap();
            let after = tick.recorded(outcome);
            &&& after.attempts[channel as int].len() == result + 1
            &&& after.attempts[channel as int][result as int] == outcome
            &&& forall|i: int, k: int|
                0 <= i < tick.channels && 0 <= k < tick.attempts[i].len()
                    ==> #[trigger] after.attempts[i][k] == tick.attempts[i][k]
        }),
{
}

/// Once no write is pending, every response was written to every channel
/// that the tick began with, whether the channel is marked or not.
pub proof fn lemma_finished_tick_wrote_all(tick: FanOutView)
    requires
        tick.ordered(),
        tick.pending().is_none(),
    ensures
        forall|i: int|
            0 <= i < tick.channels ==> (#[trigger] tick.attempts[i]).len() == tick.results,
{
}

impl FanOutView {
    /// The place that the channel at `position` takes among the survivors of
    /// `writes`, if it stays: the number of survivors before it.
    pub open spec fn place<T>(self, writes: Seq<T>, position: int) -> int {
        self.survivors(writes.take(position)).len() as int
    }

    /// The position in `writes` of the channel that survives at `place`.
    pub open spec fn origin<T>(self, writes: Seq<T>, place: int) -> int {
        choose|i: int|
            0 <= i < writes.len() && !self.marked(i) && #[trigger] self.place(writes, i) == place
    }
}

/// Pruning removes the marked channels and nothing else. A channel that is
/// not marked stays, behind the survivors among the channels before it; and
/// every survivor is such a channel.
pub proof fn lemma_survivors_are_the_unmarked<T>(tick: FanOutView, writes: Seq<T>)
    ensures
        tick.survivors(writes).len() <= writes.len(),
        forall|i: int|
            0 <= i < writes.len() && !tick.marked(i) ==> {
                let place = #[trigger] tick.place(writes, i);
                0 <= place < tick.survivors(writes).len() && tick.survivors(writes)[place]
                    == writes[i]
            },
        forall|place: int|
            0 <= place < tick.survivors(writes).len() ==> {
                let i = #[trigger] tick.origin(writes, place);
                0 <= i < writes.len() && !tick.marked(i) && tick.place(writes, i) == place
            },
    decreases writes.len(),
{
    if writes.len() > 0 {
        let last = writes.len() - 1;
        let earlier = writes.drop_last();
        lemma_survivors_are_the_unmarked(tick, earlier);
        assert(writes.take(last) =~= earlier);
        assert forall|i: int| 0 <= i < last implies tick.place(writes, i) == tick.place(
            earlier,
            i,
        ) by {
            assert(writes.take(i) =~= earlier.take(i));
        }
        assert forall|i: int| 0 <= i < writes.len() && !tick.marked(i) implies {
            let place = #[trigger] tick.place(writes, i);
            0 <= place < tick.survivors(writes).len() && tick.survivors(writes)[place] == writes[i]
        } by {
            if i < last {
                assert(tick.place(writes, i) == tick.place(earlier, i));
                assert(earlier[i] == writes[i]);
            }
        }
        assert forall|place: int| 0 <= place < tick.survivors(writes).len() implies {
            let i = #[trigger] tick.origin(writes, place);
            0 <= i < writes.len() && !tick.marked(i) && tick.place(writes, i) == place
        } by {
            if place < tick.survivors(earlier).len() {
                let i = tick.origin(earlier, place);
                assert(tick.place(writes, i) == place);
            } else {
                assert(tick.place(writes, last) == place);
            }
        }
    }
}

/// What one finished tick over `writes` has done, and what the next one
/// will do. Every channel that the tick began with was written every
/// response, whether it stays or goes and wherever it stands. A channel is
/// marked if and only if one of those writes ended in a connection fault.
/// The tick that begins over the survivors has a place for each channel that
/// is not marked and for none that is.
pub proof fn lemma_tick_serves_all_and_prunes_the_closed<T>(
    tick: FanOutView,
    writes: Seq<T>,
    later: nat,
)
    requires
        tick.ordered(),
        tick.pending().is_none(),
    ensures
        forall|i: int|
            0 <= i < tick.channels ==> (#[trigger] tick.attempts[i]).len() == tick.results,
        forall|i: int|
            0 <= i < tick.channels ==> (#[trigger] tick.marked(i) <==> exists|k: int|
                0 <= k < tick.results && #[trigger] tick.attempts[i][k]
                    == SendOutcome::ConnectionFault),
        FanOutView::start(tick.survivors(writes).len(), later).ordered(),
        FanOutView::start(tick.survivors(writes).len(), later).channels == tick.survivors(
            writes,
        ).len(),
        forall|i: int|
            0 <= i < writes.len() && !tick.marked(i) ==> {
                let place = #[trigger] tick.place(writes, i);
                0 <= place < tick.survivors(writes).len() && tick.survivors(writes)[place]
                    == writes[i]
            },
        forall|place: int|
            0 <= place < tick.survivors(writes).len() ==> {
                let i = #[trigger] tick.origin(writes, place);
                0 <= i < writes.len() && !tick.marked(i) && tick.place(writes, i) == place
            },
{
    lemma_survivors_are_the_unmarked(tick, writes);
}

} // verus!
