//! The price-level feed: every message is a full book of the best levels
//! and replaces what was there. The session keeps the current book, lays
//! it out for display, and decides what the driver does after every event.

use crate::backoff::{Backoff, BackoffView, ErrorClass};
use crate::session::{
    backoff_after_failure, class_of, directive_after_failure, on_stream_failure, Directive,
    StopReason, StreamEvent,
};
use vstd::prelude::*;

verus! {

/// The most levels that are shown of each side, however many arrived.
pub const DISPLAY_LEVELS: usize = 10;

/// One aggregated price level. Price and size are decimal numbers kept as
/// text.
#[derive(Debug, PartialEq, Eq)]
pub struct PriceLevel {
    /// The price.
    pub px: String,
    /// The size of all orders at the price.
    pub sz: String,
    /// The number of orders at the price.
    pub n: u32,
}

impl Clone for PriceLevel {
    fn clone(&self) -> (r: Self)
        ensures
            r == *self,
    {
        PriceLevel { px: self.px.clone(), sz: self.sz.clone(), n: self.n }
    }
}

/// The best levels of both sides at one block. Each side starts with its
/// best price.
#[derive(Debug, PartialEq, Eq)]
pub struct L2Update {
    /// The symbol of the coin.
    pub coin: String,
    /// The number of the block at which the book was taken.
    pub block_number: u64,
    /// The time at which the book was taken.
    pub time: u64,
    /// The levels of the buyers, the highest price first.
    pub bids: Vec<PriceLevel>,
    /// The levels of the sellers, the lowest price first.
    pub asks: Vec<PriceLevel>,
}

/// The best price of each side.
#[derive(Debug, PartialEq, Eq)]
pub struct Spread {
    /// The highest price that a buyer offers.
    pub best_bid: String,
    /// The lowest price that a seller asks.
    pub best_ask: String,
}

/// A book laid out for display.
#[derive(Debug, PartialEq, Eq)]
pub struct L2Display {
    /// The symbol of the coin.
    pub coin: String,
    /// The number of the block at which the book was taken.
    pub block_number: u64,
    /// The time at which the book was taken.
    pub time: u64,
    /// The asks that are shown, the worst price first, so that the best ask
    /// stands next to the spread.
    pub asks: Vec<PriceLevel>,
    /// The best prices, where both sides have one.
    pub spread: Option<Spread>,
    /// The bids that are shown, the best price first.
    pub bids: Vec<PriceLevel>,
}

/// The levels of one side that are shown: the first [`DISPLAY_LEVELS`], or
/// all where there are fewer.
pub open spec fn shown(levels: Seq<PriceLevel>) -> Seq<PriceLevel> {
    if levels.len() <= DISPLAY_LEVELS {
        levels
    } else {
        levels.take(DISPLAY_LEVELS as int)
    }
}

/// The best prices of a book, where both sides have one.
pub open spec fn spread_of(bids: Seq<PriceLevel>, asks: Seq<PriceLevel>) -> Option<Spread> {
    if bids.len() > 0 && asks.len() > 0 {
        Some(Spread { best_bid: bids[0].px, best_ask: asks[0].px })
    } else {
        None
    }
}

/// Whether a display lays out a book as it should.
pub open spec fn displays(display: L2Display, update: L2Update) -> bool {
    &&& display.coin == update.coin
    &&& display.block_number == update.block_number
    &&& display.time == update.time
    &&& display.asks@ == shown(update.asks@).reverse()
    &&& display.spread == spread_of(update.bids@, update.asks@)
    &&& display.bids@ == shown(update.bids@)
}

/// At most [`DISPLAY_LEVELS`] levels of a side are shown, and they are the
/// first of the side, in their order.
pub proof fn lemma_shown_is_capped(levels: Seq<PriceLevel>)
    ensures
        shown(levels).len() <= DISPLAY_LEVELS,
        shown(levels).len() <= levels.len(),
        levels.len() <= DISPLAY_LEVELS ==> shown(levels) == levels,
        forall|i: int| 0 <= i < shown(levels).len() ==> shown(levels)[i] == levels[i],
        forall|i: int|
            0 <= i < shown(levels).len() ==> shown(levels).reverse()[i] == levels[shown(
                levels,
            ).len() - 1 - i],
{
}

/// Copies the levels of one side that are shown, the best price first.
pub fn top_levels(levels: &Vec<PriceLevel>) -> (r: Vec<PriceLevel>)
    ensures
        r@ == shown(levels@),
{
    let count = if levels.len() <= DISPLAY_LEVELS {
        levels.len()
    } else {
        DISPLAY_LEVELS
    };
    let mut out: Vec<PriceLevel> = Vec::new();
    let mut i: usize = 0;
    while i < count
        invariant
            i <= count <= levels.len(),
            out@ == levels@.take(i as int),
        decreases count - i,
    {
        out.push(levels[i].clone());
        i = i + 1;
        assert(out@ =~= levels@.take(i as int));
    }
    assert(levels@.take(levels.len() as int) =~= levels@);
    out
}

/// Copies the levels of one side that are shown, the worst price first.
pub fn top_levels_reversed(levels: &Vec<PriceLevel>) -> (r: Vec<PriceLevel>)
    ensures
        r@ == shown(levels@).reverse(),
{
    let count = if levels.len() <= DISPLAY_LEVELS {
        levels.len()
    } else {
        DISPLAY_LEVELS
    };
    assert(shown(levels@) =~= levels@.take(count as int));
    let mut out: Vec<PriceLevel> = Vec::new();
    let mut i: usize = count;
    while i > 0
        invariant
            i <= count <= levels.len(),
            out@.len() == count - i,
            forall|j: int| 0 <= j < out@.len() ==> out@[j] == levels@[count - 1 - j],
        decreases i,
    {
        i = i - 1;
        out.push(levels[i].clone());
    }
    assert(out@ =~= levels@.take(count as int).reverse());
    out
}

/// The best prices of a book. There is a spread only where both sides have
/// a level; a one-sided book is no error.
pub fn spread(update: &L2Update) -> (r: Option<Spread>)
    ensures
        r == spread_of(update.bids@, update.asks@),
{
    if update.bids.len() > 0 && update.asks.len() > 0 {
        Some(Spread { best_bid: update.bids[0].px.clone(), best_ask: update.asks[0].px.clone() })
    } else {
        None
    }
}

/// Lays a book out for display. The book itself is left whole: the cap on
/// the levels holds of the display only.
pub fn display(update: &L2Update) -> (r: L2Display)
    ensures
        displays(r, *update),
{
    L2Display {
        coin: update.coin.clone(),
        block_number: update.block_number,
        time: update.time,
        asks: top_levels_reversed(&update.asks),
        spread: spread(update),
        bids: top_levels(&update.bids),
    }
}

/// An event as the session sees it.
pub enum L2Input {
    /// Opening the stream failed.
    ConnectFailed,
    /// A book arrived.
    Message(L2Update),
    /// The server closed the stream in good order.
    Ended,
    /// The stream broke off.
    Failed(ErrorClass),
}

/// What the session sees of an event.
pub open spec fn input_of(event: StreamEvent<L2Update>) -> L2Input {
    match event {
        StreamEvent::ConnectFailed => L2Input::ConnectFailed,
        StreamEvent::Message(update) => L2Input::Message(update),
        StreamEvent::Ended => L2Input::Ended,
        StreamEvent::Failed { code } => L2Input::Failed(class_of(code)),
    }
}

/// The mathematical content of an [`L2Session`].
pub struct L2State {
    /// The reconnect policy and its attempt count.
    pub backoff: BackoffView,
    /// The book of the latest message, if one has arrived.
    pub book: Option<L2Update>,
    /// Messages received on the current stream.
    pub messages: nat,
    /// Why the session is over, once it is.
    pub stopped: Option<StopReason>,
}

impl L2State {
    /// The state before the first event.
    pub open spec fn initial(backoff: BackoffView) -> L2State {
        L2State {
            backoff,
            book: None,
            messages: 0,
            stopped: if backoff.exhausted() {
                Some(StopReason::RetriesExhausted)
            } else {
                None
            },
        }
    }

    /// The session goes on.
    pub open spec fn running(self) -> bool {
        self.stopped is None
    }

    /// A running session has an attempt left.
    pub open spec fn wf(self) -> bool {
        &&& self.backoff.wf()
        &&& self.running() ==> !self.backoff.exhausted()
    }

    /// The message counter can take one more message.
    pub open spec fn has_room(self) -> bool {
        self.messages < u64::MAX
    }

    /// The message is the first of its stream: the one that shows that the
    /// stream delivers, and that resets the attempt count.
    pub open spec fn first_of_stream(self, input: L2Input) -> bool {
        self.running() && input is Message && self.messages == 0
    }

    /// The state after a failure of the stream, for a running session. The
    /// stream that follows a reconnect has delivered nothing yet.
    pub open spec fn fail(self, class: ErrorClass) -> L2State
        recommends
            self.running(),
    {
        match directive_after_failure(self.backoff, class) {
            Directive::Stop(reason) => L2State {
                backoff: backoff_after_failure(self.backoff, class),
                stopped: Some(reason),
                ..self
            },
            _ => L2State {
                backoff: backoff_after_failure(self.backoff, class),
                messages: 0,
                ..self
            },
        }
    }

    /// The state after an event. Every message replaces the book. Once the
    /// session is over nothing changes.
    pub open spec fn next(self, input: L2Input) -> L2State {
        if !self.running() {
            self
        } else {
            match input {
                L2Input::ConnectFailed => L2State {
                    stopped: Some(StopReason::ConnectFailed),
                    ..self
                },
                L2Input::Ended => L2State { stopped: Some(StopReason::StreamEnded), ..self },
                L2Input::Failed(class) => self.fail(class),
                L2Input::Message(update) => L2State {
                    backoff: if self.messages == 0 {
                        self.backoff.succeed()
                    } else {
                        self.backoff
                    },
                    book: Some(update),
                    messages: self.messages + 1,
                    ..self
                },
            }
        }
    }

    /// What the driver does after an event.
    pub open spec fn directive(self, input: L2Input) -> Directive {
        match self.next(input).stopped {
            Some(reason) => Directive::Stop(reason),
            None => match input {
                L2Input::Failed(class) => directive_after_failure(self.backoff, class),
                _ => Directive::Receive,
            },
        }
    }

    /// The session goes on or has ended without a failure.
    pub open spec fn not_failed(self) -> bool {
        self.stopped matches Some(reason) ==> !reason.is_error()
    }

    /// What the driver does first.
    pub open spec fn first_directive(self) -> Directive {
        match self.stopped {
            Some(reason) => Directive::Stop(reason),
            None => Directive::Connect,
        }
    }

    /// The state after a sequence of events.
    pub open spec fn run(self, inputs: Seq<L2Input>) -> L2State
        decreases inputs.len(),
    {
        if inputs.len() == 0 {
            self
        } else {
            self.run(inputs.drop_last()).next(inputs.last())
        }
    }
}

/// What the session says of a message.
#[derive(Debug, PartialEq, Eq)]
pub struct L2Report {
    /// The book of the message, laid out for display.
    pub display: L2Display,
    /// The message is the first of its stream.
    pub first_of_stream: bool,
    /// Messages received on the current stream, this one included.
    pub messages: u64,
}

/// The answer to an event.
#[derive(Debug, PartialEq, Eq)]
pub struct L2Outcome {
    /// What to show of the message, where the event was one and the session
    /// was still going on.
    pub report: Option<L2Report>,
    /// What the driver does next.
    pub directive: Directive,
}

/// Follows the price-level feed.
#[derive(Debug, PartialEq, Eq)]
pub struct L2Session {
    backoff: Backoff,
    book: Option<L2Update>,
    messages: u64,
    stopped: Option<StopReason>,
}

impl View for L2Session {
    type V = L2State;

    closed spec fn view(&self) -> L2State {
        L2State {
            backoff: self.backoff@,
            book: self.book,
            messages: self.messages as nat,
            stopped: self.stopped,
        }
    }
}

impl L2Session {
    /// Holds of every session that exists.
    #[verifier::type_invariant]
    pub open spec fn inv(self) -> bool {
        self@.wf()
    }

    /// A session before the first event. With a policy that has no attempt
    /// left the session is over before it starts.
    pub fn new(backoff: Backoff) -> (r: L2Session)
        ensures
            r@ == L2State::initial(backoff@),
            r@.wf(),
    {
        let stopped = if backoff.should_retry(ErrorClass::Transient) {
            None
        } else {
            Some(StopReason::RetriesExhausted)
        };
        proof {
            use_type_invariant(&backoff);
        }
        L2Session { backoff, book: None, messages: 0, stopped }
    }

    /// What the driver does first: connect, unless the session is over.
    pub fn begin(&self) -> (d: Directive)
        ensures
            d == self@.first_directive(),
    {
        match self.stopped {
            Some(reason) => Directive::Stop(reason),
            None => Directive::Connect,
        }
    }

    /// The reconnect policy with its attempt count.
    pub fn backoff(&self) -> (r: Backoff)
        ensures
            r@ == self@.backoff,
            self@.wf(),
    {
        proof {
            use_type_invariant(self);
        }
        self.backoff
    }

    /// The book of the latest message, whole.
    pub fn book(&self) -> (r: Option<&L2Update>)
        ensures
            match r {
                Some(book) => self@.book == Some(*book),
                None => self@.book is None,
            },
    {
        self.book.as_ref()
    }

    /// The current book laid out for display, if there is a book.
    pub fn current_display(&self) -> (r: Option<L2Display>)
        ensures
            match self@.book {
                Some(book) => r matches Some(d) && displays(d, book),
                None => r is None,
            },
    {
        match &self.book {
            Some(book) => Some(display(book)),
            None => None,
        }
    }

    /// Messages received on the current stream.
    pub fn messages(&self) -> (r: u64)
        ensures
            r == self@.messages,
    {
        self.messages
    }

    /// Why the session is over, once it is.
    pub fn stopped(&self) -> (r: Option<StopReason>)
        ensures
            r == self@.stopped,
    {
        self.stopped
    }

    /// Answers an event: updates the state and says what to show and what
    /// to do next.
    ///
    /// Every message replaces the book and is laid out for display. The
    /// first message of a stream counts as recovery and resets the attempt
    /// count. A transient failure leads to a reconnect after the wait of
    /// its attempt, until the attempts are used up; any other failure, and
    /// the end of the stream, end the session. Once the session is over
    /// every event is answered by the same stop.
    pub fn on_event(&mut self, event: StreamEvent<L2Update>) -> (out: L2Outcome)
        requires
            old(self)@.running() && event is Message ==> old(self)@.has_room(),
        ensures
            final(self)@ == old(self)@.next(input_of(event)),
            final(self)@.wf(),
            out.directive == old(self)@.directive(input_of(event)),
            match event {
                StreamEvent::Message(update) if old(self)@.running() => {
                    &&& out.report matches Some(report)
                    &&& displays(report.display, update)
                    &&& report.first_of_stream == old(self)@.first_of_stream(input_of(event))
                    &&& report.messages == old(self)@.messages + 1
                },
                _ => out.report is None,
            },
    {
        proof {
            use_type_invariant(&*self);
        }
        if let Some(reason) = self.stopped {
            return L2Outcome { report: None, directive: Directive::Stop(reason) };
        }
        match event {
            StreamEvent::Message(update) => {
                let first_of_stream = self.messages == 0;
                if first_of_stream {
                    let mut backoff = self.backoff;
                    backoff.record_success();
                    self.backoff = backoff;
                }
                self.messages = self.messages + 1;
                let report = L2Report {
                    display: display(&update),
                    first_of_stream,
                    messages: self.messages,
                };
                self.book = Some(update);
                L2Outcome { report: Some(report), directive: Directive::Receive }
            },
            StreamEvent::ConnectFailed => {
                self.stopped = Some(StopReason::ConnectFailed);
                L2Outcome { report: None, directive: Directive::Stop(StopReason::ConnectFailed) }
            },
            StreamEvent::Ended => {
                self.stopped = Some(StopReason::StreamEnded);
                L2Outcome { report: None, directive: Directive::Stop(StopReason::StreamEnded) }
            },
            StreamEvent::Failed { code } => {
                let mut backoff = self.backoff;
                let directive = on_stream_failure(&mut backoff, code);
                match directive {
                    Directive::Stop(reason) => {
                        self.stopped = Some(reason);
                        self.backoff = backoff;
                    },
                    _ => {
                        self.backoff = backoff;
                        self.messages = 0;
                    },
                }
                L2Outcome { report: None, directive }
            },
        }
    }
}

/// Once the session is over, no event changes the state, and the answer to
/// every event is the same stop: nothing is received and no reconnect is
/// made.
pub proof fn lemma_stop_is_final(state: L2State, input: L2Input)
    requires
        state.stopped is Some,
    ensures
        state.next(input) == state,
        state.directive(input) == Directive::Stop(state.stopped->0),
{
}

/// A session ends in a failure only when the stream cannot be opened or
/// breaks off with a failure that is not transient.
pub proof fn lemma_only_hard_failures_are_errors(state: L2State, input: L2Input)
    requires
        state.running(),
        !state.next(input).not_failed(),
    ensures
        input is ConnectFailed || input == L2Input::Failed(ErrorClass::Fatal),
{
}

/// The first message of a stream resets the attempt count, whatever it was;
/// a later message leaves the policy as it is. Every message becomes the
/// book.
pub proof fn lemma_message_recovers(state: L2State, update: L2Update)
    requires
        state.running(),
    ensures
        state.next(L2Input::Message(update)).book == Some(update),
        state.next(L2Input::Message(update)).running(),
        state.messages == 0 ==> state.next(L2Input::Message(update)).backoff.attempt == 0,
        state.messages > 0 ==> state.next(L2Input::Message(update)).backoff == state.backoff,
{
}

/// `n` transient failures in a row.
pub open spec fn transient_failures(n: nat) -> Seq<L2Input> {
    Seq::new(n, |i: int| L2Input::Failed(ErrorClass::Transient))
}

/// After a success, transient failures in a row are each answered by a
/// reconnect, after a wait that doubles from one to the next, until their
/// number reaches the limit of the policy; the failure that reaches it ends
/// the session, which is then over for good (see [`lemma_stop_is_final`]).
pub proof fn lemma_gives_up_after_max_failures(state: L2State, n: nat)
    requires
        state.wf(),
        state.running(),
        state.backoff.attempt == 0,
        n <= state.backoff.max_attempts,
    ensures
        state.run(transient_failures(n)).backoff.attempt == n,
        state.run(transient_failures(n)).backoff.max_attempts == state.backoff.max_attempts,
        state.run(transient_failures(n)).backoff.base_delay == state.backoff.base_delay,
        state.run(transient_failures(n)).running() <==> n < state.backoff.max_attempts || n == 0,
        !state.run(transient_failures(n)).running() ==> state.run(
            transient_failures(n),
        ).stopped == Some(StopReason::RetriesExhausted),
        n >= 1 ==> state.run(transient_failures((n - 1) as nat)).directive(
            L2Input::Failed(ErrorClass::Transient),
        ) == if n < state.backoff.max_attempts {
            Directive::Reconnect {
                attempt: n as u32,
                delay_secs: crate::backoff::delay_at(state.backoff.base_delay, n) as u64,
            }
        } else {
            Directive::Stop(StopReason::RetriesExhausted)
        },
    decreases n,
{
    if n > 0 {
        let fewer = (n - 1) as nat;
        lemma_gives_up_after_max_failures(state, fewer);
        assert(transient_failures(n).drop_last() =~= transient_failures(fewer));
        assert(transient_failures(n).last() == L2Input::Failed(ErrorClass::Transient));
    }
}

} // verus!
