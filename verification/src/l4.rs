//! The raw-order feed: one full snapshot, then diffs without end. The
//! reconciler tracks whether the client is synchronised, counts what it
//! sees, and decides what the driver does after every event.

use crate::backoff::{Backoff, BackoffView, ErrorClass};
use crate::decoder::{decode, decoded, DecodeError};
use crate::json::{interpret, items_of, json_document, member_items, Payload};
use crate::session::{
    class_of, directive_after_failure, on_stream_failure, Directive, StopReason, StreamEvent,
};
use vstd::prelude::*;
use vstd::slice::slice_subrange;
use vstd::string::{StringExecFns, StringSliceAdditionalSpecFns};
use vstd::utf8::{decode_utf8, encode_utf8, is_char_boundary};

verus! {

/// The key under which a diff lists its order status changes.
pub const ORDER_STATUSES_KEY: &'static str = "order_statuses";

/// The key under which a diff lists its changes to the book.
pub const BOOK_DIFFS_KEY: &'static str = "book_diffs";

/// The most book changes that are echoed in full.
pub const ECHO_LIMIT: usize = 5;

/// One resting order.
#[derive(Debug, PartialEq, Eq)]
pub struct RawOrder {
    /// The number of the order.
    pub oid: u64,
    /// The address of the owner.
    pub user: String,
    /// The limit price, a decimal number kept as text.
    pub limit_px: String,
    /// The size, a decimal number kept as text.
    pub sz: String,
}

/// The whole book at one height.
#[derive(Debug, PartialEq, Eq)]
pub struct L4Snapshot {
    /// The symbol of the coin.
    pub coin: String,
    /// The height of the chain at which the book was taken.
    pub height: u64,
    /// The time at which the book was taken.
    pub time: u64,
    /// The orders to buy.
    pub bids: Vec<RawOrder>,
    /// The orders to sell.
    pub asks: Vec<RawOrder>,
}

/// A diff as it arrives: the payload is text, compressed or not.
#[derive(Debug, PartialEq, Eq)]
pub struct L4DiffFrame {
    /// The height of the chain that the changes lead to.
    pub height: u64,
    /// The time of the changes.
    pub time: u64,
    /// The changes, as a payload to decode.
    pub data: Vec<u8>,
}

/// A message of the feed.
#[derive(Debug, PartialEq, Eq)]
pub enum L4Message {
    /// The full book.
    Snapshot(L4Snapshot),
    /// Changes on top of the latest snapshot.
    Diff(L4DiffFrame),
    /// An update that carries neither.
    Empty,
}

/// A diff whose payload was read. The entries are kept as documents: they
/// are counted and shown, never looked into.
#[derive(Debug, PartialEq)]
pub struct L4Diff {
    /// The height of the chain that the changes lead to.
    pub height: u64,
    /// The time of the changes.
    pub time: u64,
    /// The changes of order status.
    pub order_statuses: Vec<serde_json::Value>,
    /// The changes to the book.
    pub book_diffs: Vec<serde_json::Value>,
}

/// A message after its payload was read.
#[derive(Debug, PartialEq)]
pub enum L4Content {
    /// The full book.
    Snapshot(L4Snapshot),
    /// A diff with structured content.
    Diff(L4Diff),
    /// A diff whose text is no JSON document; the text is kept for display.
    Unstructured { height: u64, time: u64, text: String },
    /// A diff whose payload could not be decoded; it is skipped.
    Undecodable { height: u64, time: u64, error: DecodeError },
    /// An update that carried nothing.
    Empty,
}

/// The mathematical content of an [`L4Content`], variant by variant.
pub enum L4ContentView {
    /// The full book.
    Snapshot(L4Snapshot),
    /// A diff with structured content.
    Diff {
        height: u64,
        time: u64,
        order_statuses: Seq<serde_json::Value>,
        book_diffs: Seq<serde_json::Value>,
    },
    /// A diff whose text is no JSON document.
    Unstructured { height: u64, time: u64, text: Seq<char> },
    /// A diff whose payload could not be decoded.
    Undecodable { height: u64, time: u64, error: DecodeError },
    /// An update that carried nothing.
    Empty,
}

impl View for L4Content {
    type V = L4ContentView;

    open spec fn view(&self) -> L4ContentView {
        match self {
            L4Content::Snapshot(snapshot) => L4ContentView::Snapshot(*snapshot),
            L4Content::Diff(diff) => L4ContentView::Diff {
                height: diff.height,
                time: diff.time,
                order_statuses: diff.order_statuses@,
                book_diffs: diff.book_diffs@,
            },
            L4Content::Unstructured { height, time, text } => L4ContentView::Unstructured {
                height: *height,
                time: *time,
                text: text@,
            },
            L4Content::Undecodable { height, time, error } => L4ContentView::Undecodable {
                height: *height,
                time: *time,
                error: *error,
            },
            L4Content::Empty => L4ContentView::Empty,
        }
    }
}

/// What a diff frame holds: its payload decoded, parsed, and the two arrays
/// taken out. A payload that does not decode is marked as such; a text that
/// does not parse is kept as text.
pub open spec fn diff_content(frame: L4DiffFrame) -> L4ContentView {
    match decoded(frame.data@) {
        Err(error) => L4ContentView::Undecodable { height: frame.height, time: frame.time, error },
        Ok(text) => match json_document(text) {
            None => L4ContentView::Unstructured { height: frame.height, time: frame.time, text },
            Some(document) => L4ContentView::Diff {
                height: frame.height,
                time: frame.time,
                order_statuses: member_items(document, ORDER_STATUSES_KEY@),
                book_diffs: member_items(document, BOOK_DIFFS_KEY@),
            },
        },
    }
}

/// What a message holds.
pub open spec fn content_of(message: L4Message) -> L4ContentView {
    match message {
        L4Message::Snapshot(snapshot) => L4ContentView::Snapshot(snapshot),
        L4Message::Diff(frame) => diff_content(frame),
        L4Message::Empty => L4ContentView::Empty,
    }
}

impl L4Message {
    /// The message that an update with two optional parts stands for. The
    /// snapshot decides: an update that has one is a snapshot, whatever
    /// else it carries; every other update that carries a diff is a diff.
    pub fn from_parts(snapshot: Option<L4Snapshot>, diff: Option<L4DiffFrame>) -> (r: L4Message)
        ensures
            r == match (snapshot, diff) {
                (Some(s), _) => L4Message::Snapshot(s),
                (None, Some(d)) => L4Message::Diff(d),
                (None, None) => L4Message::Empty,
            },
    {
        match snapshot {
            Some(s) => L4Message::Snapshot(s),
            None => match diff {
                Some(d) => L4Message::Diff(d),
                None => L4Message::Empty,
            },
        }
    }
}

impl L4Diff {
    /// The diff that a parsed payload stands for: the elements of its two
    /// arrays, where an array that the document lacks counts as empty.
    pub fn from_document(height: u64, time: u64, document: &serde_json::Value) -> (r: L4Diff)
        ensures
            r.height == height,
            r.time == time,
            r.order_statuses@ == member_items(*document, ORDER_STATUSES_KEY@),
            r.book_diffs@ == member_items(*document, BOOK_DIFFS_KEY@),
    {
        L4Diff {
            height,
            time,
            order_statuses: items_of(document, ORDER_STATUSES_KEY),
            book_diffs: items_of(document, BOOK_DIFFS_KEY),
        }
    }

    /// Whether the book changes are few enough to be shown in full: at
    /// least one and at most [`ECHO_LIMIT`].
    pub fn echoes(&self) -> (r: bool)
        ensures
            r == (1 <= self.book_diffs@.len() <= ECHO_LIMIT),
    {
        let n = self.book_diffs.len();
        n > 0 && n <= ECHO_LIMIT
    }
}

/// The most orders of each side that are shown of a snapshot.
pub const SAMPLE_ORDERS: usize = 5;

/// The most bytes of the address of an owner that are shown.
pub const SHORT_USER_BYTES: usize = 10;

/// The orders of one side that are shown of a snapshot: the first
/// [`SAMPLE_ORDERS`], or all where there are fewer.
pub open spec fn sample_of(orders: Seq<RawOrder>) -> Seq<RawOrder> {
    if orders.len() <= SAMPLE_ORDERS {
        orders
    } else {
        orders.take(SAMPLE_ORDERS as int)
    }
}

/// The orders of one side that are shown of a snapshot.
pub fn sample(orders: &Vec<RawOrder>) -> (r: &[RawOrder])
    ensures
        r@ == sample_of(orders@),
{
    let count = if orders.len() <= SAMPLE_ORDERS {
        orders.len()
    } else {
        SAMPLE_ORDERS
    };
    assert(orders@.subrange(0, orders@.len() as int) =~= orders@);
    slice_subrange(orders.as_slice(), 0, count)
}

/// The address of an owner as it is shown: an address of more than
/// [`SHORT_USER_BYTES`] bytes is cut to its first bytes, with three dots
/// for the rest.
pub open spec fn short_user_of(user: Seq<char>) -> Seq<char> {
    if encode_utf8(user).len() > SHORT_USER_BYTES {
        decode_utf8(encode_utf8(user).take(SHORT_USER_BYTES as int)) + seq!['.', '.', '.']
    } else {
        user
    }
}

/// Shortens the address of an owner for display. A long address must have
/// a character boundary where it is cut, as every address of plain letters
/// and digits has.
pub fn short_user(user: &str) -> (r: String)
    requires
        user.spec_bytes().len() > SHORT_USER_BYTES ==> is_char_boundary(
            user.spec_bytes(),
            SHORT_USER_BYTES as int,
        ),
    ensures
        r@ == short_user_of(user@),
{
    if user.as_bytes().len() > SHORT_USER_BYTES {
        let (head, _) = user.split_at(SHORT_USER_BYTES);
        let mut short = head.to_owned();
        proof {
            vstd::utf8::encode_utf8_decode_utf8(head@);
            reveal_strlit("...");
            assert("..."@ =~= seq!['.', '.', '.']);
        }
        short.append("...");
        short
    } else {
        user.to_owned()
    }
}

/// Sorts a diff by the outcome of decoding its payload.
pub fn diff_from_payload(height: u64, time: u64, payload: Result<Payload, DecodeError>) -> (r:
    L4Content)
    ensures
        r@ == match payload {
            Err(error) => L4ContentView::Undecodable { height, time, error },
            Ok(Payload::Unstructured(text)) => L4ContentView::Unstructured {
                height,
                time,
                text: text@,
            },
            Ok(Payload::Structured(document)) => L4ContentView::Diff {
                height,
                time,
                order_statuses: member_items(document, ORDER_STATUSES_KEY@),
                book_diffs: member_items(document, BOOK_DIFFS_KEY@),
            },
        },
{
    match payload {
        Err(error) => L4Content::Undecodable { height, time, error },
        Ok(Payload::Unstructured(text)) => L4Content::Unstructured { height, time, text },
        Ok(Payload::Structured(document)) => L4Content::Diff(
            L4Diff::from_document(height, time, &document),
        ),
    }
}

/// Reads the payload of a message: a diff is decoded and parsed, anything
/// else is handed on as it is. Nothing here fails: what cannot be read is
/// marked, so that the stream goes on.
pub fn read_message(message: L4Message) -> (r: L4Content)
    ensures
        r@ == content_of(message),
{
    match message {
        L4Message::Snapshot(snapshot) => L4Content::Snapshot(snapshot),
        L4Message::Empty => L4Content::Empty,
        L4Message::Diff(frame) => {
            let payload = match decode(frame.data.as_slice()) {
                Err(error) => Err(error),
                Ok(text) => Ok(interpret(text)),
            };
            diff_from_payload(frame.height, frame.time, payload)
        },
    }
}

/// Reads the payload of the message that an event carries, if it carries
/// one.
pub fn read_event(event: StreamEvent<L4Message>) -> (r: StreamEvent<L4Content>)
    ensures
        match event {
            StreamEvent::Message(message) => r matches StreamEvent::Message(content)
                && content@ == content_of(message),
            StreamEvent::ConnectFailed => r == StreamEvent::<L4Content>::ConnectFailed,
            StreamEvent::Ended => r == StreamEvent::<L4Content>::Ended,
            StreamEvent::Failed { code } => r == (StreamEvent::<L4Content>::Failed { code }),
        },
{
    match event {
        StreamEvent::Message(message) => StreamEvent::Message(read_message(message)),
        StreamEvent::ConnectFailed => StreamEvent::ConnectFailed,
        StreamEvent::Ended => StreamEvent::Ended,
        StreamEvent::Failed { code } => StreamEvent::Failed { code },
    }
}

/// Whether the client holds a book that the diffs apply to.
#[derive(Clone, Copy, Debug, PartialEq, Eq, Structural)]
pub enum SyncState {
    /// No snapshot has arrived on this stream yet.
    AwaitingSnapshot,
    /// A snapshot has arrived; diffs are in order.
    Synced,
}

/// An event as the reconciler sees it: of a message, only its kind and its
/// counts matter.
pub enum L4Input {
    /// Opening the stream failed.
    ConnectFailed,
    /// A snapshot arrived.
    Snapshot,
    /// A diff arrived, with this many order status changes and book
    /// changes. A diff that could not be read has none.
    Diff { order_statuses: nat, book_diffs: nat },
    /// An update that carried nothing arrived.
    Empty,
    /// The server closed the stream in good order.
    Ended,
    /// The stream broke off.
    Failed(ErrorClass),
}

impl L4Input {
    /// The event is a message of any kind.
    pub open spec fn is_message(self) -> bool {
        self is Snapshot || self is Diff || self is Empty
    }

    /// The counts of a diff are lengths of vectors.
    pub open spec fn wf(self) -> bool {
        self matches L4Input::Diff { order_statuses, book_diffs } ==> order_statuses <= usize::MAX
            && book_diffs <= usize::MAX
    }
}

/// What the reconciler sees of a message.
pub open spec fn input_of_content(content: L4ContentView) -> L4Input {
    match content {
        L4ContentView::Snapshot(_) => L4Input::Snapshot,
        L4ContentView::Diff { order_statuses, book_diffs, .. } => L4Input::Diff {
            order_statuses: order_statuses.len(),
            book_diffs: book_diffs.len(),
        },
        L4ContentView::Unstructured { .. } => L4Input::Diff { order_statuses: 0, book_diffs: 0 },
        L4ContentView::Undecodable { .. } => L4Input::Diff { order_statuses: 0, book_diffs: 0 },
        L4ContentView::Empty => L4Input::Empty,
    }
}

/// What the reconciler sees of an event whose payload was read.
pub open spec fn input_of(event: StreamEvent<L4Content>) -> L4Input {
    match event {
        StreamEvent::ConnectFailed => L4Input::ConnectFailed,
        StreamEvent::Message(content) => input_of_content(content@),
        StreamEvent::Ended => L4Input::Ended,
        StreamEvent::Failed { code } => L4Input::Failed(class_of(code)),
    }
}

/// What the reconciler sees of an event as it arrives.
pub open spec fn input_of_raw(event: StreamEvent<L4Message>) -> L4Input {
    match event {
        StreamEvent::ConnectFailed => L4Input::ConnectFailed,
        StreamEvent::Message(message) => input_of_content(content_of(message)),
        StreamEvent::Ended => L4Input::Ended,
        StreamEvent::Failed { code } => L4Input::Failed(class_of(code)),
    }
}

/// The mathematical content of an [`L4Reconciler`].
pub struct L4State {
    /// The reconnect policy and its attempt count.
    pub backoff: BackoffView,
    /// Whether a snapshot has arrived on the current stream.
    pub sync: SyncState,
    /// The number of messages after which the session ends, if any.
    pub max_messages: Option<nat>,
    /// Messages processed, over all streams of the session.
    pub total_messages: nat,
    /// Diffs that arrived before the snapshot of their stream.
    pub anomalies: nat,
    /// Order status changes seen in all diffs.
    pub order_statuses: nat,
    /// Book changes seen in all diffs.
    pub book_diffs: nat,
    /// Why the session is over, once it is.
    pub stopped: Option<StopReason>,
}

impl L4State {
    /// The state before the first event.
    pub open spec fn initial(backoff: BackoffView, max_messages: Option<nat>) -> L4State {
        L4State {
            backoff,
            sync: SyncState::AwaitingSnapshot,
            max_messages,
            total_messages: 0,
            anomalies: 0,
            order_statuses: 0,
            book_diffs: 0,
            stopped: if backoff.exhausted() {
                Some(StopReason::RetriesExhausted)
            } else {
                None
            },
        }
    }

    /// The session goes on.
    pub open spec fn running(self) -> bool {
        self.stopped is None
    }

    /// A running session has an attempt left, and the counters are bounded
    /// by the number of messages.
    pub open spec fn wf(self) -> bool {
        &&& self.backoff.wf()
        &&& self.running() ==> !self.backoff.exhausted()
        &&& self.anomalies <= self.total_messages
        &&& self.order_statuses <= self.total_messages * usize::MAX
        &&& self.book_diffs <= self.total_messages * usize::MAX
    }

    /// The message counter can take one more message.
    pub open spec fn has_room(self) -> bool {
        self.total_messages < u64::MAX
    }

    /// The message limit is reached.
    pub open spec fn at_limit(self) -> bool {
        self.max_messages matches Some(limit) && self.total_messages >= limit
    }

    /// A diff arrives out of order: before the snapshot of its stream.
    pub open spec fn out_of_order(self, input: L4Input) -> bool {
        self.running() && input is Diff && self.sync == SyncState::AwaitingSnapshot
    }

    /// The state after a message, for a running session.
    pub open spec fn count(self, input: L4Input) -> L4State
        recommends
            self.running(),
            input.is_message(),
    {
        let counted = L4State { total_messages: self.total_messages + 1, ..self };
        let seen = match input {
            L4Input::Snapshot => L4State {
                sync: SyncState::Synced,
                backoff: self.backoff.succeed(),
                ..counted
            },
            L4Input::Diff { order_statuses, book_diffs } => L4State {
                anomalies: if self.sync == SyncState::AwaitingSnapshot {
                    self.anomalies + 1
                } else {
                    self.anomalies
                },
                order_statuses: self.order_statuses + order_statuses,
                book_diffs: self.book_diffs + book_diffs,
                ..counted
            },
            _ => counted,
        };
        if seen.at_limit() {
            L4State { stopped: Some(StopReason::MessageLimit), ..seen }
        } else {
            seen
        }
    }

    /// The state after a failure of the stream, for a running session. A
    /// reconnect starts a stream of which nothing is known, so the client
    /// waits for a snapshot again.
    pub open spec fn fail(self, class: ErrorClass) -> L4State
        recommends
            self.running(),
    {
        match directive_after_failure(self.backoff, class) {
            Directive::Stop(reason) => L4State {
                backoff: crate::session::backoff_after_failure(self.backoff, class),
                stopped: Some(reason),
                ..self
            },
            _ => L4State {
                backoff: crate::session::backoff_after_failure(self.backoff, class),
                sync: SyncState::AwaitingSnapshot,
                ..self
            },
        }
    }

    /// The state after an event. Once the session is over nothing changes.
    pub open spec fn next(self, input: L4Input) -> L4State {
        if !self.running() {
            self
        } else {
            match input {
                L4Input::ConnectFailed => L4State {
                    stopped: Some(StopReason::ConnectFailed),
                    ..self
                },
                L4Input::Ended => L4State { stopped: Some(StopReason::StreamEnded), ..self },
                L4Input::Failed(class) => self.fail(class),
                _ => self.count(input),
            }
        }
    }

    /// What the driver does after an event.
    pub open spec fn directive(self, input: L4Input) -> Directive {
        match self.next(input).stopped {
            Some(reason) => Directive::Stop(reason),
            None => match input {
                L4Input::Failed(class) => directive_after_failure(self.backoff, class),
                _ => Directive::Receive,
            },
        }
    }

    /// The session goes on or has ended without a failure.
    pub open spec fn not_failed(self) -> bool {
        self.stopped matches Some(reason) ==> !reason.is_error()
    }

    /// What the driver does first.
    pub open spec fn first_directive(self) -> Directive {
        match self.stopped {
            Some(reason) => Directive::Stop(reason),
            None => Directive::Connect,
        }
    }

    /// The state after a sequence of events.
    pub open spec fn run(self, inputs: Seq<L4Input>) -> L4State
        decreases inputs.len(),
    {
        if inputs.len() == 0 {
            self
        } else {
            self.run(inputs.drop_last()).next(inputs.last())
        }
    }
}

/// What the reconciler says of a message.
#[derive(Debug, PartialEq)]
pub struct L4Report {
    /// The message, with its payload read.
    pub content: L4Content,
    /// The message is a diff that arrived before the snapshot of its stream.
    pub out_of_order: bool,
    /// The message is a diff whose book changes are few enough to be shown.
    pub echo: bool,
}

/// The answer to an event.
#[derive(Debug, PartialEq)]
pub struct L4Outcome {
    /// What to show of the message, where the event was one and the session
    /// was still going on.
    pub report: Option<L4Report>,
    /// What the driver does next.
    pub directive: Directive,
}

/// Whether the book changes of a message are shown in full.
pub open spec fn echoes(content: L4ContentView) -> bool {
    content matches L4ContentView::Diff { book_diffs, .. } && 1 <= book_diffs.len() <= ECHO_LIMIT
}

/// Follows the raw-order feed.
#[derive(Clone, Copy, Debug, PartialEq, Eq)]
pub struct L4Reconciler {
    backoff: Backoff,
    sync: SyncState,
    max_messages: Option<u64>,
    total_messages: u64,
    anomalies: u64,
    order_statuses: u128,
    book_diffs: u128,
    stopped: Option<StopReason>,
}

impl View for L4Reconciler {
    type V = L4State;

    closed spec fn view(&self) -> L4State {
        L4State {
            backoff: self.backoff@,
            sync: self.sync,
            max_messages: match self.max_messages {
                Some(limit) => Some(limit as nat),
                None => None,
            },
            total_messages: self.total_messages as nat,
            anomalies: self.anomalies as nat,
            order_statuses: self.order_statuses as nat,
            book_diffs: self.book_diffs as nat,
            stopped: self.stopped,
        }
    }
}

/// A counter bounded by `usize::MAX` per message has room for one more
/// message as long as the message count fits in a `u64`.
proof fn lemma_counter_has_room(counter: nat, messages: nat, more: nat)
    requires
        counter <= messages * usize::MAX,
        messages < u64::MAX,
        more <= usize::MAX,
    ensures
        counter + more <= (messages + 1) * usize::MAX,
        counter + more <= u128::MAX,
{
    assert((messages + 1) * usize::MAX == messages * usize::MAX + usize::MAX)
        by (nonlinear_arith);
    assert((messages + 1) * usize::MAX <= 0xffff_ffff_ffff_ffff * 0xffff_ffff_ffff_ffff)
        by (nonlinear_arith)
        requires
            messages + 1 <= 0xffff_ffff_ffff_ffff,
            usize::MAX <= 0xffff_ffff_ffff_ffff,
    ;
}

impl L4Reconciler {
    /// Holds of every reconciler that exists.
    #[verifier::type_invariant]
    pub open spec fn inv(self) -> bool {
        self@.wf()
    }

    /// A reconciler before the first event. With a policy that has no
    /// attempt left the session is over before it starts.
    pub fn new(backoff: Backoff, max_messages: Option<u64>) -> (r: L4Reconciler)
        ensures
            r@ == L4State::initial(
                backoff@,
                match max_messages {
                    Some(limit) => Some(limit as nat),
                    None => None,
                },
            ),
            r@.wf(),
    {
        let stopped = if backoff.should_retry(ErrorClass::Transient) {
            None
        } else {
            Some(StopReason::RetriesExhausted)
        };
        proof {
            use_type_invariant(&backoff);
        }
        L4Reconciler {
            backoff,
            sync: SyncState::AwaitingSnapshot,
            max_messages,
            total_messages: 0,
            anomalies: 0,
            order_statuses: 0,
            book_diffs: 0,
            stopped,
        }
    }

    /// What the driver does first: connect, unless the session is over.
    pub fn begin(&self) -> (d: Directive)
        ensures
            d == self@.first_directive(),
    {
        match self.stopped {
            Some(reason) => Directive::Stop(reason),
            None => Directive::Connect,
        }
    }

    /// Whether a snapshot has arrived on the current stream.
    pub fn sync_state(&self) -> (r: SyncState)
        ensures
            r == self@.sync,
            self@.wf(),
    {
        proof {
            use_type_invariant(self);
        }
        self.sync
    }

    /// The reconnect policy with its attempt count.
    pub fn backoff(&self) -> (r: Backoff)
        ensures
            r@ == self@.backoff,
    {
        self.backoff
    }

    /// Messages processed, over all streams of the session.
    pub fn total_messages(&self) -> (r: u64)
        ensures
            r == self@.total_messages,
    {
        self.total_messages
    }

    /// The number of messages after which the session ends, if any.
    pub fn max_messages(&self) -> (r: Option<u64>)
        ensures
            match r {
                Some(limit) => self@.max_messages == Some(limit as nat),
                None => self@.max_messages is None,
            },
    {
        self.max_messages
    }

    /// Diffs that arrived before the snapshot of their stream.
    pub fn anomalies(&self) -> (r: u64)
        ensures
            r == self@.anomalies,
    {
        self.anomalies
    }

    /// Order status changes seen in all diffs.
    pub fn order_statuses(&self) -> (r: u128)
        ensures
            r == self@.order_statuses,
    {
        self.order_statuses
    }

    /// Book changes seen in all diffs.
    pub fn book_diffs(&self) -> (r: u128)
        ensures
            r == self@.book_diffs,
    {
        self.book_diffs
    }

    /// Why the session is over, once it is.
    pub fn stopped(&self) -> (r: Option<StopReason>)
        ensures
            r == self@.stopped,
    {
        self.stopped
    }

    /// Processes a message of a running session.
    fn count(&mut self, content: L4Content) -> (out: L4Outcome)
        requires
            old(self)@.running(),
            old(self)@.has_room(),
        ensures
            final(self)@ == old(self)@.count(input_of_content(content@)),
            out.directive == old(self)@.directive(input_of_content(content@)),
            out.report == Some(
                L4Report {
                    content,
                    out_of_order: old(self)@.out_of_order(input_of_content(content@)),
                    echo: echoes(content@),
                },
            ),
    {
        proof {
            use_type_invariant(&*self);
        }
        let total_messages = self.total_messages + 1;
        let mut sync = self.sync;
        let mut backoff = self.backoff;
        let mut anomalies = self.anomalies;
        let mut order_statuses = self.order_statuses;
        let mut book_diffs = self.book_diffs;
        let mut out_of_order = false;
        let mut echo = false;
        match &content {
            L4Content::Snapshot(_) => {
                sync = SyncState::Synced;
                backoff.record_success();
            },
            L4Content::Diff(diff) => {
                out_of_order = self.sync == SyncState::AwaitingSnapshot;
                echo = diff.echoes();
                let status_count = diff.order_statuses.len();
                let diff_count = diff.book_diffs.len();
                proof {
                    lemma_counter_has_room(
                        self@.order_statuses,
                        self@.total_messages,
                        status_count as nat,
                    );
                    lemma_counter_has_room(
                        self@.book_diffs,
                        self@.total_messages,
                        diff_count as nat,
                    );
                }
                order_statuses = order_statuses + status_count as u128;
                book_diffs = book_diffs + diff_count as u128;
            },
            L4Content::Unstructured { .. } => {
                out_of_order = self.sync == SyncState::AwaitingSnapshot;
            },
            L4Content::Undecodable { .. } => {
                out_of_order = self.sync == SyncState::AwaitingSnapshot;
            },
            L4Content::Empty => {},
        }
        if out_of_order {
            anomalies = anomalies + 1;
        }
        let at_limit = match self.max_messages {
            Some(limit) => total_messages >= limit,
            None => false,
        };
        let stopped = if at_limit {
            Some(StopReason::MessageLimit)
        } else {
            None
        };
        proof {
            lemma_counter_has_room(self@.order_statuses, self@.total_messages, 0);
            lemma_counter_has_room(self@.book_diffs, self@.total_messages, 0);
        }
        *self = L4Reconciler {
            backoff,
            sync,
            max_messages: self.max_messages,
            total_messages,
            anomalies,
            order_statuses,
            book_diffs,
            stopped,
        };
        let directive = if at_limit {
            Directive::Stop(StopReason::MessageLimit)
        } else {
            Directive::Receive
        };
        L4Outcome { report: Some(L4Report { content, out_of_order, echo }), directive }
    }

    /// Answers an event whose payload was read: updates the state and says
    /// what to show and what to do next.
    ///
    /// A snapshot synchronises the client and counts as recovery. A diff
    /// before the snapshot of its stream is flagged and counted as an
    /// anomaly; it is processed like any other diff, but the client keeps
    /// waiting for the snapshot. Every message counts towards the message
    /// limit. A transient failure leads to a reconnect after the
    /// wait of its attempt, until the attempts are used up; any other
    /// failure, and the end of the stream, end the session. Once the
    /// session is over every event is answered by the same stop.
    pub fn apply(&mut self, event: StreamEvent<L4Content>) -> (out: L4Outcome)
        requires
            old(self)@.running() && event is Message ==> old(self)@.has_room(),
        ensures
            final(self)@ == old(self)@.next(input_of(event)),
            final(self)@.wf(),
            out.directive == old(self)@.directive(input_of(event)),
            out.report == match event {
                StreamEvent::Message(content) if old(self)@.running() => Some(
                    L4Report {
                        content,
                        out_of_order: old(self)@.out_of_order(input_of(event)),
                        echo: echoes(content@),
                    },
                ),
                _ => None,
            },
    {
        proof {
            use_type_invariant(&*self);
        }
        if let Some(reason) = self.stopped {
            return L4Outcome { report: None, directive: Directive::Stop(reason) };
        }
        match event {
            StreamEvent::Message(content) => {
                let out = self.count(content);
                proof {
                    use_type_invariant(&*self);
                }
                out
            },
            StreamEvent::ConnectFailed => {
                self.stopped = Some(StopReason::ConnectFailed);
                L4Outcome { report: None, directive: Directive::Stop(StopReason::ConnectFailed) }
            },
            StreamEvent::Ended => {
                self.stopped = Some(StopReason::StreamEnded);
                L4Outcome { report: None, directive: Directive::Stop(StopReason::StreamEnded) }
            },
            StreamEvent::Failed { code } => {
                let mut backoff = self.backoff;
                let directive = on_stream_failure(&mut backoff, code);
                let (sync, stopped) = match directive {
                    Directive::Stop(reason) => (self.sync, Some(reason)),
                    _ => (SyncState::AwaitingSnapshot, None),
                };
                *self = L4Reconciler {
                    backoff,
                    sync,
                    max_messages: self.max_messages,
                    total_messages: self.total_messages,
                    anomalies: self.anomalies,
                    order_statuses: self.order_statuses,
                    book_diffs: self.book_diffs,
                    stopped,
                };
                L4Outcome { report: None, directive }
            },
        }
    }

    /// Answers an event as it arrives: reads the payload of a diff, then
    /// goes on as [`L4Reconciler::apply`] does.
    pub fn on_event(&mut self, event: StreamEvent<L4Message>) -> (out: L4Outcome)
        requires
            old(self)@.running() && event is Message ==> old(self)@.has_room(),
        ensures
            final(self)@ == old(self)@.next(input_of_raw(event)),
            final(self)@.wf(),
            out.directive == old(self)@.directive(input_of_raw(event)),
            match event {
                StreamEvent::Message(message) if old(self)@.running() => {
                    &&& out.report matches Some(report)
                    &&& report.content@ == content_of(message)
                    &&& report.out_of_order == old(self)@.out_of_order(input_of_raw(event))
                    &&& report.echo == echoes(content_of(message))
                },
                _ => out.report is None,
            },
    {
        let read = read_event(event);
        self.apply(read)
    }
}

/// `n` transient failures in a row.
pub open spec fn transient_failures(n: nat) -> Seq<L4Input> {
    Seq::new(n, |i: int| L4Input::Failed(ErrorClass::Transient))
}

/// Every event of the sequence is a message.
pub open spec fn all_messages(inputs: Seq<L4Input>) -> bool {
    forall|i: int| 0 <= i < inputs.len() ==> (#[trigger] inputs[i]).is_message()
}

/// Every step keeps the state well formed.
pub proof fn lemma_next_keeps_wf(state: L4State, input: L4Input)
    requires
        state.wf(),
        input.wf(),
    ensures
        state.next(input).wf(),
{
    if state.running() {
        match input {
            L4Input::Failed(class) => {},
            L4Input::ConnectFailed => {},
            L4Input::Ended => {},
            _ => {
                let more_statuses = match input {
                    L4Input::Diff { order_statuses, .. } => order_statuses,
                    _ => 0,
                };
                let more_diffs = match input {
                    L4Input::Diff { book_diffs, .. } => book_diffs,
                    _ => 0,
                };
                assert((state.total_messages + 1) * usize::MAX == state.total_messages
                    * usize::MAX + usize::MAX) by (nonlinear_arith);
            },
        }
    }
}

/// The client becomes synchronised by a snapshot and by nothing else.
pub proof fn lemma_sync_comes_from_snapshot(state: L4State, input: L4Input)
    ensures
        state.next(input).sync == SyncState::Synced ==> state.sync == SyncState::Synced
            || input is Snapshot,
{
}

/// A session that starts without a snapshot and is synchronised after a
/// sequence of events has processed a snapshot among them.
pub proof fn lemma_synced_after_snapshot_only(state: L4State, inputs: Seq<L4Input>)
    requires
        state.sync == SyncState::AwaitingSnapshot,
    ensures
        state.run(inputs).sync == SyncState::Synced ==> exists|i: int|
            0 <= i < inputs.len() && (#[trigger] inputs[i]) is Snapshot,
    decreases inputs.len(),
{
    if inputs.len() > 0 {
        let earlier = inputs.drop_last();
        lemma_synced_after_snapshot_only(state, earlier);
        if state.run(inputs).sync == SyncState::Synced {
            if inputs.last() is Snapshot {
                assert(inputs[inputs.len() - 1] is Snapshot);
            } else {
                lemma_sync_comes_from_snapshot(state.run(earlier), inputs.last());
                let i = choose|i: int| 0 <= i < earlier.len() && (#[trigger] earlier[i]) is Snapshot;
                assert(inputs[i] is Snapshot);
            }
        }
    }
}

/// A diff that arrives before the snapshot of its stream is flagged and
/// counted as an anomaly; the client keeps waiting for the snapshot, and the
/// attempt count is not reset.
pub proof fn lemma_early_diff_is_anomaly(state: L4State, input: L4Input)
    requires
        state.running(),
        state.sync == SyncState::AwaitingSnapshot,
        input is Diff,
    ensures
        state.out_of_order(input),
        state.next(input).anomalies == state.anomalies + 1,
        state.next(input).sync == SyncState::AwaitingSnapshot,
        state.next(input).backoff == state.backoff,
        state.next(input).not_failed(),
{
}

/// A diff that arrives after the snapshot of its stream is no anomaly.
pub proof fn lemma_diff_in_order(state: L4State, input: L4Input)
    requires
        state.running(),
        state.sync == SyncState::Synced,
        input is Diff,
    ensures
        !state.out_of_order(input),
        state.next(input).anomalies == state.anomalies,
        state.next(input).sync == SyncState::Synced,
{
}

/// No message ends a session in a failure, whatever it holds and whether or
/// not its payload could be read: after a message the session goes on, or
/// it has reached its message limit.
pub proof fn lemma_messages_never_fail(state: L4State, input: L4Input)
    requires
        state.running(),
        input.is_message(),
    ensures
        state.next(input).running() || state.next(input).stopped == Some(
            StopReason::MessageLimit,
        ),
        state.next(input).not_failed(),
        state.next(input).total_messages == state.total_messages + 1,
{
}

/// A session ends in a failure only when the stream cannot be opened or
/// breaks off with a failure that is not transient.
pub proof fn lemma_only_hard_failures_are_errors(state: L4State, input: L4Input)
    requires
        state.running(),
        !state.next(input).not_failed(),
    ensures
        input is ConnectFailed || input == L4Input::Failed(ErrorClass::Fatal),
{
}

/// Once the session is over, no event changes the state, and the answer to
/// every event is the same stop: nothing is received and no reconnect is
/// made.
pub proof fn lemma_stop_is_final(state: L4State, input: L4Input)
    requires
        state.stopped is Some,
    ensures
        state.next(input) == state,
        state.directive(input) == Directive::Stop(state.stopped->0),
{
}

/// With a message limit, a session that sees only messages goes on until
/// the limit is reached and ends, without an error, with the message that
/// reaches it. Every kind of message counts. A limit of zero is reached by
/// the first message.
pub proof fn lemma_stops_at_message_limit(state: L4State, inputs: Seq<L4Input>, limit: nat)
    requires
        state.running(),
        state.total_messages == 0,
        state.max_messages == Some(limit),
        all_messages(inputs),
        inputs.len() <= limit || inputs.len() <= 1,
    ensures
        state.run(inputs).total_messages == inputs.len(),
        state.run(inputs).max_messages == Some(limit),
        state.run(inputs).running() <==> inputs.len() < limit || inputs.len() == 0,
        !state.run(inputs).running() ==> state.run(inputs).stopped == Some(
            StopReason::MessageLimit,
        ) && !StopReason::MessageLimit.is_error(),
    decreases inputs.len(),
{
    if inputs.len() > 0 {
        let earlier = inputs.drop_last();
        assert(all_messages(earlier)) by {
            assert forall|i: int| 0 <= i < earlier.len() implies (#[trigger] earlier[i]).is_message() by {
                assert(inputs[i].is_message());
            }
        }
        lemma_stops_at_message_limit(state, earlier, limit);
        assert(inputs.last() == inputs[inputs.len() - 1]);
        assert(inputs.last().is_message());
    }
}

/// After a success, transient failures in a row are each answered by a
/// reconnect until their number reaches the limit of the policy; the
/// failure that reaches it ends the session, which is then over for good
/// (see [`lemma_stop_is_final`]).
pub proof fn lemma_gives_up_after_max_failures(state: L4State, n: nat)
    requires
        state.wf(),
        state.running(),
        state.backoff.attempt == 0,
        n <= state.backoff.max_attempts,
    ensures
        state.run(transient_failures(n)).backoff.attempt == n,
        state.run(transient_failures(n)).backoff.max_attempts == state.backoff.max_attempts,
        state.run(transient_failures(n)).backoff.base_delay == state.backoff.base_delay,
        state.run(transient_failures(n)).running() <==> n < state.backoff.max_attempts || n == 0,
        !state.run(transient_failures(n)).running() ==> state.run(
            transient_failures(n),
        ).stopped == Some(StopReason::RetriesExhausted),
        n >= 1 ==> state.run(transient_failures((n - 1) as nat)).directive(
            L4Input::Failed(ErrorClass::Transient),
        ) == if n < state.backoff.max_attempts {
            Directive::Reconnect {
                attempt: n as u32,
                delay_secs: crate::backoff::delay_at(state.backoff.base_delay, n) as u64,
            }
        } else {
            Directive::Stop(StopReason::RetriesExhausted)
        },
    decreases n,
{
    if n > 0 {
        let fewer = (n - 1) as nat;
        lemma_gives_up_after_max_failures(state, fewer);
        assert(transient_failures(n).drop_last() =~= transient_failures(fewer));
        assert(transient_failures(n).last() == L4Input::Failed(ErrorClass::Transient));
    }
}

} // verus!
