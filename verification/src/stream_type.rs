//! The kinds of event stream that a subscription can ask for.

use crate::text::same_text;
use vstd::prelude::*;

verus! {

/// A kind of event stream.
#[derive(Clone, Copy, Debug, PartialEq, Eq, Structural)]
pub enum StreamType {
    Trades,
    Orders,
    Events,
    BookUpdates,
    Twap,
    Blocks,
    WriterActions,
}

/// The text that `str::to_uppercase` makes of a text.
pub uninterp spec fn uppercase(s: Seq<char>) -> Seq<char>;

/// Calls `str::to_uppercase`. The contract only names the outcome: the text
/// handed back is that of `uppercase`.
#[verifier::external_body]
fn to_uppercase(s: &str) -> (r: String)
    ensures
        r@ == uppercase(s@),
{
    s.to_uppercase()
}

/// The stream that an upper-case name stands for. A name that is none of
/// the seven known ones stands for trades.
pub open spec fn stream_type_named(name: Seq<char>) -> StreamType {
    if name == "TRADES"@ {
        StreamType::Trades
    } else if name == "ORDERS"@ {
        StreamType::Orders
    } else if name == "EVENTS"@ {
        StreamType::Events
    } else if name == "BOOK_UPDATES"@ {
        StreamType::BookUpdates
    } else if name == "TWAP"@ {
        StreamType::Twap
    } else if name == "BLOCKS"@ {
        StreamType::Blocks
    } else if name == "WRITER_ACTIONS"@ {
        StreamType::WriterActions
    } else {
        StreamType::Trades
    }
}

/// The stream that an upper-case name stands for; trades where the name is
/// not known.
pub fn stream_type_from_upper(name: &str) -> (r: StreamType)
    ensures
        r == stream_type_named(name@),
{
    if same_text(name, "TRADES") {
        StreamType::Trades
    } else if same_text(name, "ORDERS") {
        StreamType::Orders
    } else if same_text(name, "EVENTS") {
        StreamType::Events
    } else if same_text(name, "BOOK_UPDATES") {
        StreamType::BookUpdates
    } else if same_text(name, "TWAP") {
        StreamType::Twap
    } else if same_text(name, "BLOCKS") {
        StreamType::Blocks
    } else if same_text(name, "WRITER_ACTIONS") {
        StreamType::WriterActions
    } else {
        StreamType::Trades
    }
}

/// The stream that a name stands for, whatever its case; trades where the
/// name is not known.
pub fn parse_stream_type(s: &str) -> (r: StreamType)
    ensures
        r == stream_type_named(uppercase(s@)),
{
    let upper = to_uppercase(s);
    stream_type_from_upper(upper.as_str())
}

} // verus!
