//! The generic event stream: what a subscription asks for, and what an
//! update of the stream holds.

use crate::decoder::{decoded, DecodeError};
use crate::json::{payload_of, read_payload, Payload};
use crate::stream_type::{parse_stream_type, stream_type_named, uppercase, StreamType};
use crate::text::{chars_of, find, lemma_find, split, split_bounds, texts};
use vstd::prelude::*;
use vstd::string::StrSliceExecFns;

verus! {

/// A restriction of a stream: only events whose field has one of the values.
#[derive(Debug, PartialEq, Eq)]
pub struct Filter {
    /// The name of the field.
    pub field: String,
    /// The values that pass.
    pub values: Vec<String>,
}

/// The filter that an argument of the form `field=value,value` stands for:
/// the field is what stands before the first equals sign, and the commas
/// cut the rest into the values. An argument without an equals sign stands
/// for nothing.
pub open spec fn filter_of(arg: Seq<char>) -> Option<(Seq<char>, Seq<Seq<char>>)> {
    let cut = find(arg, '=');
    if 0 <= cut < arg.len() {
        Some((arg.take(cut), split(arg.skip(cut + 1), ',')))
    } else {
        None
    }
}

/// Reads a filter from an argument of the form `field=value,value`.
pub fn parse_filter(arg: &str) -> (r: Option<Filter>)
    ensures
        match r {
            Some(filter) => filter_of(arg@) == Some((filter.field@, texts(filter.values@))),
            None => filter_of(arg@) is None,
        },
{
    let chars = chars_of(arg);
    let mut cut: usize = 0;
    while cut < chars.len() && chars[cut] != '='
        invariant
            cut <= chars@.len(),
            forall|j: int| 0 <= j < cut ==> chars@[j] != '=',
        decreases chars@.len() - cut,
    {
        cut = cut + 1;
    }
    proof {
        lemma_find(chars@, '=', cut as int);
    }
    if cut == chars.len() {
        return None;
    }
    let bounds = split_bounds(&chars, cut + 1, chars.len(), ',');
    assert(chars@.subrange(cut + 1, chars@.len() as int) =~= arg@.skip(cut + 1));
    let mut values: Vec<String> = Vec::new();
    let mut k: usize = 0;
    while k < bounds.len()
        invariant
            k <= bounds@.len(),
            chars@ == arg@,
            values@.len() == k,
            forall|i: int|
                0 <= i < bounds@.len() ==> (#[trigger] bounds@[i]).0 <= bounds@[i].1
                    <= chars@.len(),
            forall|i: int|
                0 <= i < k ==> (#[trigger] values@[i])@ == chars@.subrange(
                    bounds@[i].0 as int,
                    bounds@[i].1 as int,
                ),
        decreases bounds@.len() - k,
    {
        let (from, to) = bounds[k];
        values.push(arg.substring_char(from, to).to_owned());
        k = k + 1;
    }
    assert(texts(values@) =~= split(arg@.skip(cut + 1), ','));
    assert(arg@.take(cut as int) =~= arg@.subrange(0, cut as int));
    Some(Filter { field: arg.substring_char(0, cut).to_owned(), values })
}

/// What a subscription asks for.
#[derive(Debug, PartialEq, Eq)]
pub struct Subscription {
    /// The kind of event to stream.
    pub stream_type: StreamType,
    /// The block to start from; zero for the current one.
    pub start_block: u64,
    /// The restrictions on the events.
    pub filters: Vec<Filter>,
    /// A name for the set of filters; may be empty.
    pub filter_name: String,
}

impl Subscription {
    /// A subscription to the stream of the given name, from the current
    /// block on, with these filters and no name for them.
    pub fn new(stream_name: &str, filters: Vec<Filter>) -> (r: Subscription)
        ensures
            r.stream_type == stream_type_named(uppercase(stream_name@)),
            r.start_block == 0,
            r.filters == filters,
            r.filter_name@ == Seq::<char>::empty(),
    {
        Subscription {
            stream_type: parse_stream_type(stream_name),
            start_block: 0,
            filters,
            filter_name: String::new(),
        }
    }
}

/// An update of the stream: data of a block, or the answer to a liveness
/// message.
#[derive(Debug, PartialEq, Eq)]
pub enum StreamUpdate {
    /// The events of a block, as text that may be compressed.
    Data { block_number: u64, timestamp: u64, data: Vec<u8> },
    /// The time that the liveness message carried.
    Pong(i64),
}

/// An update whose payload was read.
#[derive(Debug, PartialEq)]
pub enum StreamContent {
    /// The events of a block.
    Data { block_number: u64, timestamp: u64, payload: Payload },
    /// The time that the liveness message carried.
    Pong(i64),
}

/// Reads the payload of an update: the data of a block is decoded and
/// sorted into structured or unstructured content; the answer to a
/// liveness message has none. Only decoding can fail.
pub fn read_update(update: StreamUpdate) -> (r: Result<StreamContent, DecodeError>)
    ensures
        match update {
            StreamUpdate::Pong(sent) => r == Ok::<StreamContent, DecodeError>(
                StreamContent::Pong(sent),
            ),
            StreamUpdate::Data { block_number, timestamp, data } => match decoded(data@) {
                Err(e) => r == Err::<StreamContent, DecodeError>(e),
                Ok(text) => r matches Ok(StreamContent::Data {
                    block_number: b,
                    timestamp: t,
                    payload,
                }) && b == block_number && t == timestamp && payload@ == payload_of(text),
            },
        },
{
    match update {
        StreamUpdate::Pong(sent) => Ok(StreamContent::Pong(sent)),
        StreamUpdate::Data { block_number, timestamp, data } => {
            match read_payload(data.as_slice()) {
                Err(e) => Err(e),
                Ok(payload) => Ok(StreamContent::Data { block_number, timestamp, payload }),
            }
        },
    }
}

} // verus!
