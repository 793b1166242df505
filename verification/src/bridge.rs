//! The way of one event from the log call in the guest to the sink of the
//! host.

use vstd::prelude::*;
use vstd::utf8::*;
use crate::level::Level;
use crate::logger::{call_site, record_of};
use crate::runtime::{dispatched, sink_prefix, Outcome, RetVal, SinkEntry};
use crate::transport::FUNC_ID_LOG;
use crate::wire::{encodable, encoding, lemma_round_trip};

verus! {

/// An event that the guest logger lets through arrives at the host's sink as
/// one call: at the level of the event, under its target widened by the
/// place of the call, and with its message behind the glyph of the level.
pub proof fn lemma_event_reaches_sink(
    level: Level,
    target: Seq<char>,
    file: Seq<char>,
    line: u32,
    message: Seq<char>,
)
    requires
        encodable(record_of(level, target, file, line, message)),
    ensures
        dispatched(FUNC_ID_LOG, encoding(record_of(level, target, file, line, message))) == (Outcome {
            sink: Some(
                SinkEntry {
                    level,
                    target: call_site(target, file, line),
                    message: sink_prefix(level) + message,
                },
            ),
            result: Ok(RetVal::Converging(0)),
        }),
{
    let record = record_of(level, target, file, line, message);
    lemma_round_trip(record);
    encode_utf8_valid_utf8(call_site(target, file, line));
    encode_utf8_valid_utf8(message);
    encode_utf8_decode_utf8(call_site(target, file, line));
    encode_utf8_decode_utf8(message);
    assert(Level::of_code(record.level) == Some(level));
}

} // verus!
