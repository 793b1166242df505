//! The host side: from an operation identifier and the bytes that came with
//! it to at most one call of the host's own logging sink.
//!
//! The sink belongs to the host. The dispatcher decides whether it is called
//! and with what; whoever embeds the dispatcher makes the call.

use vstd::prelude::*;
use vstd::utf8::*;
use crate::level::Level;
use crate::text::{decimal_text, decode_text, push_decimal};
use crate::transport::FUNC_ID_LOG;
use crate::wire::{
    decode_record, decoded, encodable, encoding, is_encoding_of, lemma_cut_short_is_malformed,
    lemma_round_trip, WireRecord,
};

verus! {

/// What the guest gets back from an operation that went through.
#[derive(Clone, Copy, Debug, PartialEq, Eq, Structural)]
pub enum RetVal {
    /// The guest goes on, with this status code.
    Converging(u32),
}

/// Why an operation was rejected.
#[derive(Clone, Copy, Debug, PartialEq, Eq, Structural)]
pub enum DispatchError {
    /// The operation identifier is not one that this dispatcher serves.
    UnimplementedOperation,
    /// The input is not the wire form of a record.
    MalformedRecord,
    /// The target or the message of the record is not well-formed UTF-8.
    InvalidText,
}

/// One call of the host's logging sink.
#[derive(Clone, Debug, PartialEq, Eq)]
pub struct SinkCall {
    /// Severity at which the sink is called.
    pub level: Level,
    /// Category under which the host files the message.
    pub target: String,
    /// The text to log.
    pub message: String,
}

/// What one call of the sink holds.
#[verifier::ext_equal]
pub struct SinkEntry {
    /// Severity at which the sink is called.
    pub level: Level,
    /// Category under which the host files the message.
    pub target: Seq<char>,
    /// The text to log.
    pub message: Seq<char>,
}

impl View for SinkCall {
    type V = SinkEntry;

    open spec fn view(&self) -> SinkEntry {
        SinkEntry { level: self.level, target: self.target@, message: self.message@ }
    }
}

/// Outcome of one dispatch: the sink call to make, if any, and what the
/// guest gets back.
#[derive(Debug, PartialEq, Eq)]
pub struct Dispatch {
    /// The one call of the sink that the operation asks for; `None` when it
    /// asks for none.
    pub sink: Option<SinkCall>,
    /// What is returned to the guest.
    pub result: Result<RetVal, DispatchError>,
}

/// What the outcome of one dispatch holds.
#[verifier::ext_equal]
pub struct Outcome {
    /// The one call of the sink that the operation asks for, if any.
    pub sink: Option<SinkEntry>,
    /// What is returned to the guest.
    pub result: Result<RetVal, DispatchError>,
}

impl View for Dispatch {
    type V = Outcome;

    open spec fn view(&self) -> Outcome {
        Outcome {
            sink: match self.sink {
                Some(call) => Some(call@),
                None => None,
            },
            result: self.result,
        }
    }
}

/// What stands ahead of the text of a message of `level` in the host's log:
/// the glyph of the level and one blank for errors, two for the others.
pub open spec fn sink_prefix(level: Level) -> Seq<char> {
    match level {
        Level::Error => level.glyph_text() + seq![' '],
        _ => level.glyph_text() + seq![' ', ' '],
    }
}

/// Target under which the dispatcher itself reports to the host's sink.
pub open spec fn own_target() -> Seq<char> {
    "runtime"@
}

/// The report on an operation identifier that is not served.
pub open spec fn unregistered_notice(func_id: u32) -> SinkEntry {
    SinkEntry {
        level: Level::Error,
        target: own_target(),
        message: "call an unregistered `func_id`, func_id:"@ + decimal_text(func_id as nat),
    }
}

/// What a decoded record asks for. Its target and message have to be
/// well-formed UTF-8. A level from 1 to 5 then gives one sink call at the
/// severity of that number; any other level gives none and is no error.
pub open spec fn routed(record: WireRecord) -> Outcome {
    if !valid_utf8(record.target) || !valid_utf8(record.args) {
        Outcome { sink: None, result: Err(DispatchError::InvalidText) }
    } else {
        Outcome {
            sink: match Level::of_code(record.level) {
                Some(level) => Some(
                    SinkEntry {
                        level,
                        target: decode_utf8(record.target),
                        message: sink_prefix(level) + decode_utf8(record.args),
                    },
                ),
                None => None,
            },
            result: Ok(RetVal::Converging(0)),
        }
    }
}

/// What an operation asks for.
pub open spec fn dispatched(func_id: u32, input: Seq<u8>) -> Outcome {
    if func_id != FUNC_ID_LOG {
        Outcome {
            sink: Some(unregistered_notice(func_id)),
            result: Err(DispatchError::UnimplementedOperation),
        }
    } else {
        match decoded(input) {
            Some(record) => routed(record),
            None => Outcome { sink: None, result: Err(DispatchError::MalformedRecord) },
        }
    }
}

/// One log event as the host decodes it.
#[derive(Clone, Debug, PartialEq, Eq)]
pub struct LoggerExt {
    /// Wire number of the severity.
    pub level: u32,
    /// Category of the event, as bytes of text.
    pub target: Vec<u8>,
    /// The rendered message, as bytes of text.
    pub args: Vec<u8>,
}

impl View for LoggerExt {
    type V = WireRecord;

    open spec fn view(&self) -> WireRecord {
        WireRecord { level: self.level, target: self.target@, args: self.args@ }
    }
}

/// Starts a message of `level`: its glyph and the blanks behind it.
fn start_message(level: Level) -> (message: String)
    ensures
        message@ == sink_prefix(level),
{
    proof {
        reveal_strlit(" ");
        reveal_strlit("  ");
    }
    let mut message = String::from_str(level.glyph());
    match level {
        Level::Error => message.append(" "),
        _ => message.append("  "),
    }
    assert(message@ =~= sink_prefix(level));
    message
}

impl LoggerExt {
    /// Reads a record from its wire form. The input has to be the wire form
    /// of one record from its first byte to its last.
    pub fn decode(input: &[u8]) -> (record: Result<LoggerExt, DispatchError>)
        ensures
            match record {
                Ok(r) => decoded(input@) == Some(r@),
                Err(e) => decoded(input@) is None && e == DispatchError::MalformedRecord,
            },
    {
        match decode_record(input) {
            Some((level, target, args)) => Ok(LoggerExt { level, target, args }),
            None => Err(DispatchError::MalformedRecord),
        }
    }

    /// Validates the text of this record and picks the sink call for it.
    pub fn route(&self) -> (outcome: Dispatch)
        ensures
            outcome@ == routed(self@),
    {
        let target = match decode_text(self.target.as_slice()) {
            Some(text) => text,
            None => {
                return Dispatch { sink: None, result: Err(DispatchError::InvalidText) };
            },
        };
        let args = match decode_text(self.args.as_slice()) {
            Some(text) => text,
            None => {
                return Dispatch { sink: None, result: Err(DispatchError::InvalidText) };
            },
        };
        let outcome = match Level::from_code(self.level) {
            None => Dispatch { sink: None, result: Ok(RetVal::Converging(0)) },
            Some(level) => {
                let mut message = start_message(level);
                message.append(args);
                Dispatch {
                    sink: Some(SinkCall { level, target: String::from_str(target), message }),
                    result: Ok(RetVal::Converging(0)),
                }
            },
        };
        assert(outcome@ =~= routed(self@));
        outcome
    }

    /// Serves one operation of the guest.
    ///
    /// An identifier other than that of "emit log record" is reported to the
    /// host's sink as an error and rejected. Otherwise the input is decoded,
    /// its text validated, and the record routed by its level. Once a record
    /// has been decoded and validated the guest gets status 0 back, whatever
    /// its level.
    pub fn call(func_id: u32, input: &[u8]) -> (outcome: Dispatch)
        ensures
            outcome@ == dispatched(func_id, input@),
    {
        if func_id != FUNC_ID_LOG {
            let mut message = String::from_str("call an unregistered `func_id`, func_id:");
            push_decimal(&mut message, func_id);
            let notice = SinkCall {
                level: Level::Error,
                target: String::from_str("runtime"),
                message,
            };
            let outcome = Dispatch {
                sink: Some(notice),
                result: Err(DispatchError::UnimplementedOperation),
            };
            assert(outcome@ =~= dispatched(func_id, input@));
            return outcome;
        }
        match LoggerExt::decode(input) {
            Ok(record) => record.route(),
            Err(e) => Dispatch { sink: None, result: Err(e) },
        }
    }
}

/// A record of a level from 1 to 5 with well-formed text, once encoded and
/// dispatched, gives exactly one sink call: at the severity that its number
/// stands for, under its target, and with its message behind the glyph of
/// that severity. The guest gets status 0 back.
pub proof fn lemma_known_level_reaches_sink(record: WireRecord)
    requires
        encodable(record),
        valid_utf8(record.target),
        valid_utf8(record.args),
        1 <= record.level <= 5,
    ensures
        Level::of_code(record.level) is Some,
        Level::of_code(record.level)->0.rank() == record.level,
        dispatched(FUNC_ID_LOG, encoding(record)) == (Outcome {
            sink: Some(
                SinkEntry {
                    level: Level::of_code(record.level)->0,
                    target: decode_utf8(record.target),
                    message: sink_prefix(Level::of_code(record.level)->0) + decode_utf8(
                        record.args,
                    ),
                },
            ),
            result: Ok(RetVal::Converging(0)),
        }),
        Level::of_code(record.level)->0.glyph_text().is_prefix_of(
            dispatched(FUNC_ID_LOG, encoding(record)).sink->0.message,
        ),
{
    lemma_round_trip(record);
    let level = Level::of_code(record.level)->0;
    let message = sink_prefix(level) + decode_utf8(record.args);
    assert(level.glyph_text().is_prefix_of(sink_prefix(level)));
    assert(level.glyph_text().is_prefix_of(message));
}

/// A record of a level outside 1 to 5, once encoded and dispatched, gives no
/// sink call, and where its text is well-formed the guest gets status 0
/// back all the same.
pub proof fn lemma_unknown_level_is_dropped(record: WireRecord)
    requires
        encodable(record),
        !(1 <= record.level <= 5),
    ensures
        dispatched(FUNC_ID_LOG, encoding(record)).sink is None,
        valid_utf8(record.target) && valid_utf8(record.args) ==> dispatched(
            FUNC_ID_LOG,
            encoding(record),
        ).result == Ok::<RetVal, DispatchError>(RetVal::Converging(0)),
{
    lemma_round_trip(record);
}

/// Input that is not the wire form of any record is rejected as malformed,
/// and gives no sink call.
pub proof fn lemma_malformed_is_rejected(input: Seq<u8>)
    requires
        forall|record: WireRecord| !is_encoding_of(input, record),
    ensures
        dispatched(FUNC_ID_LOG, input) == (Outcome {
            sink: None,
            result: Err(DispatchError::MalformedRecord),
        }),
{
}

/// A wire form that is cut short is rejected as malformed, and gives no sink
/// call.
pub proof fn lemma_cut_short_is_rejected(record: WireRecord, cut: int)
    requires
        encodable(record),
        0 <= cut < encoding(record).len(),
    ensures
        dispatched(FUNC_ID_LOG, encoding(record).take(cut)) == (Outcome {
            sink: None,
            result: Err(DispatchError::MalformedRecord),
        }),
{
    lemma_cut_short_is_malformed(record, cut);
}

/// An input that is rejected, as malformed or for its text, gives no sink
/// call.
pub proof fn lemma_rejected_input_is_silent(input: Seq<u8>)
    ensures
        dispatched(FUNC_ID_LOG, input).result is Err ==> dispatched(FUNC_ID_LOG, input).sink is None,
{
}

} // verus!
