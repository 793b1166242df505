//! The wire form of a log record.
//!
//! A record crosses the guest/host boundary as its level in four bytes,
//! least significant first, followed by the target and then the message, each
//! as a length prefix and the bytes themselves. A length prefix takes one,
//! two, four or five bytes; the two low bits of its first byte say which, and
//! a length is always written in the shortest form that holds it.

use vstd::prelude::*;

verus! {

/// What one log record holds.
#[verifier::ext_equal]
pub struct WireRecord {
    /// Wire number of the severity.
    pub level: u32,
    /// Category of the event, as bytes of text.
    pub target: Seq<u8>,
    /// The rendered message, as bytes of text.
    pub args: Seq<u8>,
}

/// The lowest byte of `value`.
pub open spec fn low_byte(value: nat) -> u8 {
    (value % 256) as u8
}

/// The two bytes of `value`, least significant first.
pub open spec fn le16(value: nat) -> Seq<u8> {
    seq![low_byte(value), low_byte(value / 256)]
}

/// The four bytes of `value`, least significant first.
pub open spec fn le32(value: nat) -> Seq<u8> {
    seq![
        low_byte(value),
        low_byte(value / 256),
        low_byte(value / 256 / 256),
        low_byte(value / 256 / 256 / 256),
    ]
}

/// The number that two bytes stand for, least significant first.
pub open spec fn from_le16(b0: u8, b1: u8) -> nat {
    (b0 + 256 * b1) as nat
}

/// The number that four bytes stand for, least significant first.
pub open spec fn from_le32(b0: u8, b1: u8, b2: u8, b3: u8) -> nat {
    (b0 + 256 * (b1 + 256 * (b2 + 256 * b3))) as nat
}

/// The prefix that announces `len` bytes.
pub open spec fn length_prefix(len: nat) -> Seq<u8>
    recommends
        len <= u32::MAX,
{
    if len < 64 {
        seq![low_byte(4 * len)]
    } else if len < 16384 {
        le16(4 * len + 1)
    } else if len < 1073741824 {
        le32(4 * len + 2)
    } else {
        seq![3u8] + le32(len)
    }
}

/// A byte string behind its length prefix.
pub open spec fn framed(data: Seq<u8>) -> Seq<u8>
    recommends
        data.len() <= u32::MAX,
{
    length_prefix(data.len()) + data
}

/// Whether both byte strings of `record` are short enough for a length
/// prefix.
pub open spec fn encodable(record: WireRecord) -> bool {
    record.target.len() <= u32::MAX && record.args.len() <= u32::MAX
}

/// The bytes that stand for `record` on the wire.
pub open spec fn encoding(record: WireRecord) -> Seq<u8>
    recommends
        encodable(record),
{
    le32(record.level as nat) + framed(record.target) + framed(record.args)
}

/// Whether `bytes` is exactly the wire form of `record`.
pub open spec fn is_encoding_of(bytes: Seq<u8>, record: WireRecord) -> bool {
    encodable(record) && encoding(record) == bytes
}

/// The record that `bytes` stands for, if it stands for one.
pub open spec fn decoded(bytes: Seq<u8>) -> Option<WireRecord> {
    if exists|record: WireRecord| is_encoding_of(bytes, record) {
        Some(choose|record: WireRecord| is_encoding_of(bytes, record))
    } else {
        None
    }
}

/// Reading of a length prefix at the head of `bytes`: the length and the
/// number of bytes the prefix takes.
spec fn parse_prefix(bytes: Seq<u8>) -> Option<(nat, nat)> {
    if bytes.len() == 0 {
        None
    } else if bytes[0] % 4 == 0 {
        Some(((bytes[0] / 4) as nat, 1))
    } else if bytes[0] % 4 == 1 {
        if bytes.len() < 2 {
            None
        } else {
            let len = from_le16(bytes[0], bytes[1]) / 4;
            if len >= 64 {
                Some((len, 2))
            } else {
                None
            }
        }
    } else if bytes[0] % 4 == 2 {
        if bytes.len() < 4 {
            None
        } else {
            let len = from_le32(bytes[0], bytes[1], bytes[2], bytes[3]) / 4;
            if len >= 16384 {
                Some((len, 4))
            } else {
                None
            }
        }
    } else {
        if bytes[0] != 3 || bytes.len() < 5 {
            None
        } else {
            let len = from_le32(bytes[1], bytes[2], bytes[3], bytes[4]);
            if len >= 1073741824 {
                Some((len, 5))
            } else {
                None
            }
        }
    }
}

/// Reading of a framed byte string at the head of `bytes`: the string and
/// the number of bytes that prefix and string take together.
spec fn parse_framed(bytes: Seq<u8>) -> Option<(Seq<u8>, nat)> {
    match parse_prefix(bytes) {
        Some((len, used)) => if used + len <= bytes.len() {
            Some((bytes.subrange(used as int, (used + len) as int), used + len))
        } else {
            None
        },
        None => None,
    }
}

/// Reading of a whole record from `bytes`, nothing left over.
spec fn parse_record(bytes: Seq<u8>) -> Option<WireRecord> {
    if bytes.len() < 4 {
        None
    } else {
        let level = from_le32(bytes[0], bytes[1], bytes[2], bytes[3]) as u32;
        match parse_framed(bytes.skip(4)) {
            Some((target, first)) => match parse_framed(bytes.skip(4 + first as int)) {
                Some((args, second)) => if 4 + first + second == bytes.len() {
                    Some(WireRecord { level, target, args })
                } else {
                    None
                },
                None => None,
            },
            None => None,
        }
    }
}

/// A number splits into its lowest byte and the rest.
proof fn lemma_digit(low: nat, high: nat)
    requires
        low < 256,
    ensures
        (low + 256 * high) % 256 == low,
        (low + 256 * high) / 256 == high,
{
    vstd::arithmetic::div_mod::lemma_fundamental_div_mod_converse(
        (low + 256 * high) as int,
        256,
        high as int,
        low as int,
    );
}

/// The two low bits of a number are those of its lowest byte.
proof fn lemma_mode(low: nat, high: nat)
    ensures
        (low + 256 * high) % 4 == low % 4,
{
    vstd::arithmetic::div_mod::lemma_mod_multiples_vanish((64 * high) as int, low as int, 4);
    assert(4 * (64 * high) + low == low + 256 * high);
}

/// A number with its two low bits taken off and put back.
proof fn lemma_shifted(len: nat, mode: nat)
    requires
        mode < 4,
    ensures
        (4 * len + mode) / 4 == len,
        (4 * len + mode) % 4 == mode,
{
    vstd::arithmetic::div_mod::lemma_fundamental_div_mod_converse(
        (4 * len + mode) as int,
        4,
        len as int,
        mode as int,
    );
}

/// Two bytes are the two bytes of the number they stand for.
proof fn lemma_le16_of_bytes(b0: u8, b1: u8)
    ensures
        le16(from_le16(b0, b1)) =~= seq![b0, b1],
{
    lemma_digit(b0 as nat, b1 as nat);
}

/// Four bytes are the four bytes of the number they stand for.
proof fn lemma_le32_of_bytes(b0: u8, b1: u8, b2: u8, b3: u8)
    ensures
        from_le32(b0, b1, b2, b3) <= u32::MAX,
        le32(from_le32(b0, b1, b2, b3)) =~= seq![b0, b1, b2, b3],
{
    let x2 = (b2 + 256 * b3) as nat;
    let x1 = (b1 + 256 * x2) as nat;
    let x0 = (b0 + 256 * x1) as nat;
    assert(x0 == from_le32(b0, b1, b2, b3));
    lemma_digit(b0 as nat, x1);
    lemma_digit(b1 as nat, x2);
    lemma_digit(b2 as nat, b3 as nat);
    assert(x0 / 256 == x1);
    assert(x0 / 256 / 256 == x2);
    assert(x0 / 256 / 256 / 256 == b3);
}

/// The two bytes of a number stand for that number.
proof fn lemma_le16_value(value: nat)
    requires
        value < 65536,
    ensures
        le16(value).len() == 2,
        from_le16(le16(value)[0], le16(value)[1]) == value,
{
    vstd::arithmetic::div_mod::lemma_fundamental_div_mod(value as int, 256);
    let high = value / 256;
    assert(high < 256);
}

/// The four bytes of a number stand for that number.
proof fn lemma_le32_value(value: nat)
    requires
        value <= u32::MAX,
    ensures
        le32(value).len() == 4,
        from_le32(le32(value)[0], le32(value)[1], le32(value)[2], le32(value)[3]) == value,
{
    let x1 = value / 256;
    let x2 = x1 / 256;
    let x3 = x2 / 256;
    vstd::arithmetic::div_mod::lemma_fundamental_div_mod(value as int, 256);
    vstd::arithmetic::div_mod::lemma_fundamental_div_mod(x1 as int, 256);
    vstd::arithmetic::div_mod::lemma_fundamental_div_mod(x2 as int, 256);
    assert(x1 < 16777216);
    assert(x2 < 65536);
    assert(x3 < 256);
}

/// A prefix of one or two bytes reads as the length it announces.
proof fn lemma_short_prefix_parses(len: nat, bytes: Seq<u8>)
    requires
        len < 16384,
        length_prefix(len).is_prefix_of(bytes),
    ensures
        parse_prefix(bytes) == Some((len, length_prefix(len).len())),
{
    let prefix = length_prefix(len);
    assert(bytes[0] == prefix[0]);
    if len < 64 {
        lemma_shifted(len, 0);
        assert(prefix[0] == 4 * len);
    } else {
        let marked = 4 * len + 1;
        assert(bytes[1] == prefix[1]);
        lemma_le16_value(marked);
        lemma_shifted(len, 1);
        lemma_mode(bytes[0] as nat, bytes[1] as nat);
        assert(from_le16(bytes[0], bytes[1]) == marked);
    }
}

/// A prefix of four or five bytes reads as the length it announces.
proof fn lemma_long_prefix_parses(len: nat, bytes: Seq<u8>)
    requires
        16384 <= len <= u32::MAX,
        length_prefix(len).is_prefix_of(bytes),
    ensures
        parse_prefix(bytes) == Some((len, length_prefix(len).len())),
{
    let prefix = length_prefix(len);
    assert(bytes[0] == prefix[0]);
    assert(bytes[1] == prefix[1]);
    assert(bytes[2] == prefix[2]);
    assert(bytes[3] == prefix[3]);
    if len < 1073741824 {
        let marked = 4 * len + 2;
        lemma_le32_value(marked);
        lemma_shifted(len, 2);
        lemma_mode(bytes[0] as nat, (bytes[1] + 256 * (bytes[2] + 256 * bytes[3])) as nat);
        assert(from_le32(bytes[0], bytes[1], bytes[2], bytes[3]) == marked);
    } else {
        let body = le32(len);
        assert(bytes[4] == prefix[4]);
        assert(prefix[1] == body[0] && prefix[2] == body[1] && prefix[3] == body[2] && prefix[4]
            == body[3]);
        lemma_le32_value(len);
        assert(from_le32(bytes[1], bytes[2], bytes[3], bytes[4]) == len);
    }
}

/// A prefix reads as the length it announces, whatever follows it.
proof fn lemma_prefix_parses(len: nat, rest: Seq<u8>)
    requires
        len <= u32::MAX,
    ensures
        1 <= length_prefix(len).len() <= 5,
        parse_prefix(length_prefix(len) + rest) == Some((len, length_prefix(len).len())),
{
    let bytes = length_prefix(len) + rest;
    assert(length_prefix(len).is_prefix_of(bytes));
    if len < 16384 {
        lemma_short_prefix_parses(len, bytes);
    } else {
        lemma_long_prefix_parses(len, bytes);
    }
}

/// What reads as a prefix is the prefix of the length read, in its
/// shortest form.
proof fn lemma_parsed_prefix(bytes: Seq<u8>)
    requires
        parse_prefix(bytes) is Some,
    ensures
        ({
            let (len, used) = parse_prefix(bytes)->0;
            &&& len <= u32::MAX
            &&& 1 <= used <= bytes.len()
            &&& bytes.subrange(0, used as int) == length_prefix(len)
        }),
{
    let (len, used) = parse_prefix(bytes)->0;
    let b0 = bytes[0];
    if b0 % 4 == 0 {
        vstd::arithmetic::div_mod::lemma_fundamental_div_mod(b0 as int, 4);
        assert(4 * len == b0);
        assert(bytes.subrange(0, 1) =~= seq![b0]);
    } else if b0 % 4 == 1 {
        let b1 = bytes[1];
        let marked = from_le16(b0, b1);
        lemma_mode(b0 as nat, b1 as nat);
        vstd::arithmetic::div_mod::lemma_fundamental_div_mod(marked as int, 4);
        assert(4 * len + 1 == marked);
        lemma_le16_of_bytes(b0, b1);
        assert(bytes.subrange(0, 2) =~= seq![b0, b1]);
    } else if b0 % 4 == 2 {
        let (b1, b2, b3) = (bytes[1], bytes[2], bytes[3]);
        let marked = from_le32(b0, b1, b2, b3);
        lemma_mode(b0 as nat, (b1 + 256 * (b2 + 256 * b3)) as nat);
        vstd::arithmetic::div_mod::lemma_fundamental_div_mod(marked as int, 4);
        assert(4 * len + 2 == marked);
        lemma_le32_of_bytes(b0, b1, b2, b3);
        assert(bytes.subrange(0, 4) =~= seq![b0, b1, b2, b3]);
    } else {
        let (b1, b2, b3, b4) = (bytes[1], bytes[2], bytes[3], bytes[4]);
        lemma_le32_of_bytes(b1, b2, b3, b4);
        assert(bytes.subrange(0, 5) =~= seq![3u8] + seq![b1, b2, b3, b4]);
    }
}

/// A framed byte string reads as itself, whatever follows it.
proof fn lemma_framed_parses(data: Seq<u8>, rest: Seq<u8>)
    requires
        data.len() <= u32::MAX,
    ensures
        parse_framed(framed(data) + rest) == Some((data, framed(data).len())),
{
    let prefix = length_prefix(data.len());
    assert(framed(data) + rest =~= prefix + (data + rest));
    lemma_prefix_parses(data.len(), data + rest);
    let bytes = framed(data) + rest;
    assert(bytes.subrange(prefix.len() as int, (prefix.len() + data.len()) as int) =~= data);
}

/// What reads as a framed byte string is that string behind its prefix.
proof fn lemma_parsed_framed(bytes: Seq<u8>)
    requires
        parse_framed(bytes) is Some,
    ensures
        ({
            let (data, used) = parse_framed(bytes)->0;
            &&& data.len() <= u32::MAX
            &&& used <= bytes.len()
            &&& bytes.subrange(0, used as int) == framed(data)
        }),
{
    let (data, used) = parse_framed(bytes)->0;
    let (len, head) = parse_prefix(bytes)->0;
    lemma_parsed_prefix(bytes);
    assert(bytes.subrange(0, used as int) =~= bytes.subrange(0, head as int) + data);
}

/// Reading the wire form of a record gives the record back.
proof fn lemma_parse_encoding(record: WireRecord)
    requires
        encodable(record),
    ensures
        parse_record(encoding(record)) == Some(record),
{
    let bytes = encoding(record);
    let head = le32(record.level as nat);
    let first = framed(record.target);
    let second = framed(record.args);
    lemma_le32_value(record.level as nat);
    assert(bytes[0] == head[0] && bytes[1] == head[1] && bytes[2] == head[2] && bytes[3]
        == head[3]);
    assert(from_le32(bytes[0], bytes[1], bytes[2], bytes[3]) == record.level);
    assert(bytes.skip(4) =~= first + second);
    lemma_framed_parses(record.target, second);
    assert(bytes.skip(4 + first.len() as int) =~= second + Seq::<u8>::empty());
    lemma_framed_parses(record.args, Seq::<u8>::empty());
    assert(parse_record(bytes)->0 =~= record);
}

/// Bytes that read as a record are the wire form of that record.
proof fn lemma_parsed_record(bytes: Seq<u8>)
    requires
        parse_record(bytes) is Some,
    ensures
        is_encoding_of(bytes, parse_record(bytes)->0),
{
    let record = parse_record(bytes)->0;
    let (target, first) = parse_framed(bytes.skip(4))->0;
    let (args, second) = parse_framed(bytes.skip(4 + first as int))->0;
    lemma_le32_of_bytes(bytes[0], bytes[1], bytes[2], bytes[3]);
    lemma_parsed_framed(bytes.skip(4));
    lemma_parsed_framed(bytes.skip(4 + first as int));
    assert(bytes =~= bytes.subrange(0, 4) + bytes.skip(4).subrange(0, first as int) + bytes.skip(
        4 + first as int,
    ).subrange(0, second as int));
    assert(bytes.subrange(0, 4) =~= le32(record.level as nat));
}

/// Two records with the same wire form are the same record.
pub proof fn lemma_encoding_injective(a: WireRecord, b: WireRecord)
    requires
        encodable(a),
        encodable(b),
        encoding(a) == encoding(b),
    ensures
        a == b,
{
    lemma_parse_encoding(a);
    lemma_parse_encoding(b);
}

/// Decoding the wire form of a record yields that record, field for field.
pub proof fn lemma_round_trip(record: WireRecord)
    requires
        encodable(record),
    ensures
        decoded(encoding(record)) == Some(record),
{
    let bytes = encoding(record);
    assert(is_encoding_of(bytes, record));
    let found = choose|other: WireRecord| is_encoding_of(bytes, other);
    lemma_encoding_injective(found, record);
}

/// Whatever decodes to a record is the wire form of exactly that record.
pub proof fn lemma_decoded_is_canonical(bytes: Seq<u8>)
    ensures
        decoded(bytes) matches Some(record) ==> is_encoding_of(bytes, record),
        decoded(bytes) is None ==> forall|record: WireRecord| !is_encoding_of(bytes, record),
{
}

/// The record that bytes stand for is the one that reading them gives.
proof fn lemma_decoded_is_parse(bytes: Seq<u8>)
    ensures
        decoded(bytes) == parse_record(bytes),
{
    if parse_record(bytes) is Some {
        let record = parse_record(bytes)->0;
        lemma_parsed_record(bytes);
        lemma_round_trip(record);
    } else {
        if decoded(bytes) is Some {
            let record = decoded(bytes)->0;
            lemma_parse_encoding(record);
        }
    }
}

/// A length prefix reads the same whatever follows it.
proof fn lemma_parse_prefix_extends(bytes: Seq<u8>, longer: Seq<u8>)
    requires
        parse_prefix(bytes) is Some,
        bytes.is_prefix_of(longer),
    ensures
        parse_prefix(longer) == parse_prefix(bytes),
{
    assert(longer[0] == bytes[0]);
    if bytes[0] % 4 != 0 {
        assert(longer[1] == bytes[1]);
        if bytes[0] % 4 != 1 {
            assert(longer[2] == bytes[2]);
            assert(longer[3] == bytes[3]);
            if bytes[0] % 4 != 2 {
                assert(longer[4] == bytes[4]);
            }
        }
    }
}

/// A framed byte string reads the same whatever follows it.
proof fn lemma_parse_framed_extends(bytes: Seq<u8>, longer: Seq<u8>)
    requires
        parse_framed(bytes) is Some,
        bytes.is_prefix_of(longer),
    ensures
        parse_framed(longer) == parse_framed(bytes),
{
    lemma_parse_prefix_extends(bytes, longer);
    let (len, used) = parse_prefix(bytes)->0;
    assert(longer.subrange(used as int, (used + len) as int) =~= bytes.subrange(
        used as int,
        (used + len) as int,
    ));
}

/// No wire form is the beginning of another: where the wire form of one
/// record begins that of a second, the two records are the same.
pub proof fn lemma_wire_forms_are_prefix_free(a: WireRecord, b: WireRecord)
    requires
        encodable(a),
        encodable(b),
        encoding(a).is_prefix_of(encoding(b)),
    ensures
        a == b,
{
    let short = encoding(a);
    let long = encoding(b);
    lemma_parse_encoding(a);
    lemma_parse_encoding(b);
    assert(short.len() >= 4);
    assert(long[0] == short[0] && long[1] == short[1] && long[2] == short[2] && long[3]
        == short[3]);
    let (target, first) = parse_framed(short.skip(4))->0;
    assert(short.skip(4).is_prefix_of(long.skip(4)));
    lemma_parse_framed_extends(short.skip(4), long.skip(4));
    let (args, second) = parse_framed(short.skip(4 + first as int))->0;
    assert(short.skip(4 + first as int).is_prefix_of(long.skip(4 + first as int)));
    lemma_parse_framed_extends(short.skip(4 + first as int), long.skip(4 + first as int));
    assert(short.len() == long.len());
    assert(short =~= long);
    lemma_encoding_injective(a, b);
}

/// A wire form that is cut short stands for no record.
pub proof fn lemma_cut_short_is_malformed(record: WireRecord, cut: int)
    requires
        encodable(record),
        0 <= cut < encoding(record).len(),
    ensures
        decoded(encoding(record).take(cut)) is None,
{
    let bytes = encoding(record).take(cut);
    if decoded(bytes) is Some {
        let other = decoded(bytes)->0;
        assert(is_encoding_of(bytes, other));
        lemma_wire_forms_are_prefix_free(other, record);
    }
}

/// Longest byte string that a length prefix can announce.
pub const MAX_FIELD_LEN: usize = 0xffff_ffff;

/// Appends the four bytes of `value`, least significant first.
fn put_le32(out: &mut Vec<u8>, value: u32)
    ensures
        final(out)@ == old(out)@ + le32(value as nat),
{
    out.push((value % 256) as u8);
    out.push((value / 256 % 256) as u8);
    out.push((value / 256 / 256 % 256) as u8);
    out.push((value / 256 / 256 / 256 % 256) as u8);
    assert(out@ =~= old(out)@ + le32(value as nat));
}

/// Appends the prefix that announces `len` bytes, in its shortest form.
pub fn write_length(out: &mut Vec<u8>, len: u32)
    ensures
        final(out)@ == old(out)@ + length_prefix(len as nat),
{
    if len < 64 {
        out.push((4 * len) as u8);
        assert(out@ =~= old(out)@ + length_prefix(len as nat));
    } else if len < 16384 {
        let marked: u32 = 4 * len + 1;
        out.push((marked % 256) as u8);
        out.push((marked / 256 % 256) as u8);
        assert(out@ =~= old(out)@ + length_prefix(len as nat));
    } else if len < 1073741824 {
        put_le32(out, 4 * len + 2);
    } else {
        out.push(3);
        put_le32(out, len);
        assert(out@ =~= old(out)@ + length_prefix(len as nat));
    }
}

/// Appends `data` behind its length prefix.
fn put_framed(out: &mut Vec<u8>, data: &[u8])
    requires
        data@.len() <= u32::MAX,
    ensures
        final(out)@ == old(out)@ + framed(data@),
{
    write_length(out, data.len() as u32);
    let ghost before = out@;
    let mut i: usize = 0;
    while i < data.len()
        invariant
            i <= data@.len(),
            out@ == before + data@.subrange(0, i as int),
        decreases data@.len() - i,
    {
        out.push(data[i]);
        i += 1;
        assert(out@ =~= before + data@.subrange(0, i as int));
    }
    assert(data@.subrange(0, i as int) =~= data@);
    assert(out@ =~= old(out)@ + framed(data@));
}

/// Writes a record in its wire form. `None` when the target or the message
/// is too long for a length prefix.
pub fn encode_record(level: u32, target: &[u8], args: &[u8]) -> (bytes: Option<Vec<u8>>)
    ensures
        bytes is Some <==> encodable(WireRecord { level, target: target@, args: args@ }),
        bytes matches Some(b) ==> b@ == encoding(
            WireRecord { level, target: target@, args: args@ },
        ),
{
    if target.len() > MAX_FIELD_LEN || args.len() > MAX_FIELD_LEN {
        return None;
    }
    let mut out: Vec<u8> = Vec::new();
    put_le32(&mut out, level);
    put_framed(&mut out, target);
    put_framed(&mut out, args);
    assert(out@ =~= le32(level as nat) + framed(target@) + framed(args@));
    Some(out)
}

/// Reads four bytes at `at` as a number, least significant first.
fn read_le32(input: &[u8], at: usize) -> (value: u32)
    requires
        at + 4 <= input@.len(),
    ensures
        value == from_le32(input@[at as int], input@[at + 1], input@[at + 2], input@[at + 3]),
{
    let b0: u32 = input[at] as u32;
    let b1: u32 = input[at + 1] as u32;
    let b2: u32 = input[at + 2] as u32;
    let b3: u32 = input[at + 3] as u32;
    b0 + 256 * (b1 + 256 * (b2 + 256 * b3))
}

/// Reads a length prefix at `at`: the length and the place behind the prefix.
/// Refuses a prefix that is cut short or not in its shortest form.
fn read_prefix(input: &[u8], at: usize) -> (found: Option<(u32, usize)>)
    requires
        at <= input@.len(),
    ensures
        match found {
            Some((len, next)) => at < next <= input@.len() && parse_prefix(input@.skip(at as int))
                == Some((len as nat, (next - at) as nat)),
            None => parse_prefix(input@.skip(at as int)) is None,
        },
{
    let ghost bytes = input@.skip(at as int);
    let room: usize = input.len() - at;
    if room == 0 {
        return None;
    }
    let first: u8 = input[at];
    assert(bytes[0] == first);
    if first % 4 == 0 {
        Some(((first / 4) as u32, at + 1))
    } else if first % 4 == 1 {
        if room < 2 {
            return None;
        }
        let second: u8 = input[at + 1];
        assert(bytes[1] == second);
        let len: u32 = (first as u32 + 256 * (second as u32)) / 4;
        if len >= 64 {
            Some((len, at + 2))
        } else {
            None
        }
    } else if first % 4 == 2 {
        if room < 4 {
            return None;
        }
        assert(bytes[1] == input@[at + 1] && bytes[2] == input@[at + 2] && bytes[3] == input@[at
            + 3]);
        let len: u32 = read_le32(input, at) / 4;
        if len >= 16384 {
            Some((len, at + 4))
        } else {
            None
        }
    } else {
        if first != 3 || room < 5 {
            return None;
        }
        assert(bytes[1] == input@[at + 1] && bytes[2] == input@[at + 2] && bytes[3] == input@[at
            + 3] && bytes[4] == input@[at + 4]);
        let len: u32 = read_le32(input, at + 1);
        if len >= 1073741824 {
            Some((len, at + 5))
        } else {
            None
        }
    }
}

/// Reads a length prefix at the head of `input`: the length and the number
/// of bytes that the prefix takes. `None` where the input does not begin
/// with a prefix in its shortest form, be it cut short or written longer
/// than need be.
pub fn read_length(input: &[u8]) -> (found: Option<(u32, usize)>)
    ensures
        match found {
            Some((len, used)) => 1 <= used <= input@.len() && input@.take(used as int)
                == length_prefix(len as nat),
            None => forall|len: nat|
                len <= u32::MAX ==> !(#[trigger] length_prefix(len)).is_prefix_of(input@),
        },
{
    let found = read_prefix(input, 0);
    proof {
        assert(input@.skip(0) =~= input@);
        match found {
            Some(_) => {
                lemma_parsed_prefix(input@);
            },
            None => {
                assert forall|len: nat| len <= u32::MAX implies !(#[trigger] length_prefix(
                    len,
                )).is_prefix_of(input@) by {
                    if length_prefix(len).is_prefix_of(input@) {
                        if len < 16384 {
                            lemma_short_prefix_parses(len, input@);
                        } else {
                            lemma_long_prefix_parses(len, input@);
                        }
                    }
                }
            },
        }
    }
    found
}

/// Reads a framed byte string at `at`: the string and the place behind it.
fn read_framed(input: &[u8], at: usize) -> (found: Option<(Vec<u8>, usize)>)
    requires
        at <= input@.len(),
    ensures
        match found {
            Some((data, next)) => at < next <= input@.len() && parse_framed(input@.skip(at as int))
                == Some((data@, (next - at) as nat)),
            None => parse_framed(input@.skip(at as int)) is None,
        },
{
    let ghost bytes = input@.skip(at as int);
    match read_prefix(input, at) {
        None => None,
        Some((len, start)) => {
            if input.len() - start < len as usize {
                return None;
            }
            let end: usize = start + len as usize;
            let mut data: Vec<u8> = Vec::new();
            let mut i: usize = start;
            while i < end
                invariant
                    start <= i <= end <= input@.len(),
                    data@ == input@.subrange(start as int, i as int),
                decreases end - i,
            {
                data.push(input[i]);
                i += 1;
                assert(data@ =~= input@.subrange(start as int, i as int));
            }
            assert(data@ =~= bytes.subrange(start - at, end - at));
            Some((data, end))
        },
    }
}

/// Reads a record from its wire form. `None` unless `input` is the wire form
/// of a record from its first byte to its last.
pub fn decode_record(input: &[u8]) -> (fields: Option<(u32, Vec<u8>, Vec<u8>)>)
    ensures
        match fields {
            Some((level, target, args)) => decoded(input@) == Some(
                WireRecord { level, target: target@, args: args@ },
            ),
            None => decoded(input@) is None,
        },
{
    proof {
        lemma_decoded_is_parse(input@);
    }
    if input.len() < 4 {
        return None;
    }
    let level: u32 = read_le32(input, 0);
    match read_framed(input, 4) {
        None => None,
        Some((target, middle)) => match read_framed(input, middle) {
            None => None,
            Some((args, end)) => {
                if end == input.len() {
                    Some((level, target, args))
                } else {
                    None
                }
            },
        },
    }
}

} // verus!
