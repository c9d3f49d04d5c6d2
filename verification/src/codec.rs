//! Binary codec: fixed-width encodings for 64-bit counters and
//! second-precision timestamps, length-prefixed strings, and decimal
//! rendering of identifiers. All values are stored big-endian so that byte
//! order agrees with numeric order wherever a value ends up in a key.

use vstd::prelude::*;

use crate::errors::BackendError;
use crate::errors::StorageError;

verus! {

use vstd::string::StringExecFns;
use vstd::string::StringSliceAdditionalSpecFns;

// ---------------------------------------------------------------------------
// 64-bit big-endian counters
// ---------------------------------------------------------------------------

/// The eight big-endian bytes of `n`.
pub open spec fn u64_be_bytes(n: u64) -> Seq<u8> {
    seq![
        (n >> 56) as u8,
        (n >> 48) as u8,
        (n >> 40) as u8,
        (n >> 32) as u8,
        (n >> 24) as u8,
        (n >> 16) as u8,
        (n >> 8) as u8,
        n as u8,
    ]
}

/// The value read big-endian from the first eight bytes of `b`.
pub open spec fn u64_be_value(b: Seq<u8>) -> u64
    recommends
        b.len() >= 8,
{
    ((b[0] as u64) << 56) | ((b[1] as u64) << 48) | ((b[2] as u64) << 40) | ((b[3] as u64) << 32)
        | ((b[4] as u64) << 24) | ((b[5] as u64) << 16) | ((b[6] as u64) << 8) | (b[7] as u64)
}

pub fn encode_u64(num: u64) -> (r: Vec<u8>)
    ensures
        r@ == u64_be_bytes(num),
        r@.len() == 8,
{
    let mut v: Vec<u8> = Vec::new();
    v.push((num >> 56) as u8);
    v.push((num >> 48) as u8);
    v.push((num >> 40) as u8);
    v.push((num >> 32) as u8);
    v.push((num >> 24) as u8);
    v.push((num >> 16) as u8);
    v.push((num >> 8) as u8);
    v.push(num as u8);
    proof {
        assert(v@ =~= u64_be_bytes(num));
    }
    v
}

pub fn decode_u64(data: &[u8]) -> (r: Result<u64, StorageError>)
    ensures
        data@.len() >= 8 ==> r == Ok::<u64, StorageError>(u64_be_value(data@)),
        data@.len() < 8 ==> r == Err::<u64, StorageError>(StorageError::CorruptData),
{
    if data.len() < 8 {
        return Err(StorageError::CorruptData);
    }
    Ok(
        ((data[0] as u64) << 56) | ((data[1] as u64) << 48) | ((data[2] as u64) << 40) | ((
        data[3] as u64) << 32) | ((data[4] as u64) << 24) | ((data[5] as u64) << 16) | ((
        data[6] as u64) << 8) | (data[7] as u64),
    )
}

/// Round trip: decoding the encoding of a counter yields the counter back.
pub proof fn lemma_u64_roundtrip(n: u64)
    ensures
        u64_be_value(u64_be_bytes(n)) == n,
{
    let b0 = (n >> 56) as u8;
    let b1 = (n >> 48) as u8;
    let b2 = (n >> 40) as u8;
    let b3 = (n >> 32) as u8;
    let b4 = (n >> 24) as u8;
    let b5 = (n >> 16) as u8;
    let b6 = (n >> 8) as u8;
    let b7 = n as u8;
    assert(((b0 as u64) << 56) | ((b1 as u64) << 48) | ((b2 as u64) << 40) | ((b3 as u64) << 32)
        | ((b4 as u64) << 24) | ((b5 as u64) << 16) | ((b6 as u64) << 8) | (b7 as u64) == n)
        by (bit_vector)
        requires
            b0 == (n >> 56) as u8,
            b1 == (n >> 48) as u8,
            b2 == (n >> 40) as u8,
            b3 == (n >> 32) as u8,
            b4 == (n >> 24) as u8,
            b5 == (n >> 16) as u8,
            b6 == (n >> 8) as u8,
            b7 == n as u8,
    ;
}

// ---------------------------------------------------------------------------
// Timestamps: 16-bit year, then month, day, hour, minute, second, one byte
// each — seven bytes in all.
// ---------------------------------------------------------------------------

/// A calendar date and time at second precision, already in the one time
/// scale the engine uses.
#[derive(Clone, Copy, Debug, PartialEq, Eq, Structural)]
pub struct Timestamp {
    pub year: u16,
    pub month: u8,
    pub day: u8,
    pub hour: u8,
    pub minute: u8,
    pub second: u8,
}

pub open spec fn spec_is_leap_year(year: u16) -> bool {
    year % 4 == 0 && (year % 100 != 0 || year % 400 == 0)
}

pub open spec fn spec_days_in_month(year: u16, month: u8) -> u8 {
    if month == 2 {
        if spec_is_leap_year(year) {
            29
        } else {
            28
        }
    } else if month == 4 || month == 6 || month == 9 || month == 11 {
        30
    } else {
        31
    }
}

pub fn is_leap_year(year: u16) -> (r: bool)
    ensures
        r == spec_is_leap_year(year),
{
    year % 4 == 0 && (year % 100 != 0 || year % 400 == 0)
}

pub fn days_in_month(year: u16, month: u8) -> (r: u8)
    ensures
        r == spec_days_in_month(year, month),
{
    if month == 2 {
        if is_leap_year(year) {
            29
        } else {
            28
        }
    } else if month == 4 || month == 6 || month == 9 || month == 11 {
        30
    } else {
        31
    }
}

impl Timestamp {
    /// A well-formed timestamp names a real calendar date and time.
    pub open spec fn wf(self) -> bool {
        &&& 1 <= self.month <= 12
        &&& 1 <= self.day <= spec_days_in_month(self.year, self.month)
        &&& self.hour <= 23
        &&& self.minute <= 59
        &&& self.second <= 59
    }

    pub fn new(year: u16, month: u8, day: u8, hour: u8, minute: u8, second: u8) -> (r: Option<
        Timestamp,
    >)
        ensures
            r matches Some(t) ==> t.wf() && t == (Timestamp { year, month, day, hour, minute, second }),
            r is None ==> !(Timestamp { year, month, day, hour, minute, second }).wf(),
    {
        let t = Timestamp { year, month, day, hour, minute, second };
        if 1 <= month && month <= 12 && 1 <= day && day <= days_in_month(year, month) && hour <= 23
            && minute <= 59 && second <= 59 {
            Some(t)
        } else {
            None
        }
    }
}

/// The seven bytes of a timestamp.
pub open spec fn timestamp_bytes(t: Timestamp) -> Seq<u8> {
    seq![(t.year >> 8) as u8, t.year as u8, t.month, t.day, t.hour, t.minute, t.second]
}

/// The timestamp read from the first seven bytes of `b`, validity unchecked.
pub open spec fn timestamp_of_bytes(b: Seq<u8>) -> Timestamp
    recommends
        b.len() >= 7,
{
    Timestamp {
        year: ((b[0] as u16) << 8) | (b[1] as u16),
        month: b[2],
        day: b[3],
        hour: b[4],
        minute: b[5],
        second: b[6],
    }
}

pub fn encode_timestamp(t: Timestamp) -> (r: Vec<u8>)
    ensures
        r@ == timestamp_bytes(t),
        r@.len() == 7,
{
    let mut v: Vec<u8> = Vec::new();
    v.push((t.year >> 8) as u8);
    v.push(t.year as u8);
    v.push(t.month);
    v.push(t.day);
    v.push(t.hour);
    v.push(t.minute);
    v.push(t.second);
    proof {
        assert(v@ =~= timestamp_bytes(t));
    }
    v
}

/// Fails with `CorruptData` when fewer than seven bytes are supplied or when
/// the reconstructed calendar date or time is invalid (say, month 13).
pub fn decode_timestamp(data: &[u8]) -> (r: Result<Timestamp, StorageError>)
    ensures
        r matches Ok(t) ==> data@.len() >= 7 && t == timestamp_of_bytes(data@) && t.wf(),
        r matches Err(e) ==> e == StorageError::CorruptData && (data@.len() < 7
            || !timestamp_of_bytes(data@).wf()),
{
    if data.len() < 7 {
        return Err(StorageError::CorruptData);
    }
    let year: u16 = ((data[0] as u16) << 8) | (data[1] as u16);
    match Timestamp::new(year, data[2], data[3], data[4], data[5], data[6]) {
        Some(t) => Ok(t),
        None => Err(StorageError::CorruptData),
    }
}

/// Round trip: decoding the encoding of a well-formed timestamp yields the
/// timestamp back.
pub proof fn lemma_timestamp_roundtrip(t: Timestamp)
    requires
        t.wf(),
    ensures
        timestamp_of_bytes(timestamp_bytes(t)) == t,
{
    let y = t.year;
    let hi = (y >> 8) as u8;
    let lo = y as u8;
    assert((((hi as u16) << 8) | (lo as u16)) == y) by (bit_vector)
        requires
            hi == (y >> 8) as u8,
            lo == y as u8,
    ;
    assert(timestamp_of_bytes(timestamp_bytes(t)) == t);
}

// ---------------------------------------------------------------------------
// Length-prefixed byte strings: a 16-bit big-endian length, then the bytes.
// ---------------------------------------------------------------------------

/// The largest byte string a 16-bit length prefix can announce.
pub const MAX_PREFIXED_LEN: usize = 65535;

/// The cap the wire helpers place on one prefixed string.
pub const MAX_WIRE_STRING_LEN: usize = 1024;

/// `b` with its 16-bit big-endian length in front.
pub open spec fn prefixed_bytes(b: Seq<u8>) -> Seq<u8>
    recommends
        b.len() <= 0xFFFF,
{
    seq![((b.len() as u16) >> 8) as u8, b.len() as u16 as u8] + b
}

/// Reading one prefixed byte string out of `d` at `start`: the bytes and the
/// offset just past them, or nothing when `d` is too short.
pub open spec fn spec_parse_prefixed(d: Seq<u8>, start: int) -> Option<(Seq<u8>, int)> {
    if start + 2 > d.len() {
        None
    } else {
        let n = (d[start] as int) * 256 + d[start + 1];
        if start + 2 + n > d.len() {
            None
        } else {
            Some((d.subrange(start + 2, start + 2 + n), start + 2 + n))
        }
    }
}

/// Appends the prefixed encoding of `b` to `out`; refuses byte strings whose
/// length does not fit the prefix and then leaves `out` alone.
pub fn push_prefixed(out: &mut Vec<u8>, b: &[u8]) -> (ok: bool)
    ensures
        ok == (b@.len() <= MAX_PREFIXED_LEN),
        ok ==> final(out)@ == old(out)@ + prefixed_bytes(b@),
        !ok ==> final(out)@ == old(out)@,
{
    if b.len() > MAX_PREFIXED_LEN {
        return false;
    }
    let n: u16 = b.len() as u16;
    out.push((n >> 8) as u8);
    out.push(n as u8);
    let mut i: usize = 0;
    while i < b.len()
        invariant
            i <= b@.len(),
            b@.len() <= MAX_PREFIXED_LEN,
            n == b@.len() as u16,
            out@ == old(out)@ + seq![((b@.len() as u16) >> 8) as u8, b@.len() as u16 as u8]
                + b@.subrange(0, i as int),
        decreases b@.len() - i,
    {
        out.push(b[i]);
        i += 1;
        proof {
            assert(b@.subrange(0, i as int) =~= b@.subrange(0, i - 1) + seq![b@[i - 1]]);
            assert(out@ =~= old(out)@ + seq![((b@.len() as u16) >> 8) as u8, b@.len() as u16 as u8]
                + b@.subrange(0, i as int));
        }
    }
    proof {
        assert(b@.subrange(0, b@.len() as int) =~= b@);
        assert(out@ =~= old(out)@ + prefixed_bytes(b@));
    }
    true
}

/// Reads one prefixed byte string out of `data` at `start`.
pub fn parse_prefixed(data: &[u8], start: usize) -> (r: Option<(Vec<u8>, usize)>)
    ensures
        match r {
            Some((b, end)) => spec_parse_prefixed(data@, start as int) == Some((b@, end as int))
                && start < end <= data@.len(),
            None => spec_parse_prefixed(data@, start as int) is None,
        },
{
    if data.len() < 2 || start > data.len() - 2 {
        return None;
    }
    let n: usize = ((data[start] as usize) << 8) | (data[start + 1] as usize);
    proof {
        let hi = data@[start as int];
        let lo = data@[start as int + 1];
        assert(((hi as usize) << 8) | (lo as usize) == (hi as int) * 256 + lo) by (bit_vector);
    }
    if n > data.len() - start - 2 {
        return None;
    }
    let end: usize = start + 2 + n;
    let mut b: Vec<u8> = Vec::new();
    let mut i: usize = start + 2;
    while i < end
        invariant
            start + 2 <= i <= end <= data@.len(),
            b@ == data@.subrange(start + 2, i as int),
        decreases end - i,
    {
        b.push(data[i]);
        i += 1;
        proof {
            assert(data@.subrange(start + 2, i as int) =~= data@.subrange(start + 2, i - 1)
                + seq![data@[i - 1]]);
        }
    }
    Some((b, end))
}

/// Parsing finds exactly the byte string that was encoded, wherever the
/// encoding sits in a larger buffer.
pub proof fn lemma_prefixed_roundtrip(pre: Seq<u8>, b: Seq<u8>, post: Seq<u8>)
    requires
        b.len() <= MAX_PREFIXED_LEN,
    ensures
        spec_parse_prefixed(pre + prefixed_bytes(b) + post, pre.len() as int) == Some(
            (b, pre.len() + 2 + b.len() as int),
        ),
{
    let d = pre + prefixed_bytes(b) + post;
    let start = pre.len() as int;
    let n16 = b.len() as u16;
    assert(((n16 >> 8) as u8 as int) * 256 + (n16 as u8) == n16) by (bit_vector);
    assert(d[start] == ((b.len() as u16) >> 8) as u8);
    assert(d[start + 1] == b.len() as u16 as u8);
    assert((d[start] as int) * 256 + d[start + 1] == b.len());
    assert(d.subrange(start + 2, start + 2 + b.len()) =~= b);
}

// ---------------------------------------------------------------------------
// Decimal rendering of 64-bit identifiers, for use inside keys.
// ---------------------------------------------------------------------------

/// The digit character for `d`.
pub open spec fn dec_digit(d: int) -> char
    recommends
        0 <= d <= 9,
{
    ((48 + d) as u8) as char
}

/// The decimal digits of `n`, most significant first, no sign and no
/// leading zeros (a single zero for zero).
pub open spec fn dec_chars(n: int) -> Seq<char>
    recommends
        n >= 0,
    decreases n,
{
    if n < 10 {
        seq![dec_digit(n)]
    } else {
        dec_chars(n / 10) + seq![dec_digit(n % 10)]
    }
}

fn digit_str(d: u8) -> (r: &'static str)
    requires
        d < 10,
    ensures
        r@ =~= seq![dec_digit(d as int)],
{
    proof {
        reveal_strlit("0");
        reveal_strlit("1");
        reveal_strlit("2");
        reveal_strlit("3");
        reveal_strlit("4");
        reveal_strlit("5");
        reveal_strlit("6");
        reveal_strlit("7");
        reveal_strlit("8");
        reveal_strlit("9");
    }
    match d {
        0 => "0",
        1 => "1",
        2 => "2",
        3 => "3",
        4 => "4",
        5 => "5",
        6 => "6",
        7 => "7",
        8 => "8",
        _ => "9",
    }
}

/// Renders `n` in decimal.
pub fn u64_to_dec(n: u64) -> (s: String)
    ensures
        s@ == dec_chars(n as int),
    decreases n,
{
    if n < 10 {
        String::from_str(digit_str(n as u8))
    } else {
        let mut s = u64_to_dec(n / 10);
        s.append(digit_str((n % 10) as u8));
        proof {
            assert(s@ =~= dec_chars(n as int));
        }
        s
    }
}

/// Every character of a decimal rendering is a digit.
pub proof fn lemma_dec_chars_digits(n: int)
    requires
        n >= 0,
    ensures
        dec_chars(n).len() >= 1,
        forall|i: int|
            0 <= i < dec_chars(n).len() ==> 48 <= #[trigger] dec_chars(n)[i] as u32 <= 57,
    decreases n,
{
    if n >= 10 {
        lemma_dec_chars_digits(n / 10);
    }
}

/// Distinct identifiers render as distinct digit strings.
pub proof fn lemma_dec_chars_injective(a: int, b: int)
    requires
        a >= 0,
        b >= 0,
        dec_chars(a) == dec_chars(b),
    ensures
        a == b,
    decreases a,
{
    lemma_dec_chars_digits(a);
    lemma_dec_chars_digits(b);
    if a < 10 && b < 10 {
        assert(dec_chars(a) == seq![dec_digit(a)]);
        assert(dec_chars(b) == seq![dec_digit(b)]);
        assert(dec_chars(a)[0] == dec_digit(a));
        assert(dec_chars(b)[0] == dec_digit(b));
        assert(dec_digit(a) as u32 == 48 + a);
        assert(dec_digit(b) as u32 == 48 + b);
        assert(a == b);
    } else if a < 10 {
        lemma_dec_chars_digits(b / 10);
        assert(dec_chars(b).len() >= 2);
    } else if b < 10 {
        lemma_dec_chars_digits(a / 10);
        assert(dec_chars(a).len() >= 2);
    } else {
        let la = dec_chars(a / 10);
        let lb = dec_chars(b / 10);
        assert(dec_chars(a) == dec_chars(a / 10) + seq![dec_digit(a % 10)]);
        assert(dec_chars(b) == dec_chars(b / 10) + seq![dec_digit(b % 10)]);
        assert(dec_chars(a).last() == dec_digit(a % 10));
        assert(dec_chars(b).last() == dec_digit(b % 10));
        assert(dec_digit(a % 10) as u32 == 48 + a % 10);
        assert(dec_digit(b % 10) as u32 == 48 + b % 10);
        assert(a % 10 == b % 10);
        assert(la =~= dec_chars(a).drop_last());
        assert(lb =~= dec_chars(b).drop_last());
        lemma_dec_chars_injective(a / 10, b / 10);
        assert(a == 10 * (a / 10) + a % 10);
        assert(b == 10 * (b / 10) + b % 10);
    }
}

// ---------------------------------------------------------------------------
// Text from stored bytes
// ---------------------------------------------------------------------------

/// Writes `s` as a length-prefixed string; strings over
/// `MAX_WIRE_STRING_LEN` bytes are refused and `out` is left alone.
pub fn write_prefixed_string(s: &str, out: &mut Vec<u8>) -> (r: Result<(), BackendError>)
    ensures
        match r {
            Ok(_) => s.spec_bytes().len() <= MAX_WIRE_STRING_LEN && final(out)@ == old(out)@
                + prefixed_bytes(s.spec_bytes()),
            Err(e) => s.spec_bytes().len() > MAX_WIRE_STRING_LEN && final(out)@ == old(out)@
                && e.spec_status() == 400,
        },
{
    let bytes = s.as_bytes();
    if bytes.len() > MAX_WIRE_STRING_LEN {
        return Err(BackendError::new("string does not fit one wire frame", 400));
    }
    let _appended = push_prefixed(out, bytes);
    Ok(())
}

/// Reads one length-prefixed string out of `data` at `start`: the string
/// and the offset just past it.
pub fn read_prefixed_string(data: &[u8], start: usize) -> (r: Result<
    (String, usize),
    BackendError,
>)
    ensures
        match r {
            Ok((s, end)) => {
                &&& spec_parse_prefixed(data@, start as int) matches Some((b, e))
                &&& e == end as int
                &&& vstd::utf8::valid_utf8(b)
                &&& s@ == vstd::utf8::decode_utf8(b)
            },
            Err(_) => spec_parse_prefixed(data@, start as int) matches Some((b, _)) ==> !vstd::utf8::valid_utf8(b),
        },
{
    match parse_prefixed(data, start) {
        None => Err(BackendError::new("truncated wire string", 400)),
        Some((bytes, end)) => match bytes_to_string(bytes) {
            Some(s) => Ok((s, end)),
            None => Err(BackendError::new("wire string is not text", 400)),
        },
    }
}

/// Relies on `chrono::Utc::now` and chrono's `Datelike` and `Timelike`
/// accessors, which document their ranges: the month is 1 to 12, the day 1
/// to 31, the hour at most 23, the minute and the second at most 59 (a
/// leap second lives in the sub-second part). The year is chrono's own,
/// unbounded.
#[verifier::external_body]
fn clock_now_fields() -> (r: (i32, u8, u8, u8, u8, u8))
    ensures
        1 <= r.1 <= 12,
        1 <= r.2 <= 31,
        r.3 <= 23,
        r.4 <= 59,
        r.5 <= 59,
{
    let now = chrono::Utc::now();
    (
        chrono::Datelike::year(&now),
        chrono::Datelike::month(&now) as u8,
        chrono::Datelike::day(&now) as u8,
        chrono::Timelike::hour(&now) as u8,
        chrono::Timelike::minute(&now) as u8,
        chrono::Timelike::second(&now) as u8,
    )
}

/// The current moment as a stored timestamp. A clock reading whose year
/// does not fit the codec's sixteen bits, or whose day does not name a
/// date under the truncated year's calendar, falls back to the epoch.
pub fn now_utc() -> (t: Timestamp)
    ensures
        t.wf(),
{
    let (year, month, day, hour, minute, second) = clock_now_fields();
    if 0 <= year && year <= 65535 {
        match Timestamp::new(year as u16, month, day, hour, minute, second) {
            Some(t) => {
                return t;
            },
            None => {},
        }
    }
    Timestamp { year: 1970, month: 1, day: 1, hour: 0, minute: 0, second: 0 }
}

/// Relies on `String::from_utf8`: it succeeds exactly on valid UTF-8 and
/// returns the decoded characters.
#[verifier::external_body]
pub fn bytes_to_string(v: Vec<u8>) -> (r: Option<String>)
    ensures
        match r {
            Some(s) => vstd::utf8::valid_utf8(v@) && s@ == vstd::utf8::decode_utf8(v@),
            None => !vstd::utf8::valid_utf8(v@),
        },
{
    String::from_utf8(v).ok()
}

} // verus!
