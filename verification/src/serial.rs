//! Value serialization: the punishment record format and the inbox blob, an
//! ordered list of tagged mail records. Records carry a length prefix so a
//! reader can step over an entry whose tag it does not know.

use vstd::prelude::*;

use crate::codec::{encode_timestamp, encode_u64, parse_prefixed, prefixed_bytes, push_prefixed,
    spec_parse_prefixed, timestamp_bytes, timestamp_of_bytes, u64_be_bytes, u64_be_value,
    bytes_to_string, Timestamp, MAX_PREFIXED_LEN, MAX_WIRE_STRING_LEN};
use crate::domain::{Mail, MailModel, PunModel, Punishment, COINS_TAG, MESSAGE_TAG};
use crate::errors::StorageError;

verus! {

use vstd::utf8::{decode_utf8, encode_utf8, valid_utf8};
use vstd::string::StrSliceExecFns;
use vstd::string::StringSliceAdditionalSpecFns;
use vstd::slice::slice_subrange;

// ---------------------------------------------------------------------------
// Field-level pieces
// ---------------------------------------------------------------------------

/// The byte a boolean is stored as.
pub open spec fn bool_byte(x: bool) -> u8 {
    if x {
        1
    } else {
        0
    }
}

/// The stored form of one text field.
pub open spec fn str_bytes(s: Seq<char>) -> Seq<u8> {
    prefixed_bytes(encode_utf8(s))
}

/// The stored form of an optional timestamp: a presence byte, then the
/// seven timestamp bytes if present.
pub open spec fn opt_ts_bytes(t: Option<Timestamp>) -> Seq<u8> {
    match t {
        None => seq![0u8],
        Some(ts) => seq![1u8] + timestamp_bytes(ts),
    }
}

pub open spec fn spec_parse_str(d: Seq<u8>, start: int) -> Option<(Seq<char>, int)> {
    match spec_parse_prefixed(d, start) {
        None => None,
        Some((b, end)) => if valid_utf8(b) {
            Some((decode_utf8(b), end))
        } else {
            None
        },
    }
}

pub open spec fn spec_parse_ts(d: Seq<u8>, start: int) -> Option<(Timestamp, int)> {
    if start + 7 > d.len() {
        None
    } else {
        let t = timestamp_of_bytes(d.subrange(start, start + 7));
        if t.wf() {
            Some((t, start + 7))
        } else {
            None
        }
    }
}

pub open spec fn spec_parse_opt_ts(d: Seq<u8>, start: int) -> Option<(Option<Timestamp>, int)> {
    if start + 1 > d.len() {
        None
    } else if d[start] == 0 {
        Some((None, start + 1))
    } else if d[start] == 1 {
        match spec_parse_ts(d, start + 1) {
            None => None,
            Some((t, end)) => Some((Some(t), end)),
        }
    } else {
        None
    }
}

pub open spec fn spec_parse_u64(d: Seq<u8>, start: int) -> Option<(u64, int)> {
    if start + 8 > d.len() {
        None
    } else {
        Some((u64_be_value(d.subrange(start, start + 8)), start + 8))
    }
}

pub open spec fn spec_parse_bool(d: Seq<u8>, start: int) -> Option<(bool, int)> {
    if start + 1 > d.len() {
        None
    } else {
        Some((d[start] != 0, start + 1))
    }
}

fn push_bytes(out: &mut Vec<u8>, b: &[u8])
    ensures
        final(out)@ == old(out)@ + b@,
{
    let mut i: usize = 0;
    while i < b.len()
        invariant
            i <= b@.len(),
            out@ == old(out)@ + b@.subrange(0, i as int),
        decreases b@.len() - i,
    {
        out.push(b[i]);
        i += 1;
        proof {
            assert(b@.subrange(0, i as int) =~= b@.subrange(0, i - 1) + seq![b@[i - 1]]);
            assert(out@ =~= old(out)@ + b@.subrange(0, i as int));
        }
    }
    proof {
        assert(b@.subrange(0, b@.len() as int) =~= b@);
        assert(out@ =~= old(out)@ + b@);
    }
}

fn parse_str(data: &[u8], start: usize) -> (r: Option<(String, usize)>)
    ensures
        match r {
            Some((s, end)) => spec_parse_str(data@, start as int) == Some((s@, end as int)) && start
                < end <= data@.len(),
            None => spec_parse_str(data@, start as int) is None,
        },
{
    match parse_prefixed(data, start) {
        None => None,
        Some((b, end)) => match bytes_to_string(b) {
            Some(s) => Some((s, end)),
            None => None,
        },
    }
}

fn parse_ts(data: &[u8], start: usize) -> (r: Option<(Timestamp, usize)>)
    ensures
        match r {
            Some((t, end)) => spec_parse_ts(data@, start as int) == Some((t, end as int)) && start
                < end <= data@.len(),
            None => spec_parse_ts(data@, start as int) is None,
        },
{
    if data.len() < 7 || start > data.len() - 7 {
        return None;
    }
    let piece = slice_subrange(data, start, start + 7);
    match crate::codec::decode_timestamp(piece) {
        Ok(t) => Some((t, start + 7)),
        Err(_) => None,
    }
}

fn parse_opt_ts(data: &[u8], start: usize) -> (r: Option<(Option<Timestamp>, usize)>)
    ensures
        match r {
            Some((t, end)) => spec_parse_opt_ts(data@, start as int) == Some((t, end as int))
                && start < end <= data@.len(),
            None => spec_parse_opt_ts(data@, start as int) is None,
        },
{
    if start >= data.len() {
        return None;
    }
    if data[start] == 0 {
        Some((None, start + 1))
    } else if data[start] == 1 {
        match parse_ts(data, start + 1) {
            None => None,
            Some((t, end)) => Some((Some(t), end)),
        }
    } else {
        None
    }
}

fn parse_u64(data: &[u8], start: usize) -> (r: Option<(u64, usize)>)
    ensures
        match r {
            Some((n, end)) => spec_parse_u64(data@, start as int) == Some((n, end as int)) && start
                < end <= data@.len(),
            None => spec_parse_u64(data@, start as int) is None,
        },
{
    if data.len() < 8 || start > data.len() - 8 {
        return None;
    }
    let piece = slice_subrange(data, start, start + 8);
    match crate::codec::decode_u64(piece) {
        Ok(n) => Some((n, start + 8)),
        Err(_) => None,
    }
}

fn parse_bool(data: &[u8], start: usize) -> (r: Option<(bool, usize)>)
    ensures
        match r {
            Some((x, end)) => spec_parse_bool(data@, start as int) == Some((x, end as int))
                && start < end <= data@.len(),
            None => spec_parse_bool(data@, start as int) is None,
        },
{
    if start >= data.len() {
        return None;
    }
    Some((data[start] != 0, start + 1))
}

// ---------------------------------------------------------------------------
// Punishment records
// ---------------------------------------------------------------------------

/// The stored form of one punishment record.
pub open spec fn pun_record_bytes(p: PunModel) -> Seq<u8> {
    u64_be_bytes(p.id) + str_bytes(p.title) + timestamp_bytes(p.creation_date) + opt_ts_bytes(
        p.expiration_date,
    ) + str_bytes(p.reason) + seq![
        bool_byte(p.alsoip),
        bool_byte(p.allow_chat),
        bool_byte(p.allow_ranked),
        bool_byte(p.allow_unranked),
        bool_byte(p.allow_join_minigames),
    ]
}

/// The record a stored value holds, if it parses end to end.
#[verifier::opaque]
pub open spec fn spec_decode_pun(b: Seq<u8>) -> Option<PunModel> {
    match spec_parse_u64(b, 0) {
        None => None,
        Some((id, o1)) => match spec_parse_str(b, o1) {
            None => None,
            Some((title, o2)) => match spec_parse_ts(b, o2) {
                None => None,
                Some((creation, o3)) => match spec_parse_opt_ts(b, o3) {
                    None => None,
                    Some((exp, o4)) => match spec_parse_str(b, o4) {
                        None => None,
                        Some((reason, o5)) => if o5 + 5 == b.len() {
                            Some(
                                PunModel {
                                    id,
                                    title,
                                    creation_date: creation,
                                    expiration_date: exp,
                                    reason,
                                    alsoip: b[o5] != 0,
                                    allow_chat: b[o5 + 1] != 0,
                                    allow_ranked: b[o5 + 2] != 0,
                                    allow_unranked: b[o5 + 3] != 0,
                                    allow_join_minigames: b[o5 + 4] != 0,
                                },
                            )
                        } else {
                            None
                        },
                    },
                },
            },
        },
    }
}

#[verifier::rlimit(100)]
pub fn encode_punishment(p: &Punishment) -> (r: Vec<u8>)
    requires
        p@.wf(),
    ensures
        r@ == pun_record_bytes(p@),
{
    let mut out = encode_u64(p.id);
    let _a = push_prefixed(&mut out, p.title.as_str().as_bytes());
    let cr = encode_timestamp(p.creation_date);
    push_bytes(&mut out, cr.as_slice());
    match &p.expiration_date {
        None => out.push(0),
        Some(ts) => {
            out.push(1);
            let eb = encode_timestamp(*ts);
            push_bytes(&mut out, eb.as_slice());
            proof {
                assert(out@ =~= u64_be_bytes(p@.id) + str_bytes(p@.title) + timestamp_bytes(
                    p@.creation_date,
                ) + (seq![1u8] + timestamp_bytes(p@.expiration_date->Some_0)));
            }
        },
    }
    let _b = push_prefixed(&mut out, p.reason.as_str().as_bytes());
    out.push(if p.alsoip {
        1
    } else {
        0
    });
    out.push(if p.allow_chat {
        1
    } else {
        0
    });
    out.push(if p.allow_ranked {
        1
    } else {
        0
    });
    out.push(if p.allow_unranked {
        1
    } else {
        0
    });
    out.push(if p.allow_join_minigames {
        1
    } else {
        0
    });
    proof {
        assert(out@ =~= pun_record_bytes(p@));
    }
    out
}

pub fn decode_punishment(data: &[u8]) -> (r: Result<Punishment, StorageError>)
    ensures
        match r {
            Ok(p) => spec_decode_pun(data@) == Some(p@),
            Err(e) => e == StorageError::CorruptData && spec_decode_pun(data@) is None,
        },
{
    proof {
        reveal(spec_decode_pun);
    }
    let (id, o1) = match parse_u64(data, 0) {
        Some(x) => x,
        None => {
            return Err(StorageError::CorruptData);
        },
    };
    let (title, o2) = match parse_str(data, o1) {
        Some(x) => x,
        None => {
            return Err(StorageError::CorruptData);
        },
    };
    let (creation, o3) = match parse_ts(data, o2) {
        Some(x) => x,
        None => {
            return Err(StorageError::CorruptData);
        },
    };
    let (exp, o4) = match parse_opt_ts(data, o3) {
        Some(x) => x,
        None => {
            return Err(StorageError::CorruptData);
        },
    };
    let (reason, o5) = match parse_str(data, o4) {
        Some(x) => x,
        None => {
            return Err(StorageError::CorruptData);
        },
    };
    if o5 > data.len() - 5 || o5 + 5 != data.len() {
        return Err(StorageError::CorruptData);
    }
    Ok(
        Punishment {
            id,
            title,
            creation_date: creation,
            expiration_date: exp,
            reason,
            alsoip: data[o5] != 0,
            allow_chat: data[o5 + 1] != 0,
            allow_ranked: data[o5 + 2] != 0,
            allow_unranked: data[o5 + 3] != 0,
            allow_join_minigames: data[o5 + 4] != 0,
        },
    )
}

// ---------------------------------------------------------------------------
// Round trips of the field pieces
// ---------------------------------------------------------------------------

proof fn lemma_parse_u64_at(pre: Seq<u8>, n: u64, post: Seq<u8>)
    ensures
        spec_parse_u64(pre + u64_be_bytes(n) + post, pre.len() as int) == Some(
            (n, pre.len() + 8int),
        ),
{
    let d = pre + u64_be_bytes(n) + post;
    let start = pre.len() as int;
    assert(d.subrange(start, start + 8) =~= u64_be_bytes(n));
    crate::codec::lemma_u64_roundtrip(n);
}

proof fn lemma_parse_ts_at(pre: Seq<u8>, t: Timestamp, post: Seq<u8>)
    requires
        t.wf(),
    ensures
        spec_parse_ts(pre + timestamp_bytes(t) + post, pre.len() as int) == Some(
            (t, pre.len() + 7int),
        ),
{
    let d = pre + timestamp_bytes(t) + post;
    let start = pre.len() as int;
    assert(d.subrange(start, start + 7) =~= timestamp_bytes(t));
    crate::codec::lemma_timestamp_roundtrip(t);
}

proof fn lemma_parse_opt_ts_at(pre: Seq<u8>, t: Option<Timestamp>, post: Seq<u8>)
    requires
        t matches Some(ts) ==> ts.wf(),
    ensures
        spec_parse_opt_ts(pre + opt_ts_bytes(t) + post, pre.len() as int) == Some(
            (t, pre.len() + opt_ts_bytes(t).len() as int),
        ),
{
    let d = pre + opt_ts_bytes(t) + post;
    let start = pre.len() as int;
    match t {
        None => {
            assert(d[start] == 0);
        },
        Some(ts) => {
            assert(d[start] == 1);
            assert(d =~= (pre + seq![1u8]) + timestamp_bytes(ts) + post);
            lemma_parse_ts_at(pre + seq![1u8], ts, post);
        },
    }
}

proof fn lemma_parse_str_at(pre: Seq<u8>, s: Seq<char>, post: Seq<u8>)
    requires
        encode_utf8(s).len() <= MAX_PREFIXED_LEN,
    ensures
        spec_parse_str(pre + str_bytes(s) + post, pre.len() as int) == Some(
            (s, pre.len() + str_bytes(s).len() as int),
        ),
{
    broadcast use vstd::utf8::encode_utf8_decode_utf8;
    broadcast use vstd::utf8::encode_utf8_valid_utf8;

    crate::codec::lemma_prefixed_roundtrip(pre, encode_utf8(s), post);
}

proof fn lemma_parse_bool_at(pre: Seq<u8>, x: bool, post: Seq<u8>)
    ensures
        spec_parse_bool(pre + seq![bool_byte(x)] + post, pre.len() as int) == Some(
            (x, pre.len() + 1int),
        ),
{
    let d = pre + seq![bool_byte(x)] + post;
    assert(d[pre.len() as int] == bool_byte(x));
}

/// Round trip: a well-formed punishment record decodes to itself.
#[verifier::rlimit(100)]
pub proof fn lemma_pun_record_roundtrip(p: PunModel)
    requires
        p.wf(),
    ensures
        spec_decode_pun(pun_record_bytes(p)) == Some(p),
{
    reveal(spec_decode_pun);
    let b = pun_record_bytes(p);
    let idb = u64_be_bytes(p.id);
    let tb = str_bytes(p.title);
    let crb = timestamp_bytes(p.creation_date);
    let exb = opt_ts_bytes(p.expiration_date);
    let rb = str_bytes(p.reason);
    let fb = seq![
        bool_byte(p.alsoip),
        bool_byte(p.allow_chat),
        bool_byte(p.allow_ranked),
        bool_byte(p.allow_unranked),
        bool_byte(p.allow_join_minigames),
    ];
    assert(b =~= Seq::<u8>::empty() + idb + (tb + crb + exb + rb + fb));
    lemma_parse_u64_at(Seq::<u8>::empty(), p.id, tb + crb + exb + rb + fb);
    let o1 = idb.len() as int;
    assert(b =~= idb + tb + (crb + exb + rb + fb));
    lemma_parse_str_at(idb, p.title, crb + exb + rb + fb);
    let o2 = o1 + tb.len() as int;
    assert(b =~= (idb + tb) + crb + (exb + rb + fb));
    lemma_parse_ts_at(idb + tb, p.creation_date, exb + rb + fb);
    let o3 = o2 + 7;
    assert(b =~= (idb + tb + crb) + exb + (rb + fb));
    lemma_parse_opt_ts_at(idb + tb + crb, p.expiration_date, rb + fb);
    let o4 = o3 + exb.len() as int;
    assert(b =~= (idb + tb + crb + exb) + rb + fb);
    lemma_parse_str_at(idb + tb + crb + exb, p.reason, fb);
    let o5 = o4 + rb.len() as int;
    assert(o5 + 5 == b.len());
    assert(b[o5] == bool_byte(p.alsoip));
    assert(b[o5 + 1] == bool_byte(p.allow_chat));
    assert(b[o5 + 2] == bool_byte(p.allow_ranked));
    assert(b[o5 + 3] == bool_byte(p.allow_unranked));
    assert(b[o5 + 4] == bool_byte(p.allow_join_minigames));
    assert(spec_decode_pun(b) matches Some(q) && q =~= p);
}

// ---------------------------------------------------------------------------
// Mail records and the inbox blob
// ---------------------------------------------------------------------------

/// The payload of one mail record: the tag, then the fields of the variant
/// it names.
pub open spec fn mail_payload_bytes(m: MailModel) -> Seq<u8> {
    match m {
        MailModel::Message { sender, submission_date, message, deleted } => seq![MESSAGE_TAG]
            + str_bytes(sender) + timestamp_bytes(submission_date) + seq![bool_byte(deleted)]
            + str_bytes(message),
        MailModel::Coins { sender, submission_date, message, deleted, coins, claimed } => seq![
            COINS_TAG,
        ] + str_bytes(sender) + timestamp_bytes(submission_date) + seq![bool_byte(deleted)]
            + str_bytes(message) + u64_be_bytes(coins) + seq![bool_byte(claimed)],
    }
}

/// One length-prefixed mail record.
pub open spec fn mail_record_bytes(m: MailModel) -> Seq<u8> {
    prefixed_bytes(mail_payload_bytes(m))
}

/// The inbox blob: the records in inbox order, nothing else.
pub open spec fn inbox_bytes(mails: Seq<MailModel>) -> Seq<u8>
    decreases mails.len(),
{
    if mails.len() == 0 {
        Seq::<u8>::empty()
    } else {
        mail_record_bytes(mails[0]) + inbox_bytes(mails.skip(1))
    }
}

/// What one record payload holds: a mail, or nothing for a tag this reader
/// does not know, or a parse failure.
pub open spec fn spec_decode_mail_payload(p: Seq<u8>) -> Option<Option<MailModel>> {
    if p.len() < 1 {
        None
    } else if p[0] == MESSAGE_TAG {
        match spec_parse_str(p, 1) {
            None => None,
            Some((sender, o1)) => match spec_parse_ts(p, o1) {
                None => None,
                Some((date, o2)) => match spec_parse_bool(p, o2) {
                    None => None,
                    Some((deleted, o3)) => match spec_parse_str(p, o3) {
                        None => None,
                        Some((message, o4)) => if o4 == p.len() {
                            Some(
                                Some(
                                    MailModel::Message {
                                        sender,
                                        submission_date: date,
                                        message,
                                        deleted,
                                    },
                                ),
                            )
                        } else {
                            None
                        },
                    },
                },
            },
        }
    } else if p[0] == COINS_TAG {
        match spec_parse_str(p, 1) {
            None => None,
            Some((sender, o1)) => match spec_parse_ts(p, o1) {
                None => None,
                Some((date, o2)) => match spec_parse_bool(p, o2) {
                    None => None,
                    Some((deleted, o3)) => match spec_parse_str(p, o3) {
                        None => None,
                        Some((message, o4)) => match spec_parse_u64(p, o4) {
                            None => None,
                            Some((coins, o5)) => match spec_parse_bool(p, o5) {
                                None => None,
                                Some((claimed, o6)) => if o6 == p.len() {
                                    Some(
                                        Some(
                                            MailModel::Coins {
                                                sender,
                                                submission_date: date,
                                                message,
                                                deleted,
                                                coins,
                                                claimed,
                                            },
                                        ),
                                    )
                                } else {
                                    None
                                },
                            },
                        },
                    },
                },
            },
        }
    } else {
        Some(None)
    }
}

/// The mails a blob holds from `start` on: known records in order, unknown
/// tags stepped over, or a parse failure.
pub open spec fn spec_decode_inbox(b: Seq<u8>, start: int) -> Option<Seq<MailModel>>
    decreases b.len() - start,
    when 0 <= start <= b.len()
{
    if start == b.len() {
        Some(Seq::<MailModel>::empty())
    } else {
        match spec_parse_prefixed(b, start) {
            None => None,
            Some((payload, end)) => match spec_decode_mail_payload(payload) {
                None => None,
                Some(entry) => match spec_decode_inbox(b, end) {
                    None => None,
                    Some(rest) => match entry {
                        None => Some(rest),
                        Some(m) => Some(seq![m] + rest),
                    },
                },
            },
        }
    }
}

pub fn encode_mail(m: &Mail) -> (r: Vec<u8>)
    requires
        m@.wf(),
    ensures
        r@ == mail_payload_bytes(m@),
{
    let mut out: Vec<u8> = Vec::new();
    match m {
        Mail::Message { sender, submission_date, message, deleted } => {
            out.push(MESSAGE_TAG);
            let _a = push_prefixed(&mut out, sender.as_str().as_bytes());
            let db = encode_timestamp(*submission_date);
            push_bytes(&mut out, db.as_slice());
            out.push(if *deleted {
                1
            } else {
                0
            });
            let _b = push_prefixed(&mut out, message.as_str().as_bytes());
            proof {
                assert(out@ =~= mail_payload_bytes(m@));
            }
        },
        Mail::Coins { sender, submission_date, message, deleted, coins, claimed } => {
            out.push(COINS_TAG);
            let _a = push_prefixed(&mut out, sender.as_str().as_bytes());
            let db = encode_timestamp(*submission_date);
            push_bytes(&mut out, db.as_slice());
            out.push(if *deleted {
                1
            } else {
                0
            });
            let _b = push_prefixed(&mut out, message.as_str().as_bytes());
            let cb = encode_u64(*coins);
            push_bytes(&mut out, cb.as_slice());
            out.push(if *claimed {
                1
            } else {
                0
            });
            proof {
                assert(out@ =~= mail_payload_bytes(m@));
            }
        },
    }
    out
}

/// Appending one record extends the blob at its end.
proof fn lemma_inbox_bytes_push(mails: Seq<MailModel>, m: MailModel)
    ensures
        inbox_bytes(mails.push(m)) == inbox_bytes(mails) + mail_record_bytes(m),
    decreases mails.len(),
{
    if mails.len() == 0 {
        let s = mails.push(m);
        assert(s[0] == m);
        assert(s.skip(1) =~= Seq::<MailModel>::empty());
        assert(inbox_bytes(s) == mail_record_bytes(m) + inbox_bytes(s.skip(1)));
        assert(inbox_bytes(s.skip(1)) == Seq::<u8>::empty());
        assert(inbox_bytes(mails) == Seq::<u8>::empty());
        assert(mail_record_bytes(m) + Seq::<u8>::empty() =~= Seq::<u8>::empty()
            + mail_record_bytes(m));
    } else {
        assert(mails.push(m)[0] == mails[0]);
        assert(mails.push(m).skip(1) =~= mails.skip(1).push(m));
        lemma_inbox_bytes_push(mails.skip(1), m);
        assert(inbox_bytes(mails.push(m)) =~= inbox_bytes(mails) + mail_record_bytes(m));
    }
}

pub fn encode_inbox(mails: &Vec<Mail>) -> (r: Vec<u8>)
    requires
        forall|i: int| 0 <= i < mails@.len() ==> (#[trigger] mails@[i])@.wf(),
    ensures
        r@ == inbox_bytes(mails@.map_values(|m: Mail| m@)),
{
    let ghost models = mails@.map_values(|m: Mail| m@);
    let mut out: Vec<u8> = Vec::new();
    let mut i: usize = 0;
    proof {
        assert(models.subrange(0, 0) =~= Seq::<MailModel>::empty());
    }
    while i < mails.len()
        invariant
            i <= mails@.len(),
            models == mails@.map_values(|m: Mail| m@),
            forall|j: int| 0 <= j < mails@.len() ==> (#[trigger] mails@[j])@.wf(),
            out@ == inbox_bytes(models.subrange(0, i as int)),
        decreases mails@.len() - i,
    {
        let payload = encode_mail(&mails[i]);
        let _ok = push_prefixed(&mut out, payload.as_slice());
        proof {
            assert(mails@[i as int]@.wf());
            assert(mail_payload_bytes(models[i as int]).len() <= 1 + (2 + MAX_WIRE_STRING_LEN) + 7
                + 1 + (2 + MAX_WIRE_STRING_LEN) + 8 + 1);
            lemma_inbox_bytes_push(models.subrange(0, i as int), models[i as int]);
            assert(models.subrange(0, i as int).push(models[i as int]) =~= models.subrange(
                0,
                i + 1,
            ));
        }
        i += 1;
    }
    proof {
        assert(models.subrange(0, models.len() as int) =~= models);
    }
    out
}

/// Round trip of one record payload.
proof fn lemma_mail_payload_roundtrip(m: MailModel)
    requires
        m.wf(),
    ensures
        spec_decode_mail_payload(mail_payload_bytes(m)) == Some(Some(m)),
{
    match m {
        MailModel::Message { .. } => lemma_mail_payload_roundtrip_message(m),
        MailModel::Coins { .. } => lemma_mail_payload_roundtrip_coins(m),
    }
}

#[verifier::rlimit(100)]
#[verifier::spinoff_prover]
proof fn lemma_mail_payload_roundtrip_message(m: MailModel)
    requires
        m.wf(),
        m is Message,
    ensures
        spec_decode_mail_payload(mail_payload_bytes(m)) == Some(Some(m)),
{
    let p = mail_payload_bytes(m);
    match m {
        MailModel::Message { sender, submission_date, message, deleted } => {
            let sb = str_bytes(sender);
            let db = timestamp_bytes(submission_date);
            let eb = seq![bool_byte(deleted)];
            let mb = str_bytes(message);
            assert(p[0] == MESSAGE_TAG);
            assert(p =~= seq![MESSAGE_TAG] + sb + (db + eb + mb));
            lemma_parse_str_at(seq![MESSAGE_TAG], sender, db + eb + mb);
            let o1 = 1 + sb.len() as int;
            assert(p =~= (seq![MESSAGE_TAG] + sb) + db + (eb + mb));
            lemma_parse_ts_at(seq![MESSAGE_TAG] + sb, submission_date, eb + mb);
            let o2 = o1 + 7;
            assert(p =~= (seq![MESSAGE_TAG] + sb + db) + eb + mb);
            lemma_parse_bool_at(seq![MESSAGE_TAG] + sb + db, deleted, mb);
            let o3 = o2 + 1;
            assert(p =~= (seq![MESSAGE_TAG] + sb + db + eb) + mb + Seq::<u8>::empty());
            lemma_parse_str_at(seq![MESSAGE_TAG] + sb + db + eb, message, Seq::<u8>::empty());
            assert(o3 + mb.len() == p.len());
            assert(spec_decode_mail_payload(p) matches Some(Some(q)) && q =~= m);
        },
        MailModel::Coins { .. } => {},
    }
}

#[verifier::rlimit(100)]
#[verifier::spinoff_prover]
proof fn lemma_mail_payload_roundtrip_coins(m: MailModel)
    requires
        m.wf(),
        m is Coins,
    ensures
        spec_decode_mail_payload(mail_payload_bytes(m)) == Some(Some(m)),
{
    let p = mail_payload_bytes(m);
    match m {
        MailModel::Message { .. } => {},
        MailModel::Coins { sender, submission_date, message, deleted, coins, claimed } => {
            let sb = str_bytes(sender);
            let db = timestamp_bytes(submission_date);
            let eb = seq![bool_byte(deleted)];
            let mb = str_bytes(message);
            let cb = u64_be_bytes(coins);
            let lb = seq![bool_byte(claimed)];
            assert(p[0] == COINS_TAG);
            assert(p =~= seq![COINS_TAG] + sb + (db + eb + mb + cb + lb));
            lemma_parse_str_at(seq![COINS_TAG], sender, db + eb + mb + cb + lb);
            let o1 = 1 + sb.len() as int;
            assert(p =~= (seq![COINS_TAG] + sb) + db + (eb + mb + cb + lb));
            lemma_parse_ts_at(seq![COINS_TAG] + sb, submission_date, eb + mb + cb + lb);
            let o2 = o1 + 7;
            assert(p =~= (seq![COINS_TAG] + sb + db) + eb + (mb + cb + lb));
            lemma_parse_bool_at(seq![COINS_TAG] + sb + db, deleted, mb + cb + lb);
            let o3 = o2 + 1;
            assert(p =~= (seq![COINS_TAG] + sb + db + eb) + mb + (cb + lb));
            lemma_parse_str_at(seq![COINS_TAG] + sb + db + eb, message, cb + lb);
            let o4 = o3 + mb.len() as int;
            assert(p =~= (seq![COINS_TAG] + sb + db + eb + mb) + cb + lb);
            lemma_parse_u64_at(seq![COINS_TAG] + sb + db + eb + mb, coins, lb);
            let o5 = o4 + 8;
            assert(p =~= (seq![COINS_TAG] + sb + db + eb + mb + cb) + lb + Seq::<u8>::empty());
            lemma_parse_bool_at(seq![COINS_TAG] + sb + db + eb + mb + cb, claimed, Seq::<u8>::empty());
            assert(o5 + 1 == p.len());
            assert(spec_decode_mail_payload(p) matches Some(Some(q)) && q =~= m);
        },
    }
}

/// Round trip: a blob written from well-formed mails decodes to exactly
/// those mails, in order.
#[verifier::rlimit(100)]
pub proof fn lemma_inbox_roundtrip(pre: Seq<u8>, mails: Seq<MailModel>)
    requires
        forall|i: int| 0 <= i < mails.len() ==> (#[trigger] mails[i]).wf(),
    ensures
        spec_decode_inbox(pre + inbox_bytes(mails), pre.len() as int) == Some(mails),
    decreases mails.len(),
{
    let b = pre + inbox_bytes(mails);
    if mails.len() == 0 {
        assert(b =~= pre);
        assert(mails =~= Seq::<MailModel>::empty());
    } else {
        let m = mails[0];
        let payload = mail_payload_bytes(m);
        let rest = inbox_bytes(mails.skip(1));
        assert(payload.len() <= 1 + (2 + MAX_WIRE_STRING_LEN) + 7 + 1 + (2 + MAX_WIRE_STRING_LEN)
            + 8 + 1);
        assert(b =~= pre + prefixed_bytes(payload) + rest);
        crate::codec::lemma_prefixed_roundtrip(pre, payload, rest);
        lemma_mail_payload_roundtrip(m);
        let end = pre.len() + 2 + payload.len() as int;
        assert(b =~= (pre + mail_record_bytes(m)) + inbox_bytes(mails.skip(1)));
        lemma_inbox_roundtrip(pre + mail_record_bytes(m), mails.skip(1));
        assert((pre + mail_record_bytes(m)).len() as int == end);
        assert(seq![m] + mails.skip(1) =~= mails);
    }
}

/// Decodes a stored inbox blob; unknown record tags are skipped, a record
/// that does not parse fails the whole read.
pub fn decode_inbox(data: &[u8]) -> (r: Result<Vec<Mail>, StorageError>)
    ensures
        match r {
            Ok(mails) => spec_decode_inbox(data@, 0) == Some(mails@.map_values(|m: Mail| m@)),
            Err(e) => e == StorageError::CorruptData && spec_decode_inbox(data@, 0) is None,
        },
{
    let mut out: Vec<Mail> = Vec::new();
    let mut off: usize = 0;
    proof {
        assert(out@.map_values(|m: Mail| m@) =~= Seq::<MailModel>::empty());
    }
    while off < data.len()
        invariant
            0 <= off <= data@.len(),
            match spec_decode_inbox(data@, off as int) {
                None => spec_decode_inbox(data@, 0) is None,
                Some(rest) => spec_decode_inbox(data@, 0) == Some(
                    out@.map_values(|m: Mail| m@) + rest,
                ),
            },
        decreases data@.len() - off,
    {
        let ghost prev = out@.map_values(|m: Mail| m@);
        let (payload, end) = match parse_prefixed(data, off) {
            Some(x) => x,
            None => {
                return Err(StorageError::CorruptData);
            },
        };
        if payload.len() < 1 {
            return Err(StorageError::CorruptData);
        }
        let tag = payload[0];
        if tag == MESSAGE_TAG || tag == COINS_TAG {
            let ps = payload.as_slice();
            let (sender, o1) = match parse_str(ps, 1) {
                Some(x) => x,
                None => {
                    return Err(StorageError::CorruptData);
                },
            };
            let (date, o2) = match parse_ts(ps, o1) {
                Some(x) => x,
                None => {
                    return Err(StorageError::CorruptData);
                },
            };
            let (deleted, o3) = match parse_bool(ps, o2) {
                Some(x) => x,
                None => {
                    return Err(StorageError::CorruptData);
                },
            };
            let (message, o4) = match parse_str(ps, o3) {
                Some(x) => x,
                None => {
                    return Err(StorageError::CorruptData);
                },
            };
            if tag == MESSAGE_TAG {
                if o4 != payload.len() {
                    return Err(StorageError::CorruptData);
                }
                out.push(Mail::Message { sender, submission_date: date, message, deleted });
            } else {
                let (coins, o5) = match parse_u64(ps, o4) {
                    Some(x) => x,
                    None => {
                        return Err(StorageError::CorruptData);
                    },
                };
                let (claimed, o6) = match parse_bool(ps, o5) {
                    Some(x) => x,
                    None => {
                        return Err(StorageError::CorruptData);
                    },
                };
                if o6 != payload.len() {
                    return Err(StorageError::CorruptData);
                }
                out.push(
                    Mail::Coins { sender, submission_date: date, message, deleted, coins, claimed },
                );
            }
            proof {
                let added = out@.map_values(|m: Mail| m@);
                assert(added =~= prev + seq![out@.last()@]);
                assert(spec_decode_mail_payload(payload@) == Some(Some(out@.last()@)));
                let r2 = spec_decode_inbox(data@, end as int);
                if r2 is Some {
                    let rest = r2->Some_0;
                    assert(spec_decode_inbox(data@, off as int) == Some(seq![out@.last()@] + rest));
                    assert(prev + (seq![out@.last()@] + rest) =~= added + rest);
                } else {
                    assert(spec_decode_inbox(data@, off as int) is None);
                }
            }
        } else {
            proof {
                assert(spec_decode_mail_payload(payload@) == Some(None::<MailModel>));
            }
        }
        off = end;
    }
    proof {
        assert(spec_decode_inbox(data@, off as int) == Some(Seq::<MailModel>::empty()));
        assert(out@.map_values(|m: Mail| m@) + Seq::<MailModel>::empty() =~= out@.map_values(
            |m: Mail| m@,
        ));
    }
    Ok(out)
}

} // verus!
