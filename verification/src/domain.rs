//! The domain model: users, groups, permissions, punishments and mail, with
//! a mathematical view of each type for use in contracts.

use vstd::prelude::*;

use core::cmp::Ordering;
use crate::codec::Timestamp;
use crate::codec::{MAX_PREFIXED_LEN, MAX_WIRE_STRING_LEN};

verus! {

// ---------------------------------------------------------------------------
// Private-message mode
// ---------------------------------------------------------------------------

/// Whether a user accepts private messages. This engine uses the
/// three-state enumeration: enabled, friends only, disabled.
#[derive(Clone, Copy, Debug, PartialEq, Eq, Structural)]
pub enum PmMode {
    Enabled,
    FriendsOnly,
    Disabled,
}

/// The single byte a private-message mode is stored as.
pub open spec fn pm_mode_byte(m: PmMode) -> u8 {
    match m {
        PmMode::Enabled => 0,
        PmMode::FriendsOnly => 1,
        PmMode::Disabled => 2,
    }
}

/// The mode a stored byte names, if any.
pub open spec fn pm_mode_of_byte(b: u8) -> Option<PmMode> {
    if b == 0 {
        Some(PmMode::Enabled)
    } else if b == 1 {
        Some(PmMode::FriendsOnly)
    } else if b == 2 {
        Some(PmMode::Disabled)
    } else {
        None
    }
}

pub fn encode_pm_mode(m: PmMode) -> (r: u8)
    ensures
        r == pm_mode_byte(m),
{
    match m {
        PmMode::Enabled => 0,
        PmMode::FriendsOnly => 1,
        PmMode::Disabled => 2,
    }
}

pub fn decode_pm_mode(b: u8) -> (r: Option<PmMode>)
    ensures
        r == pm_mode_of_byte(b),
{
    if b == 0 {
        Some(PmMode::Enabled)
    } else if b == 1 {
        Some(PmMode::FriendsOnly)
    } else if b == 2 {
        Some(PmMode::Disabled)
    } else {
        None
    }
}

// ---------------------------------------------------------------------------
// Permissions and groups
// ---------------------------------------------------------------------------

/// A named boolean permission, owned by a user or by a group.
pub struct Permission {
    pub permission: String,
    pub value: bool,
}

/// The mathematical view of a [`Permission`].
#[verifier::ext_equal]
pub ghost struct PermModel {
    pub name: Seq<char>,
    pub value: bool,
}

impl View for Permission {
    type V = PermModel;

    open spec fn view(&self) -> PermModel {
        PermModel { name: self.permission@, value: self.value }
    }
}

/// A permission group: prefix, suffix, a permission set and the time of the
/// last administrative rewrite.
pub struct Group {
    pub name: String,
    pub prefix: String,
    pub suffix: String,
    pub perms: Vec<Permission>,
    pub last_modification: Timestamp,
}

/// The mathematical view of a [`Group`].
#[verifier::ext_equal]
pub ghost struct GroupModel {
    pub name: Seq<char>,
    pub prefix: Seq<char>,
    pub suffix: Seq<char>,
    pub perms: Seq<PermModel>,
    pub last_modification: Timestamp,
}

impl View for Group {
    type V = GroupModel;

    open spec fn view(&self) -> GroupModel {
        GroupModel {
            name: self.name@,
            prefix: self.prefix@,
            suffix: self.suffix@,
            perms: self.perms@.map_values(|p: Permission| p@),
            last_modification: self.last_modification,
        }
    }
}

// ---------------------------------------------------------------------------
// Punishments
// ---------------------------------------------------------------------------

/// A moderation record: immutable once created, identified by a
/// store-generated id that is never reused.
#[derive(Debug)]
pub struct Punishment {
    pub id: u64,
    pub title: String,
    pub creation_date: Timestamp,
    pub expiration_date: Option<Timestamp>,
    pub reason: String,
    pub alsoip: bool,
    pub allow_chat: bool,
    pub allow_ranked: bool,
    pub allow_unranked: bool,
    pub allow_join_minigames: bool,
}

/// The mathematical view of a [`Punishment`].
#[verifier::ext_equal]
pub ghost struct PunModel {
    pub id: u64,
    pub title: Seq<char>,
    pub creation_date: Timestamp,
    pub expiration_date: Option<Timestamp>,
    pub reason: Seq<char>,
    pub alsoip: bool,
    pub allow_chat: bool,
    pub allow_ranked: bool,
    pub allow_unranked: bool,
    pub allow_join_minigames: bool,
}

impl View for Punishment {
    type V = PunModel;

    open spec fn view(&self) -> PunModel {
        PunModel {
            id: self.id,
            title: self.title@,
            creation_date: self.creation_date,
            expiration_date: self.expiration_date,
            reason: self.reason@,
            alsoip: self.alsoip,
            allow_chat: self.allow_chat,
            allow_ranked: self.allow_ranked,
            allow_unranked: self.allow_unranked,
            allow_join_minigames: self.allow_join_minigames,
        }
    }
}

impl PunModel {
    /// What the record codec can carry: text up to the format's own
    /// sixteen-bit length prefix, and real dates.
    pub open spec fn wf(self) -> bool {
        &&& vstd::utf8::encode_utf8(self.title).len() <= MAX_PREFIXED_LEN
        &&& vstd::utf8::encode_utf8(self.reason).len() <= MAX_PREFIXED_LEN
        &&& self.creation_date.wf()
        &&& match self.expiration_date {
            Some(t) => t.wf(),
            None => true,
        }
    }
}

/// How many capabilities a punishment withdraws; used to order records by
/// severity.
pub open spec fn spec_priority(p: PunModel) -> int {
    (if p.alsoip {
        0int
    } else {
        1int
    }) + (if p.allow_chat {
        0int
    } else {
        1int
    }) + (if p.allow_ranked {
        0int
    } else {
        1int
    }) + (if p.allow_unranked {
        0int
    } else {
        1int
    }) + (if p.allow_join_minigames {
        0int
    } else {
        1int
    })
}

impl Punishment {
    pub fn get_priority(&self) -> (r: u8)
        ensures
            r as int == spec_priority(self@),
    {
        (if self.alsoip {
            0u8
        } else {
            1u8
        }) + (if self.allow_chat {
            0u8
        } else {
            1u8
        }) + (if self.allow_ranked {
            0u8
        } else {
            1u8
        }) + (if self.allow_unranked {
            0u8
        } else {
            1u8
        }) + (if self.allow_join_minigames {
            0u8
        } else {
            1u8
        })
    }
}

/// Timestamps ordered as calendar moments: year, then month, day, hour,
/// minute, second.
pub open spec fn spec_ts_cmp(a: Timestamp, b: Timestamp) -> Ordering {
    if a.year != b.year {
        if a.year < b.year {
            Ordering::Less
        } else {
            Ordering::Greater
        }
    } else if a.month != b.month {
        if a.month < b.month {
            Ordering::Less
        } else {
            Ordering::Greater
        }
    } else if a.day != b.day {
        if a.day < b.day {
            Ordering::Less
        } else {
            Ordering::Greater
        }
    } else if a.hour != b.hour {
        if a.hour < b.hour {
            Ordering::Less
        } else {
            Ordering::Greater
        }
    } else if a.minute != b.minute {
        if a.minute < b.minute {
            Ordering::Less
        } else {
            Ordering::Greater
        }
    } else if a.second != b.second {
        if a.second < b.second {
            Ordering::Less
        } else {
            Ordering::Greater
        }
    } else {
        Ordering::Equal
    }
}

pub fn ts_cmp(a: &Timestamp, b: &Timestamp) -> (r: Ordering)
    ensures
        r == spec_ts_cmp(*a, *b),
{
    if a.year != b.year {
        if a.year < b.year {
            Ordering::Less
        } else {
            Ordering::Greater
        }
    } else if a.month != b.month {
        if a.month < b.month {
            Ordering::Less
        } else {
            Ordering::Greater
        }
    } else if a.day != b.day {
        if a.day < b.day {
            Ordering::Less
        } else {
            Ordering::Greater
        }
    } else if a.hour != b.hour {
        if a.hour < b.hour {
            Ordering::Less
        } else {
            Ordering::Greater
        }
    } else if a.minute != b.minute {
        if a.minute < b.minute {
            Ordering::Less
        } else {
            Ordering::Greater
        }
    } else if a.second != b.second {
        if a.second < b.second {
            Ordering::Less
        } else {
            Ordering::Greater
        }
    } else {
        Ordering::Equal
    }
}

/// How two punishments rank: lower priority first; an unexpiring record
/// before an expiring one; otherwise the later expiration first.
pub open spec fn spec_compare(a: PunModel, b: PunModel) -> Ordering {
    if spec_priority(a) != spec_priority(b) {
        if spec_priority(a) < spec_priority(b) {
            Ordering::Less
        } else {
            Ordering::Greater
        }
    } else {
        match (a.expiration_date, b.expiration_date) {
            (None, Some(_)) => Ordering::Less,
            (Some(_), None) => Ordering::Greater,
            (None, None) => Ordering::Equal,
            (Some(ea), Some(eb)) => spec_ts_cmp(eb, ea),
        }
    }
}

/// Orders two punishments by severity, then by how far off expiry lies: of
/// two records of one priority the one that expires later ranks first.
pub fn compare(pun: &Punishment, other: &Punishment) -> (r: Ordering)
    ensures
        r == spec_compare(pun@, other@),
{
    let pa = pun.get_priority();
    let pb = other.get_priority();
    if pa != pb {
        if pa < pb {
            return Ordering::Less;
        }
        return Ordering::Greater;
    }
    match (&pun.expiration_date, &other.expiration_date) {
        (None, Some(_)) => Ordering::Less,
        (Some(_), None) => Ordering::Greater,
        (None, None) => Ordering::Equal,
        (Some(ea), Some(eb)) => ts_cmp(eb, ea),
    }
}

// ---------------------------------------------------------------------------
// Mail
// ---------------------------------------------------------------------------

/// The record tag of a plain message in the inbox blob.
pub const MESSAGE_TAG: u8 = 0;

/// The record tag of a coins grant in the inbox blob.
pub const COINS_TAG: u8 = 1;

/// One entry of a user's inbox: a plain message, or a grant of coins that
/// can be claimed once.
pub enum Mail {
    Message { sender: String, submission_date: Timestamp, message: String, deleted: bool },
    Coins {
        sender: String,
        submission_date: Timestamp,
        message: String,
        deleted: bool,
        coins: u64,
        claimed: bool,
    },
}

/// The mathematical view of a [`Mail`].
#[verifier::ext_equal]
pub ghost enum MailModel {
    Message { sender: Seq<char>, submission_date: Timestamp, message: Seq<char>, deleted: bool },
    Coins {
        sender: Seq<char>,
        submission_date: Timestamp,
        message: Seq<char>,
        deleted: bool,
        coins: u64,
        claimed: bool,
    },
}

impl View for Mail {
    type V = MailModel;

    open spec fn view(&self) -> MailModel {
        match self {
            Mail::Message { sender, submission_date, message, deleted } => MailModel::Message {
                sender: sender@,
                submission_date: *submission_date,
                message: message@,
                deleted: *deleted,
            },
            Mail::Coins { sender, submission_date, message, deleted, coins, claimed } => {
                MailModel::Coins {
                    sender: sender@,
                    submission_date: *submission_date,
                    message: message@,
                    deleted: *deleted,
                    coins: *coins,
                    claimed: *claimed,
                }
            },
        }
    }
}

impl MailModel {
    /// What the inbox codec can carry. Mail text keeps the tighter wire
    /// cap: each inbox record is itself framed by one sixteen-bit length
    /// prefix, which must hold the whole tagged payload.
    pub open spec fn wf(self) -> bool {
        &&& vstd::utf8::encode_utf8(self.sender_of()).len() <= MAX_WIRE_STRING_LEN
        &&& vstd::utf8::encode_utf8(self.message_of()).len() <= MAX_WIRE_STRING_LEN
        &&& self.date_of().wf()
    }
}

impl Mail {
    /// The tag this entry carries in the inbox blob.
    pub fn get_serial_id(&self) -> (r: u8)
        ensures
            r == (if self@ is Message {
                MESSAGE_TAG
            } else {
                COINS_TAG
            }),
    {
        match self {
            Mail::Message { .. } => MESSAGE_TAG,
            Mail::Coins { .. } => COINS_TAG,
        }
    }

    pub fn get_sender(&self) -> (r: &str)
        ensures
            r@ == self@.sender_of(),
    {
        match self {
            Mail::Message { sender, .. } => sender.as_str(),
            Mail::Coins { sender, .. } => sender.as_str(),
        }
    }

    pub fn get_submission_date(&self) -> (r: &Timestamp)
        ensures
            *r == self@.date_of(),
    {
        match self {
            Mail::Message { submission_date, .. } => submission_date,
            Mail::Coins { submission_date, .. } => submission_date,
        }
    }

    pub fn is_deleted(&self) -> (r: bool)
        ensures
            r == self@.deleted_of(),
    {
        match self {
            Mail::Message { deleted, .. } => *deleted,
            Mail::Coins { deleted, .. } => *deleted,
        }
    }
}

impl MailModel {
    pub open spec fn sender_of(self) -> Seq<char> {
        match self {
            MailModel::Message { sender, .. } => sender,
            MailModel::Coins { sender, .. } => sender,
        }
    }

    pub open spec fn date_of(self) -> Timestamp {
        match self {
            MailModel::Message { submission_date, .. } => submission_date,
            MailModel::Coins { submission_date, .. } => submission_date,
        }
    }

    pub open spec fn deleted_of(self) -> bool {
        match self {
            MailModel::Message { deleted, .. } => deleted,
            MailModel::Coins { deleted, .. } => deleted,
        }
    }

    pub open spec fn message_of(self) -> Seq<char> {
        match self {
            MailModel::Message { message, .. } => message,
            MailModel::Coins { message, .. } => message,
        }
    }
}

} // verus!
