//! The account record, its defaults, and the operations that mutate it.

use vstd::prelude::*;

use crate::codec::Timestamp;
use crate::domain::{Group, GroupModel, Mail, MailModel, Permission, PermModel, PmMode, Punishment,
    PunModel};

verus! {

/// A player account as assembled from the store: scalar fields, owned
/// collections, and the resolved permission group.
pub struct User {
    pub uuid: String,
    pub name: String,
    pub email: Option<String>,
    pub chat: bool,
    pub pms: PmMode,
    pub suffix: String,
    pub lang: String,
    pub scoreboard: bool,
    pub coins: u64,
    pub friend_reqs: bool,
    pub created_at: Timestamp,
    pub friends: Vec<String>,
    pub ignores: Vec<String>,
    pub inbox: Vec<Mail>,
    pub punishments: Vec<Punishment>,
    pub perms: Vec<Permission>,
    pub group: Option<Group>,
}

/// The mathematical view of a [`User`].
#[verifier::ext_equal]
pub ghost struct UserModel {
    pub uuid: Seq<char>,
    pub name: Seq<char>,
    pub email: Option<Seq<char>>,
    pub chat: bool,
    pub pms: PmMode,
    pub suffix: Seq<char>,
    pub lang: Seq<char>,
    pub scoreboard: bool,
    pub coins: u64,
    pub friend_reqs: bool,
    pub created_at: Timestamp,
    pub friends: Seq<Seq<char>>,
    pub ignores: Seq<Seq<char>>,
    pub inbox: Seq<MailModel>,
    pub punishments: Seq<PunModel>,
    pub perms: Seq<PermModel>,
    pub group: Option<GroupModel>,
}

impl View for User {
    type V = UserModel;

    open spec fn view(&self) -> UserModel {
        UserModel {
            uuid: self.uuid@,
            name: self.name@,
            email: match self.email {
                Some(ref e) => Some(e@),
                None => None,
            },
            chat: self.chat,
            pms: self.pms,
            suffix: self.suffix@,
            lang: self.lang@,
            scoreboard: self.scoreboard,
            coins: self.coins,
            friend_reqs: self.friend_reqs,
            created_at: self.created_at,
            friends: self.friends@.map_values(|s: String| s@),
            ignores: self.ignores@.map_values(|s: String| s@),
            inbox: self.inbox@.map_values(|m: Mail| m@),
            punishments: self.punishments@.map_values(|p: Punishment| p@),
            perms: self.perms@.map_values(|p: Permission| p@),
            group: match self.group {
                Some(ref g) => Some(g@),
                None => None,
            },
        }
    }
}

impl User {
    /// A fresh account: chat on, messages enabled, scoreboard visible,
    /// friend requests allowed, no coins, language `"en"`, empty
    /// collections, and the group the caller resolved (the configured
    /// default, if any).
    pub fn new_default(uuid: &str, name: &str, created_at: Timestamp, group: Option<Group>) -> (r:
        User)
        ensures
            r@.uuid == uuid@,
            r@.name == name@,
            r@.email is None,
            r@.chat,
            r@.pms == PmMode::Enabled,
            r@.suffix =~= Seq::<char>::empty(),
            r@.lang == "en"@,
            r@.scoreboard,
            r@.coins == 0,
            r@.friend_reqs,
            r@.created_at == created_at,
            r@.friends =~= Seq::<Seq<char>>::empty(),
            r@.ignores =~= Seq::<Seq<char>>::empty(),
            r@.inbox =~= Seq::<MailModel>::empty(),
            r@.punishments =~= Seq::<PunModel>::empty(),
            r@.perms =~= Seq::<PermModel>::empty(),
            r@.group == match group {
                Some(g) => Some(g@),
                None => None::<GroupModel>,
            },
    {
        proof {
            reveal_strlit("");
        }
        User {
            uuid: uuid.to_owned(),
            name: name.to_owned(),
            email: None,
            chat: true,
            pms: PmMode::Enabled,
            suffix: String::new(),
            lang: "en".to_owned(),
            scoreboard: true,
            coins: 0,
            friend_reqs: true,
            created_at,
            friends: Vec::new(),
            ignores: Vec::new(),
            inbox: Vec::new(),
            punishments: Vec::new(),
            perms: Vec::new(),
            group,
        }
    }

    pub fn get_coins(&self) -> (r: &u64)
        ensures
            *r == self.coins,
    {
        &self.coins
    }

    pub fn set_name(&mut self, name: String)
        ensures
            *final(self) == (User { name, ..*old(self) }),
    {
        self.name = name;
    }

    pub fn set_email(&mut self, email: Option<String>)
        ensures
            *final(self) == (User { email, ..*old(self) }),
    {
        self.email = email;
    }

    pub fn set_chat_enabled(&mut self, chat: bool)
        ensures
            *final(self) == (User { chat, ..*old(self) }),
    {
        self.chat = chat;
    }

    pub fn set_dms_enabled(&mut self, dms: PmMode)
        ensures
            *final(self) == (User { pms: dms, ..*old(self) }),
    {
        self.pms = dms;
    }

    pub fn set_suffix(&mut self, suffix: String)
        ensures
            *final(self) == (User { suffix, ..*old(self) }),
    {
        self.suffix = suffix;
    }

    pub fn set_lang(&mut self, lang: &str)
        ensures
            final(self)@ == (UserModel { lang: lang@, ..old(self)@ }),
    {
        self.lang = lang.to_owned();
    }

    pub fn set_friend_reqs(&mut self, friend_reqs: bool)
        ensures
            *final(self) == (User { friend_reqs, ..*old(self) }),
    {
        self.friend_reqs = friend_reqs;
    }

    pub fn set_coins(&mut self, coins: u64)
        ensures
            *final(self) == (User { coins, ..*old(self) }),
    {
        self.coins = coins;
    }
}

impl Mail {
    /// Whether a coins grant has already been paid out. A plain message is
    /// never claimable.
    pub fn is_claimed(&self) -> (r: bool)
        ensures
            r == (self@ matches MailModel::Coins { claimed, .. } && claimed),
    {
        match self {
            Mail::Coins { claimed, .. } => *claimed,
            Mail::Message { .. } => false,
        }
    }

    /// Pays an unclaimed coins grant into `user` and marks it claimed; a
    /// second claim, or a claim on a plain message, changes nothing.
    pub fn claim(&mut self, user: &mut User)
        requires
            (old(self)@ matches MailModel::Coins { claimed: false, coins, .. } ==> old(
                user,
            ).coins + coins <= u64::MAX),
        ensures
            match old(self)@ {
                MailModel::Coins { claimed: false, coins, sender, submission_date, message, deleted } => {
                    &&& final(user)@ == (UserModel {
                        coins: (old(user).coins + coins) as u64,
                        ..old(user)@
                    })
                    &&& final(self)@ == (MailModel::Coins {
                        claimed: true,
                        coins,
                        sender,
                        submission_date,
                        message,
                        deleted,
                    })
                },
                _ => final(self)@ == old(self)@ && final(user)@ == old(user)@,
            },
    {
        match self {
            Mail::Coins { claimed, coins, .. } => {
                if !*claimed {
                    user.coins = user.coins + *coins;
                    *claimed = true;
                }
            },
            Mail::Message { .. } => {},
        }
    }
}

} // verus!
