//! Per-session login state, filled in step by step as the sign-in chain
//! confirms a player.

use vstd::prelude::*;

verus! {

/// What the login chain has confirmed so far; every field starts unknown.
pub struct MinecraftLoginData {
    uuid: Option<String>,
    access_token: Option<String>,
    refresh_token: Option<String>,
    expires: Option<i32>,
}

impl MinecraftLoginData {
    pub closed spec fn spec_uuid(&self) -> Option<Seq<char>> {
        match self.uuid {
            Some(ref s) => Some(s@),
            None => None,
        }
    }

    pub closed spec fn spec_token(&self) -> Option<Seq<char>> {
        match self.access_token {
            Some(ref s) => Some(s@),
            None => None,
        }
    }

    pub closed spec fn spec_refresh_token(&self) -> Option<Seq<char>> {
        match self.refresh_token {
            Some(ref s) => Some(s@),
            None => None,
        }
    }

    pub closed spec fn spec_expiration(&self) -> Option<i32> {
        self.expires
    }

    pub fn new() -> (r: MinecraftLoginData)
        ensures
            r.spec_uuid() is None,
            r.spec_token() is None,
            r.spec_refresh_token() is None,
            r.spec_expiration() is None,
    {
        MinecraftLoginData { uuid: None, access_token: None, refresh_token: None, expires: None }
    }

    pub fn get_uuid(&self) -> (r: &Option<String>)
        ensures
            match r {
                Some(s) => self.spec_uuid() == Some(s@),
                None => self.spec_uuid() is None,
            },
    {
        &self.uuid
    }

    pub fn get_token(&self) -> (r: &Option<String>)
        ensures
            match r {
                Some(s) => self.spec_token() == Some(s@),
                None => self.spec_token() is None,
            },
    {
        &self.access_token
    }

    pub fn get_refresh_token(&self) -> (r: &Option<String>)
        ensures
            match r {
                Some(s) => self.spec_refresh_token() == Some(s@),
                None => self.spec_refresh_token() is None,
            },
    {
        &self.refresh_token
    }

    pub fn get_expiration(&self) -> (r: &Option<i32>)
        ensures
            *r == self.spec_expiration(),
    {
        &self.expires
    }

    pub fn set_uuid(&mut self, uuid: String)
        ensures
            final(self).spec_uuid() == Some(uuid@),
            final(self).spec_token() == old(self).spec_token(),
            final(self).spec_refresh_token() == old(self).spec_refresh_token(),
            final(self).spec_expiration() == old(self).spec_expiration(),
    {
        self.uuid = Some(uuid);
    }

    pub fn set_token(&mut self, token: String)
        ensures
            final(self).spec_token() == Some(token@),
            final(self).spec_uuid() == old(self).spec_uuid(),
            final(self).spec_refresh_token() == old(self).spec_refresh_token(),
            final(self).spec_expiration() == old(self).spec_expiration(),
    {
        self.access_token = Some(token);
    }

    pub fn set_refresh_token(&mut self, refresh_token: String)
        ensures
            final(self).spec_refresh_token() == Some(refresh_token@),
            final(self).spec_uuid() == old(self).spec_uuid(),
            final(self).spec_token() == old(self).spec_token(),
            final(self).spec_expiration() == old(self).spec_expiration(),
    {
        self.refresh_token = Some(refresh_token);
    }

    pub fn set_expiration(&mut self, expiration: i32)
        ensures
            final(self).spec_expiration() == Some(expiration),
            final(self).spec_uuid() == old(self).spec_uuid(),
            final(self).spec_token() == old(self).spec_token(),
            final(self).spec_refresh_token() == old(self).spec_refresh_token(),
    {
        self.expires = Some(expiration);
    }
}

} // verus!
