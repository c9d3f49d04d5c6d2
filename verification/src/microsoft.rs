//! Token and credential holders for the third-party identity and
//! entitlement chain. The chain itself is an external collaborator; these
//! types only carry what it hands back.

use vstd::prelude::*;

verus! {

/// Where a browser sign-in attempt stands.
pub struct SigninState {
    auth: bool,
    code: Option<String>,
}

impl SigninState {
    pub closed spec fn spec_auth(&self) -> bool {
        self.auth
    }

    pub closed spec fn spec_code(&self) -> Option<Seq<char>> {
        match self.code {
            Some(ref c) => Some(c@),
            None => None,
        }
    }

    pub fn new() -> (r: Self)
        ensures
            !r.spec_auth(),
            r.spec_code() is None,
    {
        SigninState { auth: false, code: None }
    }

    pub fn is_authenticated(&self) -> (r: bool)
        ensures
            r == self.spec_auth(),
    {
        self.auth
    }

    pub fn get_code(&self) -> (r: &Option<String>)
        ensures
            match r {
                Some(c) => self.spec_code() == Some(c@),
                None => self.spec_code() is None,
            },
    {
        &self.code
    }

    pub fn set_code(&mut self, code: &str)
        ensures
            final(self).spec_code() == Some(code@),
            final(self).spec_auth() == old(self).spec_auth(),
    {
        self.code = Some(code.to_owned());
    }

    pub fn set_authenticated(&mut self, auth: bool)
        ensures
            final(self).spec_auth() == auth,
            final(self).spec_code() == old(self).spec_code(),
    {
        self.auth = auth;
    }
}

/// The game profile the entitlement service confirmed.
pub struct MinecraftData {
    pub uuid: String,
    pub token: String,
    pub expires: i64,
}

impl MinecraftData {
    pub fn new(uuid: &str, token: &str, expires: i64) -> (r: Self)
        ensures
            r.uuid@ == uuid@,
            r.token@ == token@,
            r.expires == expires,
    {
        MinecraftData { uuid: uuid.to_owned(), token: token.to_owned(), expires }
    }

    pub fn get_uuid(&self) -> (r: &String)
        ensures
            r@ == self.uuid@,
    {
        &self.uuid
    }

    pub fn get_token(&self) -> (r: &String)
        ensures
            r@ == self.token@,
    {
        &self.token
    }

    pub fn get_expiration(&self) -> (r: &i64)
        ensures
            *r == self.expires,
    {
        &self.expires
    }
}

/// The console-network token pair.
pub struct XboxLiveTokensData {
    pub token: String,
    pub uhs: String,
}

impl XboxLiveTokensData {
    pub fn new(token: String, uhs: String) -> (r: Self)
        ensures
            r.token@ == token@,
            r.uhs@ == uhs@,
    {
        XboxLiveTokensData { token, uhs }
    }

    pub fn get_token(&self) -> (r: &String)
        ensures
            r@ == self.token@,
    {
        &self.token
    }

    pub fn get_uhs(&self) -> (r: &String)
        ensures
            r@ == self.uhs@,
    {
        &self.uhs
    }
}

/// The identity provider's access and refresh tokens.
pub struct MicrosoftTokens {
    pub access_token: String,
    pub refresh_token: String,
    pub expires: i64,
}

impl MicrosoftTokens {
    pub fn new(access_token: String, refresh_token: String, expiration: i64) -> (r: Self)
        ensures
            r.access_token@ == access_token@,
            r.refresh_token@ == refresh_token@,
            r.expires == expiration,
    {
        MicrosoftTokens { access_token, refresh_token, expires: expiration }
    }

    pub fn get_token(&self) -> (r: &String)
        ensures
            r@ == self.access_token@,
    {
        &self.access_token
    }

    pub fn get_refresh_token(&self) -> (r: &String)
        ensures
            r@ == self.refresh_token@,
    {
        &self.refresh_token
    }

    pub fn get_expiration(&self) -> (r: &i64)
        ensures
            *r == self.expires,
    {
        &self.expires
    }

    pub fn set_token(&mut self, token: String)
        ensures
            *final(self) == (MicrosoftTokens { access_token: token, ..*old(self) }),
    {
        self.access_token = token;
    }

    pub fn set_refresh_token(&mut self, refresh_token: String)
        ensures
            *final(self) == (MicrosoftTokens { refresh_token, ..*old(self) }),
    {
        self.refresh_token = refresh_token;
    }

    pub fn set_expiration(&mut self, expiration: i64)
        ensures
            *final(self) == (MicrosoftTokens { expires: expiration, ..*old(self) }),
    {
        self.expires = expiration;
    }
}

/// A signed-in player's full credential set.
pub struct UserCredentials {
    pub uuid: String,
    pub mc_token: String,
    pub access_token: String,
    pub refresh_token: String,
    pub expires: i64,
}

impl UserCredentials {
    pub fn new(
        uuid: String,
        mc_token: String,
        access_token: String,
        refresh_token: String,
        expiration: i64,
    ) -> (r: UserCredentials)
        ensures
            r.uuid@ == uuid@,
            r.mc_token@ == mc_token@,
            r.access_token@ == access_token@,
            r.refresh_token@ == refresh_token@,
            r.expires == expiration,
    {
        UserCredentials { uuid, mc_token, access_token, refresh_token, expires: expiration }
    }

    pub fn get_uuid(&self) -> (r: &String)
        ensures
            r@ == self.uuid@,
    {
        &self.uuid
    }

    pub fn get_token(&self) -> (r: &String)
        ensures
            r@ == self.access_token@,
    {
        &self.access_token
    }

    pub fn get_refresh_token(&self) -> (r: &String)
        ensures
            r@ == self.refresh_token@,
    {
        &self.refresh_token
    }

    pub fn get_expiration(&self) -> (r: &i64)
        ensures
            *r == self.expires,
    {
        &self.expires
    }

    pub fn set_uuid(&mut self, uuid: String)
        ensures
            *final(self) == (UserCredentials { uuid, ..*old(self) }),
    {
        self.uuid = uuid;
    }

    pub fn set_token(&mut self, token: String)
        ensures
            *final(self) == (UserCredentials { access_token: token, ..*old(self) }),
    {
        self.access_token = token;
    }

    pub fn set_refresh_token(&mut self, refresh_token: String)
        ensures
            *final(self) == (UserCredentials { refresh_token, ..*old(self) }),
    {
        self.refresh_token = refresh_token;
    }

    pub fn set_expiration(&mut self, expiration: i64)
        ensures
            *final(self) == (UserCredentials { expires: expiration, ..*old(self) }),
    {
        self.expires = expiration;
    }
}

} // verus!
