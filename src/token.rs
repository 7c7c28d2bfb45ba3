use vstd::prelude::*;

verus! {

/// The answer of the token endpoint.
#[derive(Default, Debug, Clone, PartialEq)]
pub struct TokenResponse {
    pub token_type: String,
    /// Seconds for which the token is valid from the time it is issued.
    pub expires_in: u64,
    pub access_token: String,
}

/// The body of a client-credentials token request.
#[derive(Default, Debug, Clone, PartialEq)]
pub struct AuthData<'a> {
    pub grant_type: &'a str,
    pub client_id: &'a str,
    pub client_secret: &'a str,
}

/// The process-wide state: the request counter, the client credentials, and
/// the current bearer token with its expiry in seconds since the epoch. The
/// token and its expiry change together, in `apply_token_response` only.
pub struct State {
    pub requests: u32,
    pub access_token: String,
    pub access_token_expiration: u64,
    pub client_id: String,
    pub client_secret: String,
}

/// A token is due for refresh once `now` has reached its expiry.
pub open spec fn refresh_due(s: State, now: u64) -> bool {
    now >= s.access_token_expiration
}

/// The expiry of a token issued at `now` for `expires_in` seconds, held at
/// the largest time that fits.
pub open spec fn expiry_after(now: u64, expires_in: u64) -> u64 {
    if now + expires_in > u64::MAX {
        u64::MAX
    } else {
        (now + expires_in) as u64
    }
}

/// The state after the token endpoint answered `resp` to a request made at `now`.
pub open spec fn refreshed(s: State, now: u64, resp: TokenResponse) -> State {
    State {
        access_token: resp.access_token,
        access_token_expiration: expiry_after(now, resp.expires_in),
        ..s
    }
}

/// Once a refresh at `t1` has stored a token, a second call at any `t2` before
/// `t1 + expires_in` finds it valid and asks for none; a call at or after the
/// expiry asks for one. So two calls within the validity window make exactly
/// one token request.
pub proof fn lemma_one_refresh_per_window(s: State, t1: u64, resp: TokenResponse, t2: u64)
    requires
        t1 + resp.expires_in <= u64::MAX,
        t1 <= t2,
    ensures
        refreshed(s, t1, resp).access_token_expiration == t1 + resp.expires_in,
        refresh_due(refreshed(s, t1, resp), t2) <==> t2 >= t1 + resp.expires_in,
{
}

impl State {
    /// A state with no token yet: its expiry is 0, so the first use refreshes.
    pub fn new(client_id: String, client_secret: String) -> (r: State)
        ensures
            r.requests == 0,
            r.access_token@ == Seq::<char>::empty(),
            r.access_token_expiration == 0,
            r.client_id == client_id,
            r.client_secret == client_secret,
    {
        State {
            requests: 0,
            access_token: String::new(),
            access_token_expiration: 0,
            client_id,
            client_secret,
        }
    }

    /// Counts one more request, staying at the largest count once it is reached.
    pub fn count_request(&mut self)
        ensures
            final(self).requests == if old(self).requests == u32::MAX {
                u32::MAX
            } else {
                (old(self).requests + 1) as u32
            },
            final(self).access_token == old(self).access_token,
            final(self).access_token_expiration == old(self).access_token_expiration,
            final(self).client_id == old(self).client_id,
            final(self).client_secret == old(self).client_secret,
    {
        self.requests = self.requests.saturating_add(1);
    }

    /// Whether the stored token must be refreshed before a request at `now`.
    pub fn needs_refresh(&self, now: u64) -> (r: bool)
        ensures
            r == refresh_due(*self, now),
    {
        now >= self.access_token_expiration
    }

    /// The body of the token request, made from the stored credentials.
    pub fn auth_data(&self) -> (r: AuthData<'_>)
        ensures
            r.grant_type@ == "client_credentials"@,
            r.client_id@ == self.client_id@,
            r.client_secret@ == self.client_secret@,
    {
        AuthData {
            grant_type: "client_credentials",
            client_id: self.client_id.as_str(),
            client_secret: self.client_secret.as_str(),
        }
    }

    /// Stores the token that the endpoint answered to a request made at `now`,
    /// together with its expiry, `now + expires_in`.
    pub fn apply_token_response(&mut self, now: u64, response: TokenResponse)
        ensures
            *final(self) == refreshed(*old(self), now, response),
    {
        self.access_token_expiration = now.saturating_add(response.expires_in);
        self.access_token = response.access_token;
    }

    /// The bearer token for requests made while it is valid.
    pub fn bearer_token(&self) -> (r: &String)
        ensures
            *r == self.access_token,
    {
        &self.access_token
    }
}

} // verus!
