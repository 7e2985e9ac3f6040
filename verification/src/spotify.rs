//! The Spotify client's bookkeeping: credentials, the cached access token
//! and its expiry, the refresh decision, the basic-authorization value of
//! the token request, and how a token answer and the player answer are read.
//! The HTTP requests themselves happen outside the library.
use crate::encode::spec_base64;
use crate::strutil::ascii_chars_of;
use vstd::prelude::*;
use vstd::string::StringSliceAdditionalSpecFns;
use vstd::utf8::encode_utf8;

verus! {

/// Sum, capped at the largest value.
pub open spec fn sat_add_u64(a: u64, b: u64) -> u64 {
    if a + b > u64::MAX {
        u64::MAX
    } else {
        (a + b) as u64
    }
}

/// Product, capped at the largest value.
pub open spec fn sat_mul_u64(a: u64, b: u64) -> u64 {
    if a * b > u64::MAX {
        u64::MAX
    } else {
        (a * b) as u64
    }
}

/// The client of the player API: fixed credentials and the short-lived
/// access token last obtained, with its expiry instant in milliseconds.
pub struct SpotifyAPI {
    pub client_id: String,
    pub client_secret: String,
    pub refresh_token: String,
    pub access_token: Option<String>,
    pub token_expiry: Option<u64>,
}

impl SpotifyAPI {
    /// An expiry is only ever recorded together with a token.
    pub open spec fn wf(&self) -> bool {
        self.token_expiry is Some ==> self.access_token is Some
    }

    /// Whether the cached token is missing or past its expiry at `now`.
    pub open spec fn spec_needs_refresh(&self, now: u64) -> bool {
        match self.token_expiry {
            Some(e) => now >= e,
            None => true,
        }
    }

    /// A client that has not fetched a token yet. The credentials come from
    /// the process environment, which the caller reads.
    pub fn new(client_id: String, client_secret: String, refresh_token: String) -> (r: Self)
        ensures
            r.client_id == client_id,
            r.client_secret == client_secret,
            r.refresh_token == refresh_token,
            r.access_token is None,
            r.token_expiry is None,
            r.wf(),
    {
        SpotifyAPI { client_id, client_secret, refresh_token, access_token: None, token_expiry: None }
    }

    /// Whether a token refresh must run before the next API call.
    pub fn needs_refresh(&self, now: u64) -> (r: bool)
        ensures
            r == self.spec_needs_refresh(now),
    {
        match &self.token_expiry {
            Some(e) => now >= *e,
            None => true,
        }
    }

    /// The value of the authorization header the token request carries:
    /// `Basic` and the base64 of `client_id:client_secret`.
    pub fn basic_auth_value(&self) -> (r: String)
        ensures
            r@ == "Basic "@ + ascii_chars_of(
                spec_base64(encode_utf8(self.client_id@ + ":"@ + self.client_secret@)),
            ),
    {
        let mut creds = self.client_id.clone();
        creds.append(":");
        creds.append(self.client_secret.as_str());
        let encoded = crate::encode::base64_encode(creds.as_str());
        let mut out = String::new();
        out.append("Basic ");
        out.append(encoded.as_str());
        proof {
            assert(creds@ =~= self.client_id@ + ":"@ + self.client_secret@);
            assert(out@ =~= "Basic "@ + ascii_chars_of(
                spec_base64(encode_utf8(self.client_id@ + ":"@ + self.client_secret@)),
            ));
        }
        out
    }

    /// Records what a token answer held: a token makes it the current one,
    /// expiring `expires_in` seconds from `now`, an hour when the answer
    /// names no lifetime, and a missing token is the error, leaving the
    /// cached one untouched.
    pub fn apply_token_response(
        &mut self,
        token: Option<String>,
        expires_in: Option<u64>,
        now: u64,
    ) -> (r: Result<(), ()>)
        ensures
            match token {
                Some(t) => {
                    &&& r is Ok
                    &&& final(self).access_token == Some(t)
                    &&& final(self).token_expiry == Some(
                        sat_add_u64(
                            now,
                            sat_mul_u64(
                                match expires_in {
                                    Some(e) => e,
                                    None => 3600,
                                },
                                1000,
                            ),
                        ),
                    )
                },
                None => r is Err && *final(self) == *old(self),
            },
            final(self).client_id == old(self).client_id,
            final(self).client_secret == old(self).client_secret,
            final(self).refresh_token == old(self).refresh_token,
            old(self).wf() ==> final(self).wf(),
    {
        match token {
            Some(t) => {
                let secs = match expires_in {
                    Some(e) => e,
                    None => 3600,
                };
                let millis = if secs > u64::MAX / 1000 {
                    u64::MAX
                } else {
                    secs * 1000
                };
                let expiry = if now > u64::MAX - millis {
                    u64::MAX
                } else {
                    now + millis
                };
                proof {
                    assert(millis == sat_mul_u64(secs, 1000)) by (nonlinear_arith)
                        requires
                            millis == if secs > u64::MAX / 1000 {
                                u64::MAX
                            } else {
                                (secs * 1000) as u64
                            },
                    ;
                }
                self.access_token = Some(t);
                self.token_expiry = Some(expiry);
                Ok(())
            },
            None => Err(()),
        }
    }

    /// Reads a token answer and records it: the `access_token` field is the
    /// token, the `expires_in` field its lifetime in seconds. The document
    /// is opaque; what is recorded for each pair of extracted fields is the
    /// contract of [`Self::apply_token_response`].
    pub fn ingest_token_response(&mut self, doc: &serde_json::Value, now: u64) -> (r: Result<
        (),
        (),
    >)
        ensures
            r is Err ==> *final(self) == *old(self),
            r is Ok ==> final(self).access_token is Some && final(self).token_expiry is Some,
            final(self).client_id == old(self).client_id,
            final(self).client_secret == old(self).client_secret,
            final(self).refresh_token == old(self).refresh_token,
            old(self).wf() ==> final(self).wf(),
    {
        let token = crate::jsonval::json_str_field(doc, "access_token");
        let expires_in = crate::jsonval::json_u64_field(doc, "expires_in");
        self.apply_token_response(token, expires_in, now)
    }

    /// The token an API call at `now` may use: the cached one while it has
    /// not expired. When this is absent the caller must run a refresh and
    /// record its answer first.
    pub fn current_token(&self, now: u64) -> (r: Option<&String>)
        requires
            self.wf(),
        ensures
            self.spec_needs_refresh(now) ==> r is None,
            !self.spec_needs_refresh(now) ==> (r matches Some(t) && Some(*t)
                == self.access_token),
    {
        if self.needs_refresh(now) {
            None
        } else {
            match &self.access_token {
                Some(t) => Some(t),
                None => None,
            }
        }
    }
}

/// The words of the player answer, as the widget shows them: the fixed line
/// unless something is playing, else the track's name and the artists
/// joined with commas.
pub fn player_message(is_playing: bool, name: Option<String>, artists: Vec<String>) -> (r: String)
    ensures
        !is_playing ==> r@ == crate::lastfm::spec_nothing_playing(),
        is_playing ==> r@ == crate::lastfm::spec_now_playing_line(
            match name {
                Some(n) => n@,
                None => "No Track"@,
            },
            spec_joined(artists.deep_view()),
        ),
{
    if !is_playing {
        return crate::lastfm::format_now_playing(None);
    }
    let joined = join_comma(&artists);
    let n = match name {
        Some(n) => n,
        None => {
            let mut s = String::new();
            s.append("No Track");
            proof {
                assert(s@ =~= "No Track"@);
            }
            s
        },
    };
    crate::lastfm::format_now_playing(Some((n, joined)))
}

/// Reads the player answer: whether something is playing, the track's
/// name, and the artist names, then words the message. The document is
/// opaque; what the message says for each set of extracted values is the
/// contract of [`player_message`].
pub fn player_message_from_doc(doc: &serde_json::Value) -> String {
    let is_playing = crate::jsonval::json_bool_field(doc, "is_playing");
    let item = crate::jsonval::json_get(doc, "item");
    let name = match item {
        Some(i) => crate::jsonval::json_str_field(i, "name"),
        None => None,
    };
    let mut artists: Vec<String> = Vec::new();
    if let Some(i) = item {
        if let Some(list) = crate::jsonval::json_get(i, "artists") {
            let len = match crate::jsonval::json_array_len(list) {
                Some(l) => l,
                None => 0,
            };
            let mut k: usize = 0;
            while k < len
                decreases len - k,
            {
                match crate::jsonval::json_at(list, k) {
                    Some(entry) => match crate::jsonval::json_str_field(entry, "name") {
                        Some(artist) => artists.push(artist),
                        None => (),
                    },
                    None => (),
                }
                k += 1;
            }
        }
    }
    player_message(is_playing, name, artists)
}

/// Names joined with a comma and a space.
pub open spec fn spec_joined(names: Seq<Seq<char>>) -> Seq<char>
    decreases names.len(),
{
    if names.len() == 0 {
        Seq::empty()
    } else if names.len() == 1 {
        names[0]
    } else {
        names[0] + ", "@ + spec_joined(names.drop_first())
    }
}

/// Joins names with a comma and a space.
pub fn join_comma(names: &Vec<String>) -> (r: String)
    ensures
        r@ == spec_joined(names.deep_view()),
{
    let n: usize = names.len();
    let mut out = String::new();
    if n == 0 {
        proof {
            assert(out@ =~= spec_joined(names.deep_view()));
        }
        return out;
    }
    let mut i: usize = 0;
    proof {
        assert(names.deep_view().skip(0) =~= names.deep_view());
        assert(out@ + spec_joined(names.deep_view()) =~= spec_joined(names.deep_view()));
    }
    while i < n
        invariant
            0 <= i <= n,
            n == names@.len() > 0,
            i < n ==> out@ + spec_joined(names.deep_view().skip(i as int)) == spec_joined(
                names.deep_view(),
            ),
            i == n ==> out@ == spec_joined(names.deep_view()),
        decreases n - i,
    {
        let ghost rest = names.deep_view().skip(i as int);
        proof {
            assert(rest[0] == names@[i as int]@);
            assert(rest.drop_first() =~= names.deep_view().skip(i as int + 1));
        }
        out.append(names[i].as_str());
        if i + 1 < n {
            out.append(", ");
            proof {
                assert(rest.len() >= 2);
                assert(spec_joined(rest) == rest[0] + ", "@ + spec_joined(rest.drop_first()));
                assert(out@ + spec_joined(names.deep_view().skip(i as int + 1)) =~= spec_joined(
                    names.deep_view(),
                ));
            }
        } else {
            proof {
                assert(rest.len() == 1);
                assert(spec_joined(rest) == rest[0]);
                assert(out@ =~= spec_joined(names.deep_view()));
            }
        }
        i += 1;
    }
    out
}

} // verus!
