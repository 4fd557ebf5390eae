//! Account handling: registration, login, and the session records they
//! leave behind. The password itself is never stored; bcrypt turns it into
//! a digest on registration and checks it on login, both behind the
//! trusted wrappers of [`crate::external`].

use vstd::prelude::*;

use crate::external::bcrypt_verdict;
use crate::external::fresh_id;
use crate::external::hash_password;
use crate::external::verify_password;
use crate::model::ApiError;
use crate::model::LoginRequest;
use crate::model::LoginResponse;
use crate::model::RegisterRequest;
use crate::model::RegisterResponse;
use crate::model::SessionKey;
use crate::model::UserId;
use crate::store::Platform;
use crate::store::PlatformView;
use crate::store::SessionRecord;
use crate::store::UserRecord;
use crate::store::UserView;
use crate::store::lemma_session_map_push;
use crate::store::lemma_session_map_update;
use crate::store::lemma_user_map_absent;
use crate::store::lemma_user_map_index;
use crate::store::lemma_user_map_push;
use crate::store::lemma_user_map_to_index;
use crate::text::str_eq;

verus! {

/// Whether a registration email passes: it carries an `@` and fits the
/// length bound, counted in characters.
pub open spec fn spec_email_ok(e: Seq<char>) -> bool {
    (exists|k: int| 0 <= k < e.len() && e[k] == '@') && e.len() <= 320
}

/// Whether `c` is an ASCII letter or digit. Registration names are held to
/// this alphabet.
pub open spec fn is_ascii_alnum(c: char) -> bool {
    (48 <= c as u32 <= 57) || (65 <= c as u32 <= 90) || (97 <= c as u32 <= 122)
}

/// Whether a registration name passes: ASCII letters and digits only, and
/// it fits the length bound.
pub open spec fn spec_name_ok(n: Seq<char>) -> bool {
    (forall|k: int| 0 <= k < n.len() ==> is_ascii_alnum(#[trigger] n[k])) && n.len() <= 32
}

/// Whether some registered user already holds this name or this email.
pub open spec fn spec_identity_taken(
    users: Map<u128, UserView>,
    name: Seq<char>,
    email: Seq<char>,
) -> bool {
    exists|id: u128|
        #![auto]
        users.contains_key(id) && (users[id].name == name || users[id].email == email)
}

/// Whether `x` names this user for login: it is their name or their email.
pub open spec fn login_matches(u: UserView, x: Seq<char>) -> bool {
    u.name == x || u.email == x
}

/// Whether `c` occurs in `s`.
fn contains_char(s: &str, c: char) -> (r: bool)
    ensures
        r == exists|k: int| 0 <= k < s@.len() && s@[k] == c,
{
    let n = s.unicode_len();
    let mut i: usize = 0;
    while i < n
        invariant
            0 <= i <= n == s@.len(),
            forall|k: int| 0 <= k < i ==> s@[k] != c,
        decreases n - i,
    {
        if s.get_char(i) == c {
            return true;
        }
        i = i + 1;
    }
    false
}

/// Whether every character of `s` is an ASCII letter or digit.
fn all_ascii_alnum(s: &str) -> (r: bool)
    ensures
        r == forall|k: int| 0 <= k < s@.len() ==> is_ascii_alnum(#[trigger] s@[k]),
{
    let n = s.unicode_len();
    let mut i: usize = 0;
    while i < n
        invariant
            0 <= i <= n == s@.len(),
            forall|k: int| 0 <= k < i ==> is_ascii_alnum(#[trigger] s@[k]),
        decreases n - i,
    {
        let cv = s.get_char(i) as u32;
        if !((48 <= cv && cv <= 57) || (65 <= cv && cv <= 90) || (97 <= cv && cv <= 122)) {
            return false;
        }
        i = i + 1;
    }
    true
}

impl Platform {
    /// Records a session: the token now stands for this user, replacing
    /// whatever it stood for before.
    pub(crate) fn put_session(&mut self, key: SessionKey, user: UserId)
        requires
            old(self).wf(),
        ensures
            final(self).wf(),
            crate::store::published_monotone(old(self)@.quests, final(self)@.quests),
            final(self)@ == (PlatformView {
                sessions: old(self)@.sessions.insert(key.0, user),
                ..old(self)@
            }),
    {
        let record = SessionRecord { token: key, user_id: user };
        let ghost pre = self.sessions@;
        let mut i: usize = 0;
        while i < self.sessions.len()
            invariant
                self.wf(),
                self.users == old(self).users,
                self.quests == old(self).quests,
                self.progress == old(self).progress,
                self.sessions@ == old(self).sessions@,
                pre == self.sessions@,
                record == (SessionRecord { token: key, user_id: user }),
                0 <= i <= self.sessions@.len(),
                forall|j: int| 0 <= j < i ==> self.sessions@[j].token.0 != key.0,
            decreases self.sessions@.len() - i,
        {
            if self.sessions[i].token.0 == key.0 {
                proof {
                    assert(pre[i as int].token == key);
                    lemma_session_map_update(pre, i as int, record);
                }
                self.sessions.set(i, record);
                return ;
            }
            i = i + 1;
        }
        proof {
            lemma_session_map_push(pre, record);
        }
        self.sessions.push(record);
        proof {
            assert forall|a: int, b: int|
                0 <= a < b < self.sessions@.len() implies self.sessions@[a].token.0
                != self.sessions@[b].token.0 by {}
        }
    }

    /// Finds the list slot of a user, tying it to the map view.
    pub(crate) fn find_user_index(&self, id: UserId) -> (r: Option<usize>)
        requires
            self.wf(),
        ensures
            match r {
                Some(k) => k < self.users@.len() && self.users@[k as int].id == id
                    && self@.users.contains_key(id.0) && self@.users[id.0]
                    == self.users@[k as int]@,
                None => !self@.users.contains_key(id.0),
            },
    {
        let mut i: usize = 0;
        while i < self.users.len()
            invariant
                self.wf(),
                0 <= i <= self.users@.len(),
                forall|j: int| 0 <= j < i ==> self.users@[j].id.0 != id.0,
            decreases self.users@.len() - i,
        {
            if self.users[i].id.0 == id.0 {
                proof {
                    lemma_user_map_index(self.users@, i as int);
                }
                return Some(i);
            }
            i = i + 1;
        }
        proof {
            lemma_user_map_absent(self.users@, id.0);
        }
        None
    }

    /// Screens a registration request: the email must carry an `@` and fit
    /// 320 characters, the name must be ASCII alphanumeric and fit 32, and
    /// neither may already be registered. The answer says exactly which
    /// check failed first, or that all passed.
    fn registration_gate(&self, payload: &RegisterRequest) -> (r: Option<ApiError>)
        requires
            self.wf(),
        ensures
            r == (if !spec_email_ok(payload.email@) {
                Some(ApiError::InvalidEmail)
            } else if !spec_name_ok(payload.name@) {
                Some(ApiError::InvalidName)
            } else if spec_identity_taken(self@.users, payload.name@, payload.email@) {
                Some(ApiError::NameInUse)
            } else {
                None
            }),
    {
        if !contains_char(payload.email.as_str(), '@') || payload.email.as_str().unicode_len()
            > 320 {
            return Some(ApiError::InvalidEmail);
        }
        if !all_ascii_alnum(payload.name.as_str()) || payload.name.as_str().unicode_len() > 32 {
            return Some(ApiError::InvalidName);
        }
        let mut i: usize = 0;
        while i < self.users.len()
            invariant
                self.wf(),
                spec_email_ok(payload.email@),
                spec_name_ok(payload.name@),
                0 <= i <= self.users@.len(),
                forall|j: int|
                    0 <= j < i ==> self.users@[j].name@ != payload.name@
                        && self.users@[j].email@ != payload.email@,
            decreases self.users@.len() - i,
        {
            if str_eq(self.users[i].name.as_str(), payload.name.as_str()) || str_eq(
                self.users[i].email.as_str(),
                payload.email.as_str(),
            ) {
                proof {
                    lemma_user_map_index(self.users@, i as int);
                }
                return Some(ApiError::NameInUse);
            }
            i = i + 1;
        }
        proof {
            if spec_identity_taken(self@.users, payload.name@, payload.email@) {
                let id = choose|id: u128|
                    #![auto]
                    self@.users.contains_key(id) && (self@.users[id].name == payload.name@
                        || self@.users[id].email == payload.email@);
                lemma_user_map_to_index(self.users@, id);
            }
        }
        None
    }

    /// Completes a registration from already-drawn material: the password
    /// digest, the new user's identifier, and the session token. A request
    /// that passes the screening with an identifier not yet in use always
    /// succeeds, and the new account and session hold exactly the three
    /// arguments. An identifier collision is refused the way a storage key
    /// conflict would surface.
    pub fn register_with(
        &mut self,
        payload: &RegisterRequest,
        digest: &str,
        new_id: u128,
        token: u128,
    ) -> (r: Result<(RegisterResponse, SessionKey), ApiError>)
        requires
            old(self).wf(),
        ensures
            final(self).wf(),
            crate::store::published_monotone(old(self)@.quests, final(self)@.quests),
            r == (if !spec_email_ok(payload.email@) {
                Err::<(RegisterResponse, SessionKey), ApiError>(ApiError::InvalidEmail)
            } else if !spec_name_ok(payload.name@) {
                Err(ApiError::InvalidName)
            } else if spec_identity_taken(old(self)@.users, payload.name@, payload.email@) {
                Err(ApiError::NameInUse)
            } else if old(self)@.users.contains_key(new_id) {
                Err(ApiError::InternalError)
            } else {
                Ok((RegisterResponse { id: UserId(new_id) }, SessionKey(token)))
            }),
            r is Err ==> final(self)@ == old(self)@,
            r is Ok ==> final(self)@ == (PlatformView {
                users: old(self)@.users.insert(
                    new_id,
                    UserView {
                        name: payload.name@,
                        email: payload.email@,
                        pass_digest: digest@,
                    },
                ),
                sessions: old(self)@.sessions.insert(token, UserId(new_id)),
                ..old(self)@
            }),
    {
        if let Some(e) = self.registration_gate(payload) {
            return Err(e);
        }
        if self.find_user_index(UserId(new_id)).is_some() {
            return Err(ApiError::InternalError);
        }
        let record = UserRecord {
            id: UserId(new_id),
            name: payload.name.clone(),
            email: payload.email.clone(),
            pass_digest: String::from_str(digest),
        };
        let ghost pre = self.users@;
        proof {
            lemma_user_map_push(pre, record);
        }
        self.users.push(record);
        proof {
            assert forall|a: int, b: int|
                0 <= a < b < self.users@.len() implies self.users@[a].id.0
                != self.users@[b].id.0 && self.users@[a].name@ != self.users@[b].name@
                && self.users@[a].email@ != self.users@[b].email@ by {
                if b == pre.len() && (self.users@[a].id.0 == new_id || self.users@[a].name@
                    == payload.name@ || self.users@[a].email@ == payload.email@) {
                    lemma_user_map_index(pre, a);
                }
            }
        }
        self.put_session(SessionKey(token), UserId(new_id));
        Ok((RegisterResponse { id: UserId(new_id) }, SessionKey(token)))
    }

    /// Creates an account. The request is screened, the password hashed to
    /// a digest, a user identifier and a session token drawn, and
    /// [`Self::register_with`] does the rest; only the outside draws can
    /// fail past the screening, and such a failure surfaces as an internal
    /// error and changes nothing.
    pub fn register_user(&mut self, payload: &RegisterRequest) -> (r: Result<
        (RegisterResponse, SessionKey),
        ApiError,
    >)
        requires
            old(self).wf(),
        ensures
            final(self).wf(),
            crate::store::published_monotone(old(self)@.quests, final(self)@.quests),
            !spec_email_ok(payload.email@) ==> r == Err::<(RegisterResponse, SessionKey), ApiError>(
                ApiError::InvalidEmail,
            ) && final(self)@ == old(self)@,
            spec_email_ok(payload.email@) && !spec_name_ok(payload.name@) ==> r == Err::<
                (RegisterResponse, SessionKey),
                ApiError,
            >(ApiError::InvalidName) && final(self)@ == old(self)@,
            spec_email_ok(payload.email@) && spec_name_ok(payload.name@) && spec_identity_taken(
                old(self)@.users,
                payload.name@,
                payload.email@,
            ) ==> r == Err::<(RegisterResponse, SessionKey), ApiError>(ApiError::NameInUse)
                && final(self)@ == old(self)@,
            spec_email_ok(payload.email@) && spec_name_ok(payload.name@) && !spec_identity_taken(
                old(self)@.users,
                payload.name@,
                payload.email@,
            ) ==> match r {
                Err(e) => e == ApiError::InternalError && final(self)@ == old(self)@,
                Ok((resp, key)) => {
                    &&& !old(self)@.users.contains_key(resp.id.0)
                    &&& final(self)@.users.contains_key(resp.id.0)
                    &&& final(self)@.users[resp.id.0].name == payload.name@
                    &&& final(self)@.users[resp.id.0].email == payload.email@
                    &&& bcrypt_verdict(
                        payload.pass@,
                        final(self)@.users[resp.id.0].pass_digest,
                    ) == Some(true)
                    &&& final(self)@ == (PlatformView {
                        users: old(self)@.users.insert(
                            resp.id.0,
                            final(self)@.users[resp.id.0],
                        ),
                        sessions: old(self)@.sessions.insert(key.0, resp.id),
                        ..old(self)@
                    })
                },
            },
    {
        if let Some(e) = self.registration_gate(payload) {
            return Err(e);
        }
        let Some(digest) = hash_password(payload.pass.as_str()) else {
            return Err(ApiError::InternalError);
        };
        let new_id = fresh_id();
        let token = fresh_id();
        self.register_with(payload, digest.as_str(), new_id, token)
    }

    /// Authenticates a caller: finds the account whose name or email
    /// matches, checks the password against the stored digest, and on
    /// success opens a fresh session for it. A digest that cannot be
    /// checked at all is reported apart from a wrong password, and fails
    /// closed.
    pub fn login_user(&mut self, payload: &LoginRequest) -> (r: Result<
        (LoginResponse, SessionKey),
        ApiError,
    >)
        requires
            old(self).wf(),
        ensures
            final(self).wf(),
            crate::store::published_monotone(old(self)@.quests, final(self)@.quests),
            (forall|id: u128|
                old(self)@.users.contains_key(id) ==> !login_matches(
                    #[trigger] old(self)@.users[id],
                    payload.name_or_email@,
                )) ==> r == Err::<(LoginResponse, SessionKey), ApiError>(ApiError::UserNotFound)
                && final(self)@ == old(self)@,
            match r {
                Ok((resp, key)) => {
                    &&& old(self)@.users.contains_key(resp.id.0)
                    &&& login_matches(old(self)@.users[resp.id.0], payload.name_or_email@)
                    &&& bcrypt_verdict(
                        payload.pass@,
                        old(self)@.users[resp.id.0].pass_digest,
                    ) == Some(true)
                    &&& final(self)@ == (PlatformView {
                        sessions: old(self)@.sessions.insert(key.0, resp.id),
                        ..old(self)@
                    })
                },
                Err(e) => {
                    &&& final(self)@ == old(self)@
                    &&& (e == ApiError::UserNotFound || e == ApiError::WrongPassword || e
                        == ApiError::VerifyFailed)
                    &&& e == ApiError::UserNotFound ==> forall|id: u128|
                        old(self)@.users.contains_key(id) ==> !login_matches(
                            #[trigger] old(self)@.users[id],
                            payload.name_or_email@,
                        )
                    &&& e == ApiError::WrongPassword ==> exists|id: u128|
                        #![auto]
                        old(self)@.users.contains_key(id) && login_matches(
                            old(self)@.users[id],
                            payload.name_or_email@,
                        ) && bcrypt_verdict(payload.pass@, old(self)@.users[id].pass_digest)
                            == Some(false)
                    &&& e == ApiError::VerifyFailed ==> exists|id: u128|
                        #![auto]
                        old(self)@.users.contains_key(id) && login_matches(
                            old(self)@.users[id],
                            payload.name_or_email@,
                        ) && bcrypt_verdict(payload.pass@, old(self)@.users[id].pass_digest)
                            is None
                },
            },
    {
        let mut i: usize = 0;
        let n = self.users.len();
        while i < n
            invariant
                self.wf(),
                self.users == old(self).users,
                self.quests == old(self).quests,
                self.progress == old(self).progress,
                self.sessions == old(self).sessions,
                n == self.users@.len(),
                0 <= i <= n,
                forall|j: int|
                    0 <= j < i ==> !login_matches(self.users@[j]@, payload.name_or_email@),
            decreases n - i,
        {
            if str_eq(self.users[i].name.as_str(), payload.name_or_email.as_str()) || str_eq(
                self.users[i].email.as_str(),
                payload.name_or_email.as_str(),
            ) {
                proof {
                    lemma_user_map_index(self.users@, i as int);
                }
                let user_id = self.users[i].id;
                match verify_password(
                    payload.pass.as_str(),
                    self.users[i].pass_digest.as_str(),
                ) {
                    None => {
                        return Err(ApiError::VerifyFailed);
                    },
                    Some(false) => {
                        return Err(ApiError::WrongPassword);
                    },
                    Some(true) => {
                        let token = fresh_id();
                        self.put_session(SessionKey(token), user_id);
                        return Ok((LoginResponse { id: user_id }, SessionKey(token)));
                    },
                }
            }
            i = i + 1;
        }
        proof {
            assert forall|id: u128| self@.users.contains_key(id) implies !login_matches(
                #[trigger] self@.users[id],
                payload.name_or_email@,
            ) by {
                if login_matches(self@.users[id], payload.name_or_email@) {
                    lemma_user_map_to_index(self.users@, id);
                }
            }
        }
        Err(ApiError::UserNotFound)
    }

    /// Reads a user's public profile.
    pub fn get_user_info(&self, id: UserId) -> (r: Result<crate::model::UserInfo, ApiError>)
        requires
            self.wf(),
        ensures
            if self@.users.contains_key(id.0) {
                r matches Ok(info) && info.id == id && info.name@ == self@.users[id.0].name
                    && info.email@ == self@.users[id.0].email
            } else {
                r == Err::<crate::model::UserInfo, ApiError>(ApiError::UserNotFound)
            },
    {
        let Some(k) = self.find_user_index(id) else {
            return Err(ApiError::UserNotFound);
        };
        Ok(
            crate::model::UserInfo {
                id,
                name: self.users[k].name.clone(),
                email: self.users[k].email.clone(),
            },
        )
    }
}

} // verus!
