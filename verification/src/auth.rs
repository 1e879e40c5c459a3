//! Registration, login and session resolution over the user table.
//!
//! Validation order in registration is part of the contract: username
//! length, then password length, then the confirmation match, then
//! uniqueness, and only then hashing and insertion.

use vstd::prelude::*;
use vstd::utf8::encode_utf8;
use crate::models::{User, UserV};
use crate::text::{parse_i64, parse_i64_spec, str_eq};
use crate::utils::{bcrypt_accepts, hash_password, verify_password};

verus! {

/// Why a registration was refused, in the order the checks run.
#[derive(Clone, Copy, Debug, PartialEq, Eq, Structural)]
pub enum RegisterError {
    UsernameTooShort,
    PasswordTooShort,
    PasswordMismatch,
    UsernameTaken,
    HashingFailed,
}

/// Why a login was refused: one uniform answer, so that an unknown
/// username cannot be told apart from a wrong password.
#[derive(Clone, Copy, Debug, PartialEq, Eq, Structural)]
pub enum LoginError {
    InvalidCredentials,
}

/// Some user in `s` carries this username.
pub open spec fn has_username(s: Seq<UserV>, name: Seq<char>) -> bool {
    exists|i: int| 0 <= i < s.len() && s[i].username == name
}

/// The index of the user carrying this username (meaningful only when
/// `has_username` holds; usernames are unique in a well-formed table).
pub open spec fn index_of_username(s: Seq<UserV>, name: Seq<char>) -> int {
    choose|i: int| 0 <= i < s.len() && s[i].username == name
}

/// The user carrying this username, if any.
pub open spec fn lookup_username(s: Seq<UserV>, name: Seq<char>) -> Option<UserV> {
    if has_username(s, name) {
        Some(s[index_of_username(s, name)])
    } else {
        None
    }
}

/// Some user in `s` carries this id.
pub open spec fn has_user_id(s: Seq<UserV>, id: int) -> bool {
    exists|i: int| 0 <= i < s.len() && s[i].id == id
}

/// The user carrying this id, if any.
pub open spec fn lookup_user_id(s: Seq<UserV>, id: int) -> Option<UserV> {
    if has_user_id(s, id) {
        Some(s[choose|i: int| 0 <= i < s.len() && s[i].id == id])
    } else {
        None
    }
}

/// The validation a registration request runs through, in order. A
/// `None` means every check passed. Lengths are measured in bytes, as
/// the strings are stored.
pub open spec fn spec_register_check(
    s: Seq<UserV>,
    username: Seq<char>,
    password: Seq<char>,
    confirm: Seq<char>,
) -> Option<RegisterError> {
    if encode_utf8(username).len() < 3 {
        Some(RegisterError::UsernameTooShort)
    } else if encode_utf8(password).len() < 6 {
        Some(RegisterError::PasswordTooShort)
    } else if password != confirm {
        Some(RegisterError::PasswordMismatch)
    } else if has_username(s, username) {
        Some(RegisterError::UsernameTaken)
    } else {
        None
    }
}

/// A login succeeds exactly when some user carries the username and
/// the password verifies against that user's stored hash.
pub open spec fn spec_login_ok(s: Seq<UserV>, username: Seq<char>, password: Seq<char>) -> bool {
    exists|i: int|
        0 <= i < s.len() && s[i].username == username && bcrypt_accepts(
            password,
            s[i].password_hash,
        )
}

/// What a session token resolves to: the token read as a decimal user
/// id, looked up in the table; any failure on the way means no user.
pub open spec fn spec_resolve(s: Seq<UserV>, token: Seq<char>) -> Option<UserV> {
    match parse_i64_spec(token) {
        None => None,
        Some(uid) => lookup_user_id(s, uid as int),
    }
}

/// What a successful registration leaves behind: the new account —
/// its password hash verifying against the supplied password — stands
/// appended to the table.
pub open spec fn registered_post(
    pre: Seq<UserV>,
    post: Seq<UserV>,
    uid: int,
    username: Seq<char>,
    password: Seq<char>,
    now: i64,
) -> bool {
    exists|hash: Seq<char>|
        post == #[trigger] pre.push(
            UserV { id: uid, username: username, password_hash: hash, created_at: now as int },
        ) && bcrypt_accepts(password, hash)
}

/// The user table: registered accounts under increasing integer ids.
pub struct UserStore {
    entries: Vec<User>,
    next_id: i64,
}

impl UserStore {
    /// The registered users, as views, in registration order.
    pub closed spec fn users(&self) -> Seq<UserV> {
        self.entries@.map_values(|u: User| u@)
    }

    /// The id the next registration will take.
    pub closed spec fn next_user_id(&self) -> int {
        self.next_id as int
    }

    /// Well-formedness: ids are unique, positive and below the next
    /// id; usernames are unique.
    pub open spec fn wf(&self) -> bool {
        &&& forall|i: int, j: int|
            0 <= i < j < self.users().len() ==> self.users()[i].id != self.users()[j].id
        &&& forall|i: int, j: int|
            0 <= i < j < self.users().len() ==> self.users()[i].username
                != self.users()[j].username
        &&& forall|i: int|
            0 <= i < self.users().len() ==> 1 <= #[trigger] self.users()[i].id
                < self.next_user_id()
        &&& self.next_user_id() >= 1
    }

    /// An empty user table; the first account takes id 1.
    pub fn new() -> (r: UserStore)
        ensures
            r.wf(),
            r.users() == Seq::<UserV>::empty(),
            r.next_user_id() == 1,
    {
        let r = UserStore { entries: Vec::new(), next_id: 1 };
        proof {
            assert(r.users() =~= Seq::<UserV>::empty());
        }
        r
    }

    /// Whether a registration can still draw a fresh id.
    pub fn can_register(&self) -> (r: bool)
        ensures
            r == (self.next_user_id() < i64::MAX),
    {
        self.next_id < i64::MAX
    }

    /// Find the position of the user carrying this username.
    fn find_by_username(&self, name: &str) -> (r: Option<usize>)
        requires
            self.wf(),
        ensures
            match r {
                Some(i) => i < self.users().len() && self.users()[i as int].username == name@
                    && index_of_username(self.users(), name@) == i,
                None => !has_username(self.users(), name@),
            },
    {
        let mut i: usize = 0;
        let n = self.entries.len();
        while i < n
            invariant
                self.wf(),
                n == self.users().len(),
                0 <= i <= n,
                forall|j: int| 0 <= j < i ==> self.users()[j].username != name@,
            decreases n - i,
        {
            if str_eq(self.entries[i].username.as_str(), name) {
                proof {
                    let s = self.users();
                    assert(s[i as int].username == name@);
                    assert(has_username(s, name@));
                    let k = index_of_username(s, name@);
                    assert(0 <= k < s.len() && s[k].username == name@);
                    if k != i as int {
                        assert(s[k].username != s[i as int].username);
                    }
                }
                return Some(i);
            }
            i = i + 1;
        }
        None
    }

    /// Register an account. The checks run in a fixed order —
    /// username length, password length, confirmation, uniqueness —
    /// then the password is hashed and the account stored under the
    /// next id.
    pub fn register(
        &mut self,
        username: &str,
        password: &str,
        confirm_password: &str,
        now: i64,
    ) -> (r: Result<i64, RegisterError>)
        requires
            old(self).wf(),
            old(self).next_user_id() < i64::MAX,
        ensures
            final(self).wf(),
            match spec_register_check(
                old(self).users(),
                username@,
                password@,
                confirm_password@,
            ) {
                Some(e) => r == Err::<i64, RegisterError>(e) && final(self).users() == old(
                    self,
                ).users() && final(self).next_user_id() == old(self).next_user_id(),
                None => match r {
                    Err(e) => e == RegisterError::HashingFailed && final(self).users() == old(
                        self,
                    ).users() && final(self).next_user_id() == old(self).next_user_id(),
                    Ok(uid) => uid as int == old(self).next_user_id() && final(self).next_user_id()
                        == old(self).next_user_id() + 1 && registered_post(
                        old(self).users(),
                        final(self).users(),
                        uid as int,
                        username@,
                        password@,
                        now,
                    ),
                },
            },
    {
        if username.as_bytes().len() < 3 {
            return Err(RegisterError::UsernameTooShort);
        }
        if password.as_bytes().len() < 6 {
            return Err(RegisterError::PasswordTooShort);
        }
        if !str_eq(password, confirm_password) {
            return Err(RegisterError::PasswordMismatch);
        }
        if self.find_by_username(username).is_some() {
            return Err(RegisterError::UsernameTaken);
        }
        let ghost s = self.users();
        let hash = match hash_password(password) {
            Ok(h) => h,
            Err(_) => {
                return Err(RegisterError::HashingFailed);
            },
        };
        let ghost hash_v = hash@;
        let uid = self.next_id;
        let user = User {
            id: uid,
            username: username.to_owned(),
            password_hash: hash,
            created_at: now,
        };
        let ghost uv = user@;
        self.entries.push(user);
        self.next_id = uid + 1;
        proof {
            assert(self.users() =~= s.push(uv));
            let t = self.users();
            assert forall|i: int, j: int| 0 <= i < j < t.len() implies t[i].id != t[j].id && t[i]
                .username != t[j].username by {
                if j == t.len() - 1 {
                    assert(t[i] == s[i]);
                    assert(s[i].id < uid as int);
                    assert(!has_username(s, username@));
                }
            }
            assert(t == s.push(
                UserV {
                    id: uid as int,
                    username: username@,
                    password_hash: hash_v,
                    created_at: now as int,
                },
            ));
            assert(registered_post(s, self.users(), uid as int, username@, password@, now));
        }
        Ok(uid)
    }

    /// Log in: one uniform failure for an unknown username or a wrong
    /// password; success returns the account's id.
    pub fn login(&self, username: &str, password: &str) -> (r: Result<i64, LoginError>)
        requires
            self.wf(),
        ensures
            match r {
                Ok(uid) => spec_login_ok(self.users(), username@, password@) && (lookup_username(
                    self.users(),
                    username@,
                ) matches Some(u) && uid as int == u.id),
                Err(e) => e == LoginError::InvalidCredentials && !spec_login_ok(
                    self.users(),
                    username@,
                    password@,
                ),
            },
    {
        let idx = match self.find_by_username(username) {
            None => {
                return Err(LoginError::InvalidCredentials);
            },
            Some(i) => i,
        };
        if verify_password(password, self.entries[idx].password_hash.as_str()) {
            proof {
                let s = self.users();
                assert(s[idx as int].username == username@ && bcrypt_accepts(
                    password@,
                    s[idx as int].password_hash,
                ));
            }
            Ok(self.entries[idx].id)
        } else {
            proof {
                let s = self.users();
                if spec_login_ok(s, username@, password@) {
                    let k = choose|i: int|
                        0 <= i < s.len() && s[i].username == username@ && bcrypt_accepts(
                            password@,
                            s[i].password_hash,
                        );
                    if k != idx as int {
                        assert(s[k].username != s[idx as int].username);
                    }
                }
            }
            Err(LoginError::InvalidCredentials)
        }
    }

    /// Resolve a session token to a user: the token is read as a
    /// decimal user id and looked up; any failure means no user, never
    /// an error.
    pub fn resolve_session(&self, token: &str) -> (r: Option<User>)
        requires
            self.wf(),
        ensures
            match r {
                Some(u) => spec_resolve(self.users(), token@) == Some(u@),
                None => spec_resolve(self.users(), token@) is None,
            },
    {
        let uid = match parse_i64(token) {
            None => {
                return None;
            },
            Some(v) => v,
        };
        let mut i: usize = 0;
        let n = self.entries.len();
        while i < n
            invariant
                self.wf(),
                n == self.users().len(),
                0 <= i <= n,
                parse_i64_spec(token@) == Some(uid),
                forall|j: int| 0 <= j < i ==> self.users()[j].id != uid as int,
            decreases n - i,
        {
            if self.entries[i].id == uid {
                proof {
                    let s = self.users();
                    assert(s[i as int].id == uid as int);
                    assert(has_user_id(s, uid as int));
                    let k = choose|j: int| 0 <= j < s.len() && s[j].id == uid as int;
                    assert(0 <= k < s.len() && s[k].id == uid as int);
                    if k != i as int {
                        assert(s[k].id != s[i as int].id);
                    }
                    assert(lookup_user_id(s, uid as int) == Some(s[i as int]));
                    assert(parse_i64_spec(token@) == Some(uid));
                    assert(spec_resolve(s, token@) == Some(s[i as int]));
                    assert(self.entries@[i as int]@ == s[i as int]);
                }
                return Some(self.entries[i].clone());
            }
            i = i + 1;
        }
        None
    }
}


/// Registration validates the username's length before anything else:
/// a short username is refused as such whatever the passwords say and
/// whatever the table holds — in particular before any uniqueness
/// check.
pub proof fn lemma_register_checks_username_first(
    s: Seq<UserV>,
    username: Seq<char>,
    password: Seq<char>,
    confirm: Seq<char>,
)
    requires
        encode_utf8(username).len() < 3,
    ensures
        spec_register_check(s, username, password, confirm) == Some(
            RegisterError::UsernameTooShort,
        ),
{
}

} // verus!
