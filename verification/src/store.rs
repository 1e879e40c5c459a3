//! The paste store: creation, lookup, password-gated viewing,
//! ownership-checked deletion, public and per-owner listings, and the
//! expiry sweep. The store is a key-indexed collection of pastes kept
//! newest first; every rule is stated over its sequence of views.

use vstd::prelude::*;
use crate::expiration::{Expiration, parse_spec};
use crate::models::{live_at, Paste, PasteV};
use crate::text::str_eq;
use crate::utils::{bcrypt_accepts, generate_id, hash_password, verify_password};

verus! {

/// A failure of the store itself: the record could not be persisted
/// (the chosen identifier already exists, or the password could not
/// be hashed).
#[derive(Clone, Copy, Debug, PartialEq, Eq, Structural)]
pub enum StoreError {
    PersistenceFailed,
}

/// Some paste in `s` carries identifier `id`.
pub open spec fn has_id(s: Seq<PasteV>, id: Seq<char>) -> bool {
    exists|i: int| 0 <= i < s.len() && s[i].id == id
}

/// The index of the paste carrying `id` (meaningful only when
/// `has_id` holds; identifiers are unique in a well-formed store).
pub open spec fn index_of_id(s: Seq<PasteV>, id: Seq<char>) -> int {
    choose|i: int| 0 <= i < s.len() && s[i].id == id
}

/// The paste carrying `id`, if any.
pub open spec fn lookup(s: Seq<PasteV>, id: Seq<char>) -> Option<PasteV> {
    if has_id(s, id) {
        Some(s[index_of_id(s, id)])
    } else {
        None
    }
}

/// No two pastes share an identifier.
pub open spec fn unique_ids(s: Seq<PasteV>) -> bool {
    forall|i: int, j: int| 0 <= i < j < s.len() ==> s[i].id != s[j].id
}

/// Newest first: creation times never increase along the sequence.
pub open spec fn sorted_desc(s: Seq<PasteV>) -> bool {
    forall|i: int, j: int| 0 <= i < j < s.len() ==> s[i].created_at >= s[j].created_at
}

/// The token a creation request carries, as a character sequence; an
/// absent token reads as the empty token (which parses to `Never`).
pub open spec fn token_view(t: Option<&str>) -> Seq<char> {
    match t {
        Some(s) => s@,
        None => Seq::empty(),
    }
}

/// An optional owned string, viewed.
pub open spec fn opt_string_view(s: Option<String>) -> Option<Seq<char>> {
    match s {
        Some(x) => Some(x@),
        None => None,
    }
}

/// An optional borrowed string, viewed.
pub open spec fn opt_str_view(s: Option<&str>) -> Option<Seq<char>> {
    match s {
        Some(s) => Some(s@),
        None => None,
    }
}

/// An optional machine integer, viewed.
pub open spec fn opt_int_view(v: Option<i64>) -> Option<int> {
    match v {
        Some(v) => Some(v as int),
        None => None,
    }
}

/// The absolute expiry a creation at time `now` resolves from `token`.
pub open spec fn expiry_of(token: Seq<char>, now: i64) -> Option<int> {
    match parse_spec(token).to_absolute_spec(now) {
        Some(e) => Some(e as int),
        None => None,
    }
}

/// The stored hash answers the supplied password exactly: a
/// non-empty password is stored as a hash that verifies against it,
/// and an absent or empty password leaves the paste ungated.
pub open spec fn hash_matches_password(hash: Option<Seq<char>>, password: Option<Seq<char>>) -> bool {
    match password {
        Some(pw) => {
            if pw.len() > 0 {
                match hash {
                    Some(h) => bcrypt_accepts(pw, h),
                    None => false,
                }
            } else {
                hash is None
            }
        },
        None => hash is None,
    }
}

/// The record a creation request persists, given the identifier and
/// password hash that were drawn for it.
pub open spec fn new_paste_v(
    id: Seq<char>,
    content: Seq<char>,
    language: Option<Seq<char>>,
    password_hash: Option<Seq<char>>,
    token: Seq<char>,
    owner: Option<int>,
    now: i64,
) -> PasteV {
    PasteV {
        id: id,
        content: content,
        language: Some(
            match language {
                Some(l) => l,
                None => "plaintext"@,
            },
        ),
        password_hash: password_hash,
        expires_at: expiry_of(token, now),
        created_at: now as int,
        view_count: 0,
        user_id: owner,
    }
}


/// The outcome of viewing a paste, at the spec level.
pub ghost enum ViewOutcomeV {
    Found { paste: PasteV, is_owner: bool },
    NotFound,
    PasswordRequired,
    PasswordIncorrect,
}

/// The outcome of viewing a paste: the paste (as fetched, before the
/// view counter moves) with an ownership flag, or why it was refused.
pub enum ViewOutcome {
    Found { paste: Paste, is_owner: bool },
    NotFound,
    PasswordRequired,
    PasswordIncorrect,
}

impl View for ViewOutcome {
    type V = ViewOutcomeV;

    open spec fn view(&self) -> ViewOutcomeV {
        match self {
            ViewOutcome::Found { paste, is_owner } => ViewOutcomeV::Found {
                paste: paste@,
                is_owner: *is_owner,
            },
            ViewOutcome::NotFound => ViewOutcomeV::NotFound,
            ViewOutcome::PasswordRequired => ViewOutcomeV::PasswordRequired,
            ViewOutcome::PasswordIncorrect => ViewOutcomeV::PasswordIncorrect,
        }
    }
}

/// The outcome of deleting a paste.
#[derive(Clone, Copy, Debug, PartialEq, Eq, Structural)]
pub enum DeleteOutcome {
    Deleted,
    Forbidden,
    NotFound,
}

/// The outcome of fetching a paste's raw content.
pub enum RawOutcome {
    Content(String),
    PasswordProtected,
    NotFound,
}

/// The outcome of fetching raw content, at the spec level.
pub ghost enum RawOutcomeV {
    Content(Seq<char>),
    PasswordProtected,
    NotFound,
}

impl View for RawOutcome {
    type V = RawOutcomeV;

    open spec fn view(&self) -> RawOutcomeV {
        match self {
            RawOutcome::Content(c) => RawOutcomeV::Content(c@),
            RawOutcome::PasswordProtected => RawOutcomeV::PasswordProtected,
            RawOutcome::NotFound => RawOutcomeV::NotFound,
        }
    }
}

/// The viewer owns the paste: they are signed in and their id matches
/// the paste's owner.
pub open spec fn is_owner_of(p: PasteV, viewer: Option<int>) -> bool {
    match viewer {
        Some(uid) => p.user_id == Some(uid),
        None => false,
    }
}

/// A paste after one more view: the counter moves up by one, held at
/// its machine bound.
pub open spec fn bumped(p: PasteV) -> PasteV {
    PasteV {
        view_count: if p.view_count < i32::MAX {
            p.view_count + 1
        } else {
            p.view_count
        },
        ..p
    }
}

/// What viewing returns: absent or expired pastes read as missing; a
/// password gate stops every non-owner until a verifying password is
/// supplied; owners and ungated pastes pass straight through.
pub open spec fn spec_view_outcome(
    s: Seq<PasteV>,
    id: Seq<char>,
    viewer: Option<int>,
    supplied: Option<Seq<char>>,
    now: i64,
) -> ViewOutcomeV {
    match lookup(s, id) {
        None => ViewOutcomeV::NotFound,
        Some(p) => {
            if !live_at(p, now) {
                ViewOutcomeV::NotFound
            } else {
                let owner = is_owner_of(p, viewer);
                match p.password_hash {
                    None => ViewOutcomeV::Found { paste: p, is_owner: owner },
                    Some(h) => {
                        if owner {
                            ViewOutcomeV::Found { paste: p, is_owner: owner }
                        } else {
                            match supplied {
                                None => ViewOutcomeV::PasswordRequired,
                                Some(pw) => {
                                    if bcrypt_accepts(pw, h) {
                                        ViewOutcomeV::Found { paste: p, is_owner: owner }
                                    } else {
                                        ViewOutcomeV::PasswordIncorrect
                                    }
                                },
                            }
                        }
                    },
                }
            }
        },
    }
}

/// How viewing changes the store: an expired paste is removed on
/// access, a successful view moves its counter, everything else
/// leaves the store as it was.
pub open spec fn spec_view_state(
    s: Seq<PasteV>,
    id: Seq<char>,
    viewer: Option<int>,
    supplied: Option<Seq<char>>,
    now: i64,
) -> Seq<PasteV> {
    match lookup(s, id) {
        None => s,
        Some(p) => {
            let i = index_of_id(s, id);
            if !live_at(p, now) {
                s.remove(i)
            } else if spec_view_outcome(s, id, viewer, supplied, now) is Found {
                s.update(i, bumped(p))
            } else {
                s
            }
        },
    }
}

/// What deletion returns: a missing paste reads as missing; an
/// anonymous paste may be deleted by anyone, an owned one only by its
/// owner.
pub open spec fn spec_delete_outcome(
    s: Seq<PasteV>,
    id: Seq<char>,
    caller: Option<int>,
) -> DeleteOutcome {
    match lookup(s, id) {
        None => DeleteOutcome::NotFound,
        Some(p) => {
            if p.user_id is None || (caller is Some && p.user_id == caller) {
                DeleteOutcome::Deleted
            } else {
                DeleteOutcome::Forbidden
            }
        },
    }
}

/// How deletion changes the store: only a permitted deletion removes
/// the record.
pub open spec fn spec_delete_state(s: Seq<PasteV>, id: Seq<char>, caller: Option<int>) -> Seq<
    PasteV,
> {
    if spec_delete_outcome(s, id, caller) is Deleted {
        s.remove(index_of_id(s, id))
    } else {
        s
    }
}

/// What a raw-content fetch returns: the content of a live ungated
/// paste, a refusal for a gated one, and missing otherwise — an
/// expired paste is never served, on this path as on every other.
pub open spec fn spec_raw_outcome(s: Seq<PasteV>, id: Seq<char>, now: i64) -> RawOutcomeV {
    match lookup(s, id) {
        None => RawOutcomeV::NotFound,
        Some(p) => {
            if !live_at(p, now) {
                RawOutcomeV::NotFound
            } else if p.password_hash is None {
                RawOutcomeV::Content(p.content)
            } else {
                RawOutcomeV::PasswordProtected
            }
        },
    }
}

/// The first `n` entries of a listing, or all of them when fewer.
pub open spec fn capped(s: Seq<PasteV>, n: int) -> Seq<PasteV> {
    if s.len() <= n {
        s
    } else {
        s.take(n)
    }
}

/// What a successful creation leaves behind: the identifier is fresh
/// and eight characters long, and the new record — gated exactly when
/// a non-empty password was supplied, by a hash that verifies against
/// it — stands at a place in creation-time order; everything else is
/// unchanged.
pub open spec fn created_post(
    pre: Seq<PasteV>,
    post: Seq<PasteV>,
    id: Seq<char>,
    content: Seq<char>,
    language: Option<Seq<char>>,
    password: Option<Seq<char>>,
    token: Seq<char>,
    owner: Option<int>,
    now: i64,
) -> bool {
    &&& !has_id(pre, id)
    &&& id.len() == 8
    &&& exists|k: int, hash: Option<Seq<char>>|
        {
            &&& 0 <= k <= pre.len()
            &&& post == #[trigger] pre.insert(
                k,
                new_paste_v(id, content, language, hash, token, owner, now),
            )
            &&& hash_matches_password(hash, password)
        }
}

/// The key-indexed collection of pastes, kept newest first.
pub struct PasteStore {
    entries: Vec<Paste>,
}

impl PasteStore {
    /// The sequence of stored pastes, as views, newest first.
    pub closed spec fn pastes(&self) -> Seq<PasteV> {
        self.entries@.map_values(|p: Paste| p@)
    }

    /// Well-formedness: identifiers are unique and the sequence is
    /// ordered newest first.
    pub open spec fn wf(&self) -> bool {
        unique_ids(self.pastes()) && sorted_desc(self.pastes())
    }

    /// An empty store.
    pub fn new() -> (r: PasteStore)
        ensures
            r.wf(),
            r.pastes() == Seq::<PasteV>::empty(),
    {
        let r = PasteStore { entries: Vec::new() };
        proof {
            assert(r.pastes() =~= Seq::<PasteV>::empty());
        }
        r
    }

    /// Find the position of the paste carrying `id`.
    fn find_idx(&self, id: &str) -> (r: Option<usize>)
        requires
            self.wf(),
        ensures
            match r {
                Some(i) => i < self.pastes().len() && self.pastes()[i as int].id == id@
                    && index_of_id(self.pastes(), id@) == i,
                None => !has_id(self.pastes(), id@),
            },
    {
        let mut i: usize = 0;
        let n = self.entries.len();
        while i < n
            invariant
                self.wf(),
                n == self.pastes().len(),
                0 <= i <= n,
                forall|j: int| 0 <= j < i ==> self.pastes()[j].id != id@,
            decreases n - i,
        {
            if str_eq(self.entries[i].id.as_str(), id) {
                proof {
                    let s = self.pastes();
                    assert(s[i as int].id == id@);
                    let k = index_of_id(s, id@);
                    assert(0 <= k < s.len() && s[k].id == id@);
                    if k != i as int {
                        assert(s[k].id != s[i as int].id);
                    }
                }
                return Some(i);
            }
            i = i + 1;
        }
        None
    }

    /// Pure lookup by identifier.
    pub fn get(&self, id: &str) -> (r: Option<Paste>)
        requires
            self.wf(),
        ensures
            match r {
                Some(p) => lookup(self.pastes(), id@) == Some(p@),
                None => lookup(self.pastes(), id@) is None,
            },
    {
        match self.find_idx(id) {
            Some(i) => Some(self.entries[i].clone()),
            None => None,
        }
    }

    /// Persist a new paste under the given identifier and password
    /// hash. Fails exactly when the identifier is already taken; on
    /// success the record is inserted at its place in creation-time
    /// order.
    pub fn create_with_id(
        &mut self,
        id: String,
        content: &str,
        language: Option<&str>,
        password_hash: Option<String>,
        expiration_token: Option<&str>,
        owner_id: Option<i64>,
        now: i64,
    ) -> (r: Result<(), StoreError>)
        requires
            old(self).wf(),
            parse_spec(token_view(expiration_token)).fits(now),
        ensures
            final(self).wf(),
            r is Err <==> has_id(old(self).pastes(), id@),
            r is Err ==> final(self).pastes() == old(self).pastes(),
            r is Ok ==> exists|k: int|
                0 <= k <= old(self).pastes().len() && final(self).pastes()
                    == #[trigger] old(self).pastes().insert(
                    k,
                    new_paste_v(
                        id@,
                        content@,
                        opt_str_view(language),
                        opt_string_view(password_hash),
                        token_view(expiration_token),
                        opt_int_view(owner_id),
                        now,
                    ),
                ),
    {
        if self.find_idx(id.as_str()).is_some() {
            return Err(StoreError::PersistenceFailed);
        }
        let language_owned: String = match language {
            Some(l) => l.to_owned(),
            None => "plaintext".to_owned(),
        };
        let expiration = match expiration_token {
            Some(t) => Expiration::from_str(t),
            None => Expiration::Never,
        };
        let expires_at = expiration.to_absolute(now);
        let paste = Paste {
            id: id,
            content: content.to_owned(),
            language: Some(language_owned),
            password_hash: password_hash,
            expires_at: expires_at,
            created_at: now,
            view_count: 0,
            user_id: owner_id,
        };
        let ghost pv = paste@;
        let ghost olds = self.pastes();
        // Find the insertion point that keeps the store newest first.
        let mut k: usize = 0;
        let n = self.entries.len();
        while k < n && self.entries[k].created_at > now
            invariant
                n == self.pastes().len(),
                0 <= k <= n,
                self.pastes() == olds,
                forall|j: int| 0 <= j < k ==> self.pastes()[j].created_at > now,
            decreases n - k,
        {
            k = k + 1;
        }
        self.entries.insert(k, paste);
        proof {
            assert(self.pastes() =~= olds.insert(k as int, pv));
            lemma_insert_keeps_unique(olds, k as int, pv);
            lemma_insert_keeps_sorted(olds, k as int, pv, now);
        }
        Ok(())
    }

    /// Create a paste: draw a fresh identifier, hash the password if
    /// one was given and non-empty, resolve the expiration token, and
    /// persist the record. Fails when the drawn identifier collides
    /// with an existing one or the password could not be hashed; an
    /// error leaves the store untouched.
    pub fn create(
        &mut self,
        content: &str,
        language: Option<&str>,
        password: Option<&str>,
        expiration_token: Option<&str>,
        owner_id: Option<i64>,
        now: i64,
    ) -> (r: Result<String, StoreError>)
        requires
            old(self).wf(),
            parse_spec(token_view(expiration_token)).fits(now),
        ensures
            final(self).wf(),
            r is Err ==> final(self).pastes() == old(self).pastes(),
            r matches Ok(id) ==> created_post(
                old(self).pastes(),
                final(self).pastes(),
                id@,
                content@,
                opt_str_view(language),
                opt_str_view(password),
                token_view(expiration_token),
                opt_int_view(owner_id),
                now,
            ),
    {
        let id = generate_id();
        // An empty password means "no password"; it is never hashed.
        // A hashing failure fails the creation: a paste asked to be
        // gated is never stored ungated.
        let password_hash: Option<String> = match password {
            Some(pw) => {
                if !pw.is_empty() {
                    match hash_password(pw) {
                        Ok(h) => Some(h),
                        Err(_) => {
                            return Err(StoreError::PersistenceFailed);
                        },
                    }
                } else {
                    None
                }
            },
            None => None,
        };
        let ghost hash_v: Option<Seq<char>> = match &password_hash {
            Some(h) => Some(h@),
            None => None,
        };
        let ghost id_v = id@;
        let ghost pre = *self;
        let id_copy = id.clone();
        match self.create_with_id(
            id,
            content,
            language,
            password_hash,
            expiration_token,
            owner_id,
            now,
        ) {
            Ok(()) => {
                proof {
                    let newp = new_paste_v(
                        id_v,
                        content@,
                        opt_str_view(language),
                        hash_v,
                        token_view(expiration_token),
                        opt_int_view(owner_id),
                        now,
                    );
                    let k = choose|k: int|
                        0 <= k <= pre.pastes().len() && self.pastes()
                            == #[trigger] pre.pastes().insert(k, newp);
                    assert(self.pastes() == pre.pastes().insert(
                        k,
                        new_paste_v(
                            id_v,
                            content@,
                            opt_str_view(language),
                            hash_v,
                            token_view(expiration_token),
                            opt_int_view(owner_id),
                            now,
                        ),
                    ));
                    assert(created_post(
                        pre.pastes(),
                        self.pastes(),
                        id_v,
                        content@,
                        opt_str_view(language),
                        opt_str_view(password),
                        token_view(expiration_token),
                        opt_int_view(owner_id),
                        now,
                    ));
                }
                Ok(id_copy)
            },
            Err(e) => Err(e),
        }
    }

    /// View a paste: enforce expiry lazily, apply the password gate,
    /// and count the view on success. The returned paste is the
    /// record as fetched, before its counter moves.
    pub fn view(
        &mut self,
        id: &str,
        viewer: Option<i64>,
        supplied: Option<&str>,
        now: i64,
    ) -> (r: ViewOutcome)
        requires
            old(self).wf(),
        ensures
            final(self).wf(),
            r@ == spec_view_outcome(
                old(self).pastes(),
                id@,
                opt_int_view(viewer),
                opt_str_view(supplied),
                now,
            ),
            final(self).pastes() == spec_view_state(
                old(self).pastes(),
                id@,
                opt_int_view(viewer),
                opt_str_view(supplied),
                now,
            ),
    {
        let ghost s = self.pastes();
        let idx = match self.find_idx(id) {
            None => {
                return ViewOutcome::NotFound;
            },
            Some(i) => i,
        };
        proof {
            assert(lookup(s, id@) == Some(s[idx as int]));
        }
        let expired = match self.entries[idx].expires_at {
            Some(e) => e <= now,
            None => false,
        };
        if expired {
            self.entries.remove(idx);
            proof {
                assert(self.pastes() =~= s.remove(idx as int));
                lemma_remove_keeps_wf(s, idx as int);
            }
            return ViewOutcome::NotFound;
        }
        let is_owner = match (viewer, self.entries[idx].user_id) {
            (Some(u), Some(o)) => u == o,
            _ => false,
        };
        if !is_owner {
            let refused = match (&self.entries[idx].password_hash, supplied) {
                (Some(_), None) => Some(ViewOutcome::PasswordRequired),
                (Some(h), Some(pw)) => {
                    if !verify_password(pw, h.as_str()) {
                        Some(ViewOutcome::PasswordIncorrect)
                    } else {
                        None
                    }
                },
                (None, _) => None,
            };
            if let Some(out) = refused {
                return out;
            }
        }
        let paste = self.entries[idx].clone();
        let mut entry = self.entries.remove(idx);
        if entry.view_count < i32::MAX {
            entry.view_count = entry.view_count + 1;
        }
        self.entries.insert(idx, entry);
        proof {
            assert(self.pastes() =~= s.update(idx as int, bumped(s[idx as int])));
            lemma_update_same_keys_keeps_wf(s, idx as int, bumped(s[idx as int]));
        }
        ViewOutcome::Found { paste, is_owner }
    }

    /// Delete a paste: permitted for its owner, or for anyone when
    /// the paste is anonymous.
    pub fn delete(&mut self, id: &str, caller: Option<i64>) -> (r: DeleteOutcome)
        requires
            old(self).wf(),
        ensures
            final(self).wf(),
            r == spec_delete_outcome(old(self).pastes(), id@, opt_int_view(caller)),
            final(self).pastes() == spec_delete_state(
                old(self).pastes(),
                id@,
                opt_int_view(caller),
            ),
    {
        let ghost s = self.pastes();
        let idx = match self.find_idx(id) {
            None => {
                return DeleteOutcome::NotFound;
            },
            Some(i) => i,
        };
        proof {
            assert(lookup(s, id@) == Some(s[idx as int]));
        }
        let allowed = match (self.entries[idx].user_id, caller) {
            (None, _) => true,
            (Some(o), Some(c)) => o == c,
            (Some(_), None) => false,
        };
        if allowed {
            self.entries.remove(idx);
            proof {
                assert(self.pastes() =~= s.remove(idx as int));
                lemma_remove_keeps_wf(s, idx as int);
            }
            DeleteOutcome::Deleted
        } else {
            DeleteOutcome::Forbidden
        }
    }

    /// Fetch a paste's raw content: an expired paste reads as missing
    /// (its removal is left to the sweep or to a viewing access), and
    /// a password-gated one is refused outright.
    pub fn raw(&self, id: &str, now: i64) -> (r: RawOutcome)
        requires
            self.wf(),
        ensures
            r@ == spec_raw_outcome(self.pastes(), id@, now),
    {
        let ghost s = self.pastes();
        let idx = match self.find_idx(id) {
            None => {
                return RawOutcome::NotFound;
            },
            Some(i) => i,
        };
        proof {
            assert(lookup(s, id@) == Some(s[idx as int]));
        }
        let expired = match self.entries[idx].expires_at {
            Some(e) => e <= now,
            None => false,
        };
        if expired {
            return RawOutcome::NotFound;
        }
        match &self.entries[idx].password_hash {
            Some(_) => RawOutcome::PasswordProtected,
            None => RawOutcome::Content(self.entries[idx].content.clone()),
        }
    }

    /// Remove every paste whose expiry lies at or before `now` and
    /// say how many went.
    pub fn sweep_expired(&mut self, now: i64) -> (r: usize)
        requires
            old(self).wf(),
        ensures
            final(self).wf(),
            final(self).pastes() == old(self).pastes().filter(|p: PasteV| live_at(p, now)),
            r == old(self).pastes().len() - final(self).pastes().len(),
    {
        let ghost s = self.pastes();
        let mut kept: Vec<Paste> = Vec::new();
        let n = self.entries.len();
        let mut i: usize = 0;
        proof {
            assert(s.take(0) =~= Seq::<PasteV>::empty());
            reveal_with_fuel(Seq::<_>::filter, 1);
            assert(kept@.map_values(|p: Paste| p@) =~= s.take(0).filter((|p: PasteV| live_at(p, now))));
        }
        while i < n
            invariant
                self.wf(),
                s == self.pastes(),
                n == s.len(),
                0 <= i <= n,
                kept@.map_values(|p: Paste| p@) == s.take(i as int).filter((|p: PasteV| live_at(p, now))),
            decreases n - i,
        {
            let live = match self.entries[i].expires_at {
                Some(e) => e > now,
                None => true,
            };
            proof {
                assert(self.entries@[i as int]@ == s[i as int]);
                assert(live == live_at(s[i as int], now));
                assert((|p: PasteV| live_at(p, now))(s[i as int]) == live_at(s[i as int], now));
                assert(s.take(i + 1).drop_last() =~= s.take(i as int));
                assert(s.take(i + 1).last() == s[i as int]);
                lemma_filter_unfold(s.take(i + 1), (|p: PasteV| live_at(p, now)));
            }
            if live {
                kept.push(self.entries[i].clone());
                proof {
                    assert(s.take(i + 1).filter((|p: PasteV| live_at(p, now))) == s.take(i as int).filter((|p: PasteV| live_at(p, now))).push(
                        s[i as int],
                    ));
                    assert(kept@.map_values(|p: Paste| p@) =~= s.take(i as int).filter((|p: PasteV| live_at(p, now))).push(
                        s[i as int],
                    ));
                }
            } else {
                proof {
                    assert(s.take(i + 1).filter((|p: PasteV| live_at(p, now))) == s.take(i as int).filter((|p: PasteV| live_at(p, now))));
                    assert(kept@.map_values(|p: Paste| p@) == s.take(i + 1).filter((|p: PasteV| live_at(p, now))));
                }
            }
            i = i + 1;
        }
        proof {
            assert(s.take(n as int) =~= s);
            broadcast use vstd::seq_lib::group_seq_properties;
            Seq::lemma_filter_len(s, (|p: PasteV| live_at(p, now)));
            lemma_filter_pairwise(s, (|p: PasteV| live_at(p, now)), |a: PasteV, b: PasteV| a.id != b.id);
            lemma_filter_pairwise(s, (|p: PasteV| live_at(p, now)), |a: PasteV, b: PasteV| a.created_at >= b.created_at);
        }
        let removed = n - kept.len();
        self.entries = kept;
        removed
    }

    /// List the pastes of one owner, newest first, capped at `limit`.
    pub fn list_by_owner(&self, owner_id: i64, limit: usize) -> (r: Vec<Paste>)
        requires
            self.wf(),
        ensures
            r@.map_values(|p: Paste| p@) == capped(
                self.pastes().filter(|p: PasteV| p.user_id == Some(owner_id as int)),
                limit as int,
            ),
            sorted_desc(r@.map_values(|p: Paste| p@)),
    {
        let mut out: Vec<Paste> = Vec::new();
        let n = self.entries.len();
        let mut i: usize = 0;
        proof {
            let s = self.pastes();
            assert(s.take(0) =~= Seq::<PasteV>::empty());
            reveal_with_fuel(Seq::<_>::filter, 1);
            assert(out@.map_values(|p: Paste| p@) =~= s.take(0).filter((|p: PasteV| p.user_id == Some(owner_id as int))));
        }
        while i < n
            invariant
                self.wf(),
                n == self.pastes().len(),
                0 <= i <= n,
                out@.map_values(|p: Paste| p@) == self.pastes().take(i as int).filter((|p: PasteV| p.user_id == Some(owner_id as int))),
            decreases n - i,
        {
            let ghost s = self.pastes();
            let matches_owner = match self.entries[i].user_id {
                Some(o) => o == owner_id,
                None => false,
            };
            proof {
                assert(s.take(i + 1).drop_last() =~= s.take(i as int));
                assert(s.take(i + 1).last() == s[i as int]);
                lemma_filter_unfold(s.take(i + 1), (|p: PasteV| p.user_id == Some(owner_id as int)));
            }
            if matches_owner {
                out.push(self.entries[i].clone());
            }
            proof {
                assert(out@.map_values(|p: Paste| p@) =~= s.take(i + 1).filter((|p: PasteV| p.user_id == Some(owner_id as int))));
            }
            i = i + 1;
        }
        proof {
            let s = self.pastes();
            assert(s.take(n as int) =~= s);
            lemma_filter_pairwise(s, (|p: PasteV| p.user_id == Some(owner_id as int)), |a: PasteV, b: PasteV| a.created_at >= b.created_at);
        }
        truncate_listing(out, limit)
    }

    /// List the pastes that anyone may see — no password gate and not
    /// expired — newest first, capped at `limit`.
    pub fn list_public(&self, now: i64, limit: usize) -> (r: Vec<Paste>)
        requires
            self.wf(),
        ensures
            r@.map_values(|p: Paste| p@) == capped(
                self.pastes().filter(|p: PasteV| p.password_hash is None && live_at(p, now)),
                limit as int,
            ),
            sorted_desc(r@.map_values(|p: Paste| p@)),
    {
        let mut out: Vec<Paste> = Vec::new();
        let n = self.entries.len();
        let mut i: usize = 0;
        proof {
            let s = self.pastes();
            assert(s.take(0) =~= Seq::<PasteV>::empty());
            reveal_with_fuel(Seq::<_>::filter, 1);
            assert(out@.map_values(|p: Paste| p@) =~= s.take(0).filter((|p: PasteV| p.password_hash is None && live_at(p, now))));
        }
        while i < n
            invariant
                self.wf(),
                n == self.pastes().len(),
                0 <= i <= n,
                out@.map_values(|p: Paste| p@) == self.pastes().take(i as int).filter((|p: PasteV| p.password_hash is None && live_at(p, now))),
            decreases n - i,
        {
            let ghost s = self.pastes();
            let ungated = self.entries[i].password_hash.is_none();
            let live = match self.entries[i].expires_at {
                Some(e) => e > now,
                None => true,
            };
            proof {
                assert(s.take(i + 1).drop_last() =~= s.take(i as int));
                assert(s.take(i + 1).last() == s[i as int]);
                lemma_filter_unfold(s.take(i + 1), (|p: PasteV| p.password_hash is None && live_at(p, now)));
            }
            if ungated && live {
                out.push(self.entries[i].clone());
            }
            proof {
                assert(out@.map_values(|p: Paste| p@) =~= s.take(i + 1).filter((|p: PasteV| p.password_hash is None && live_at(p, now))));
            }
            i = i + 1;
        }
        proof {
            let s = self.pastes();
            assert(s.take(n as int) =~= s);
            lemma_filter_pairwise(s, (|p: PasteV| p.password_hash is None && live_at(p, now)), |a: PasteV, b: PasteV| a.created_at >= b.created_at);
        }
        truncate_listing(out, limit)
    }
}

/// Cut a listing down to `limit` entries, keeping order.
fn truncate_listing(v: Vec<Paste>, limit: usize) -> (r: Vec<Paste>)
    ensures
        r@.map_values(|p: Paste| p@) == capped(v@.map_values(|p: Paste| p@), limit as int),
        sorted_desc(v@.map_values(|p: Paste| p@)) ==> sorted_desc(r@.map_values(|p: Paste| p@)),
{
    let mut v = v;
    let ghost before = v@.map_values(|p: Paste| p@);
    v.truncate(limit);
    proof {
        if limit as int <= before.len() {
            assert(v@.map_values(|p: Paste| p@) =~= before.take(limit as int));
        }
        if before.len() <= limit {
            assert(v@.map_values(|p: Paste| p@) =~= before);
        }
    }
    v
}

/// One step of `filter`, from the back.
proof fn lemma_filter_unfold<A>(s: Seq<A>, pred: spec_fn(A) -> bool)
    requires
        s.len() > 0,
    ensures
        s.filter(pred) == if pred(s.last()) {
            s.drop_last().filter(pred).push(s.last())
        } else {
            s.drop_last().filter(pred)
        },
{
    reveal(Seq::filter);
}

/// Every element of a filtered sequence is an element of the
/// unfiltered one.
proof fn lemma_filter_elems<A>(s: Seq<A>, pred: spec_fn(A) -> bool)
    ensures
        forall|i: int|
            0 <= i < s.filter(pred).len() ==> s.contains(#[trigger] s.filter(pred)[i]),
    decreases s.len(),
{
    reveal(Seq::filter);
    if s.len() > 0 {
        let dl = s.drop_last();
        lemma_filter_elems(dl, pred);
        assert forall|i: int|
            0 <= i < s.filter(pred).len() implies s.contains(#[trigger] s.filter(pred)[i]) by {
            let f = s.filter(pred);
            if pred(s.last()) && i == f.len() - 1 {
                assert(f[i] == s.last());
                assert(s[s.len() - 1] == s.last());
            } else {
                assert(f[i] == dl.filter(pred)[i]);
                assert(dl.contains(f[i]));
                let k = choose|k: int| 0 <= k < dl.len() && dl[k] == f[i];
                assert(s[k] == f[i]);
            }
        }
    }
}

/// Filtering keeps any pairwise relation that held along the
/// unfiltered sequence.
proof fn lemma_filter_pairwise<A>(s: Seq<A>, pred: spec_fn(A) -> bool, rel: spec_fn(A, A) -> bool)
    requires
        forall|i: int, j: int| 0 <= i < j < s.len() ==> rel(#[trigger] s[i], #[trigger] s[j]),
    ensures
        forall|i: int, j: int|
            0 <= i < j < s.filter(pred).len() ==> rel(
                #[trigger] s.filter(pred)[i],
                #[trigger] s.filter(pred)[j],
            ),
    decreases s.len(),
{
    reveal(Seq::filter);
    if s.len() > 0 {
        let dl = s.drop_last();
        let f = s.filter(pred);
        lemma_filter_pairwise(dl, pred, rel);
        lemma_filter_elems(dl, pred);
        assert forall|i: int, j: int|
            0 <= i < j < f.len() implies rel(#[trigger] f[i], #[trigger] f[j]) by {
            if pred(s.last()) && j == f.len() - 1 {
                assert(f[j] == s.last());
                assert(f[i] == dl.filter(pred)[i]);
                assert(dl.contains(f[i]));
                let k = choose|k: int| 0 <= k < dl.len() && dl[k] == f[i];
                assert(rel(s[k], s[s.len() - 1]));
            } else {
                assert(f[i] == dl.filter(pred)[i]);
                assert(f[j] == dl.filter(pred)[j]);
            }
        }
    }
}

/// Removing one paste keeps identifiers unique and the order newest
/// first.
proof fn lemma_remove_keeps_wf(s: Seq<PasteV>, k: int)
    requires
        unique_ids(s),
        sorted_desc(s),
        0 <= k < s.len(),
    ensures
        unique_ids(s.remove(k)),
        sorted_desc(s.remove(k)),
{
    let t = s.remove(k);
    assert forall|i: int, j: int|
        0 <= i < j < t.len() implies t[i].id != t[j].id && t[i].created_at >= t[j].created_at by {
        let si = if i < k { i } else { i + 1 };
        let sj = if j < k { j } else { j + 1 };
        assert(t[i] == s[si]);
        assert(t[j] == s[sj]);
    }
}

/// Replacing a paste by one with the same identifier and creation
/// time keeps the store well-formed.
proof fn lemma_update_same_keys_keeps_wf(s: Seq<PasteV>, k: int, p: PasteV)
    requires
        unique_ids(s),
        sorted_desc(s),
        0 <= k < s.len(),
        p.id == s[k].id,
        p.created_at == s[k].created_at,
    ensures
        unique_ids(s.update(k, p)),
        sorted_desc(s.update(k, p)),
{
    let t = s.update(k, p);
    assert forall|i: int, j: int|
        0 <= i < j < t.len() implies t[i].id != t[j].id && t[i].created_at >= t[j].created_at by {
        assert(s[i].id != s[j].id && s[i].created_at >= s[j].created_at);
    }
}

/// Inserting a paste whose identifier is fresh keeps identifiers
/// unique.
proof fn lemma_insert_keeps_unique(s: Seq<PasteV>, k: int, p: PasteV)
    requires
        unique_ids(s),
        0 <= k <= s.len(),
        !has_id(s, p.id),
    ensures
        unique_ids(s.insert(k, p)),
{
    let t = s.insert(k, p);
    assert forall|i: int, j: int| 0 <= i < j < t.len() implies t[i].id != t[j].id by {
        if i == k {
            assert(t[j] == s[j - 1]);
        } else if j == k {
            assert(t[i] == s[i]);
        } else {
            let si = if i < k { i } else { i - 1 };
            let sj = if j < k { j } else { j - 1 };
            assert(t[i] == s[si]);
            assert(t[j] == s[sj]);
        }
    }
}

/// Inserting a paste created at `now` at the first position whose
/// neighbours allow it keeps the store newest first.
proof fn lemma_insert_keeps_sorted(s: Seq<PasteV>, k: int, p: PasteV, now: i64)
    requires
        sorted_desc(s),
        0 <= k <= s.len(),
        p.created_at == now as int,
        forall|j: int| 0 <= j < k ==> s[j].created_at > now,
        k < s.len() ==> s[k].created_at <= now,
    ensures
        sorted_desc(s.insert(k, p)),
{
    let t = s.insert(k, p);
    assert forall|i: int, j: int| 0 <= i < j < t.len() implies t[i].created_at >= t[j].created_at
        by {
        if i == k {
            assert(t[j] == s[j - 1]);
        } else if j == k {
            assert(t[i] == s[i]);
        } else {
            let si = if i < k { i } else { i - 1 };
            let sj = if j < k { j } else { j - 1 };
            assert(t[i] == s[si]);
            assert(t[j] == s[sj]);
        }
    }
}


/// A sequence whose elements all satisfy the predicate filters to
/// itself.
proof fn lemma_filter_all<A>(s: Seq<A>, pred: spec_fn(A) -> bool)
    requires
        forall|i: int| 0 <= i < s.len() ==> pred(#[trigger] s[i]),
    ensures
        s.filter(pred) == s,
    decreases s.len(),
{
    reveal(Seq::filter);
    if s.len() > 0 {
        let dl = s.drop_last();
        lemma_filter_all(dl, pred);
        assert(pred(s.last()));
        assert(s.filter(pred) == dl.push(s.last()));
        assert(dl.push(s.last()) =~= s);
    }
}

/// A paste stored without a password hash is viewable by anyone: the
/// outcome is never a password prompt and never a password failure,
/// whoever asks and whatever password they supply.
pub proof fn lemma_ungated_needs_no_password(
    s: Seq<PasteV>,
    id: Seq<char>,
    p: PasteV,
    viewer: Option<int>,
    supplied: Option<Seq<char>>,
    now: i64,
)
    requires
        lookup(s, id) == Some(p),
        p.password_hash is None,
    ensures
        !(spec_view_outcome(s, id, viewer, supplied, now) is PasswordRequired),
        !(spec_view_outcome(s, id, viewer, supplied, now) is PasswordIncorrect),
        live_at(p, now) ==> spec_view_outcome(s, id, viewer, supplied, now)
            == (ViewOutcomeV::Found { paste: p, is_owner: is_owner_of(p, viewer) }),
{
}

/// The password gate: a live gated paste turns a non-owner away with
/// a prompt when no password came, with a failure when a wrong one
/// came, and opens for a verifying password — or for the owner with
/// no password at all.
pub proof fn lemma_password_gate(
    s: Seq<PasteV>,
    id: Seq<char>,
    p: PasteV,
    h: Seq<char>,
    viewer: Option<int>,
    supplied: Option<Seq<char>>,
    now: i64,
)
    requires
        lookup(s, id) == Some(p),
        p.password_hash == Some(h),
        live_at(p, now),
    ensures
        !is_owner_of(p, viewer) && supplied is None ==> spec_view_outcome(
            s,
            id,
            viewer,
            supplied,
            now,
        ) == ViewOutcomeV::PasswordRequired,
        !is_owner_of(p, viewer) && (supplied matches Some(pw) && !bcrypt_accepts(pw, h))
            ==> spec_view_outcome(s, id, viewer, supplied, now)
            == ViewOutcomeV::PasswordIncorrect,
        !is_owner_of(p, viewer) && (supplied matches Some(pw) && bcrypt_accepts(pw, h))
            ==> spec_view_outcome(s, id, viewer, supplied, now) == (ViewOutcomeV::Found {
            paste: p,
            is_owner: false,
        }),
        is_owner_of(p, viewer) ==> spec_view_outcome(s, id, viewer, supplied, now)
            == (ViewOutcomeV::Found { paste: p, is_owner: true }),
{
}

/// Sweeping is idempotent: after one sweep at `now`, a second sweep
/// at the same time removes nothing.
pub proof fn lemma_sweep_idempotent(s: Seq<PasteV>, now: i64)
    ensures
        s.filter(|p: PasteV| live_at(p, now)).filter(|p: PasteV| live_at(p, now)) == s.filter(
            |p: PasteV| live_at(p, now),
        ),
{
    let f = s.filter(|p: PasteV| live_at(p, now));
    assert forall|i: int| 0 <= i < f.len() implies (|p: PasteV| live_at(p, now))(
        #[trigger] f[i],
    ) by {
        Seq::lemma_filter_pred(s, |p: PasteV| live_at(p, now), i);
    }
    lemma_filter_all(f, |p: PasteV| live_at(p, now));
}

/// The deletion policy: an anonymous paste may be deleted by anyone;
/// an owned paste only by its owner, and by nobody else.
pub proof fn lemma_delete_policy(s: Seq<PasteV>, id: Seq<char>, p: PasteV, caller: Option<int>)
    requires
        lookup(s, id) == Some(p),
    ensures
        p.user_id is None ==> spec_delete_outcome(s, id, caller) == DeleteOutcome::Deleted,
        p.user_id matches Some(o) && caller == Some(o) ==> spec_delete_outcome(s, id, caller)
            == DeleteOutcome::Deleted,
        p.user_id matches Some(o) && caller != Some(o) ==> spec_delete_outcome(s, id, caller)
            == DeleteOutcome::Forbidden,
{
}

} // verus!
