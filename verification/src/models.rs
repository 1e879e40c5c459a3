//! The data records of the service — pastes, users, and the request
//! forms — together with their mathematical views.

use vstd::prelude::*;

verus! {

/// A registered account.
pub struct User {
    pub id: i64,
    pub username: String,
    pub password_hash: String,
    pub created_at: i64,
}

/// The mathematical view of a [`User`].
pub ghost struct UserV {
    pub id: int,
    pub username: Seq<char>,
    pub password_hash: Seq<char>,
    pub created_at: int,
}

impl View for User {
    type V = UserV;

    open spec fn view(&self) -> UserV {
        UserV {
            id: self.id as int,
            username: self.username@,
            password_hash: self.password_hash@,
            created_at: self.created_at as int,
        }
    }
}

impl Clone for User {
    fn clone(&self) -> (r: Self)
        ensures
            r@ == self@,
    {
        User {
            id: self.id,
            username: self.username.clone(),
            password_hash: self.password_hash.clone(),
            created_at: self.created_at,
        }
    }
}

/// A stored text snippet. `password_hash` is present iff viewing is
/// gated; `expires_at` is absent for a paste that never expires;
/// `user_id` is absent for an anonymous paste.
pub struct Paste {
    pub id: String,
    pub content: String,
    pub language: Option<String>,
    pub password_hash: Option<String>,
    pub expires_at: Option<i64>,
    pub created_at: i64,
    pub view_count: i32,
    pub user_id: Option<i64>,
}

/// The mathematical view of a [`Paste`].
pub ghost struct PasteV {
    pub id: Seq<char>,
    pub content: Seq<char>,
    pub language: Option<Seq<char>>,
    pub password_hash: Option<Seq<char>>,
    pub expires_at: Option<int>,
    pub created_at: int,
    pub view_count: int,
    pub user_id: Option<int>,
}

impl View for Paste {
    type V = PasteV;

    open spec fn view(&self) -> PasteV {
        PasteV {
            id: self.id@,
            content: self.content@,
            language: match self.language {
                Some(l) => Some(l@),
                None => None,
            },
            password_hash: match self.password_hash {
                Some(h) => Some(h@),
                None => None,
            },
            expires_at: match self.expires_at {
                Some(e) => Some(e as int),
                None => None,
            },
            created_at: self.created_at as int,
            view_count: self.view_count as int,
            user_id: match self.user_id {
                Some(u) => Some(u as int),
                None => None,
            },
        }
    }
}

impl Clone for Paste {
    fn clone(&self) -> (r: Self)
        ensures
            r@ == self@,
    {
        Paste {
            id: self.id.clone(),
            content: self.content.clone(),
            language: match &self.language {
                Some(l) => Some(l.clone()),
                None => None,
            },
            password_hash: match &self.password_hash {
                Some(h) => Some(h.clone()),
                None => None,
            },
            expires_at: self.expires_at,
            created_at: self.created_at,
            view_count: self.view_count,
            user_id: self.user_id,
        }
    }
}

/// A paste is live at `now` when it has no expiry or its expiry lies
/// strictly in the future.
pub open spec fn live_at(p: PasteV, now: i64) -> bool {
    match p.expires_at {
        None => true,
        Some(e) => e > now,
    }
}

/// The registration form.
pub struct RegisterForm {
    pub username: String,
    pub password: String,
    pub confirm_password: String,
}

/// The login form.
pub struct LoginForm {
    pub username: String,
    pub password: String,
}

/// The paste-creation form.
pub struct CreatePasteForm {
    pub content: String,
    pub language: Option<String>,
    pub password: Option<String>,
    pub expiration: Option<String>,
}

/// The form that supplies a password for a gated paste.
pub struct PasswordForm {
    pub password: String,
}

} // verus!
