//! The user record both stores hold.

use vstd::prelude::*;
use vstd::string::StringSliceAdditionalSpecFns;
use crate::limits::{MAX_EMAIL_LEN, MAX_NAME_LEN, MAX_PASSWORD_LENGTH, MAX_SESSION_TOKEN_LEN};
use crate::ownership::OwnershipType;
use crate::text::{
    buffer_of, copy_string, is_terminated, lemma_buffer_of, lemma_stored_text,
    lemma_zero_terminates, stored,
};

verus! {

/// One user. The four byte buffers hold terminated text.
#[derive(Clone, Copy, Debug)]
pub struct UserStruct {
    pub password: [u8; MAX_PASSWORD_LENGTH],
    pub username: [u8; MAX_NAME_LEN],
    pub user_id: i32,
    pub email: [u8; MAX_EMAIL_LEN],
    /// Days since the last login.
    pub inactivity_count: i32,
    /// 1 when the user is active, 0 when not.
    pub is_active: i32,
    /// The token of the user's last session; empty text when there was none.
    pub session_token: [u8; MAX_SESSION_TOKEN_LEN],
    pub ownership: OwnershipType,
}

impl UserStruct {
    /// Every buffer is terminated and the inactivity count is not negative.
    pub open spec fn wf(&self) -> bool {
        &&& is_terminated(self.username@)
        &&& is_terminated(self.email@)
        &&& is_terminated(self.password@)
        &&& is_terminated(self.session_token@)
        &&& self.inactivity_count >= 0
    }

    /// Whether this is the record a signup with these values makes: the three
    /// strings stored in their buffers, cut to fit; no token; active; not
    /// inactive for any day; held by the primary store alone.
    pub open spec fn is_fresh(
        &self,
        username: Seq<u8>,
        email: Seq<u8>,
        user_id: i32,
        password: Seq<u8>,
    ) -> bool {
        &&& self.username@ == stored(username, MAX_NAME_LEN as int)
        &&& self.email@ == stored(email, MAX_EMAIL_LEN as int)
        &&& self.password@ == stored(password, MAX_PASSWORD_LENGTH as int)
        &&& self.session_token@ == Seq::new(MAX_SESSION_TOKEN_LEN as nat, |i: int| 0u8)
        &&& self.user_id == user_id
        &&& self.inactivity_count == 0
        &&& self.is_active == 1
        &&& self.ownership == OwnershipType::RUST_OWNED
    }

    /// Whether this is the record with nothing in it.
    pub open spec fn is_blank(&self) -> bool {
        &&& self.username@ == Seq::new(MAX_NAME_LEN as nat, |i: int| 0u8)
        &&& self.email@ == Seq::new(MAX_EMAIL_LEN as nat, |i: int| 0u8)
        &&& self.password@ == Seq::new(MAX_PASSWORD_LENGTH as nat, |i: int| 0u8)
        &&& self.session_token@ == Seq::new(MAX_SESSION_TOKEN_LEN as nat, |i: int| 0u8)
        &&& self.user_id == 0
        &&& self.inactivity_count == 0
        &&& self.is_active == 0
        &&& self.ownership == OwnershipType::RUST_OWNED
    }
}

/// The record a signup with these values makes.
pub open spec fn fresh_user(username: Seq<u8>, email: Seq<u8>, user_id: i32, password: Seq<u8>)
    -> UserStruct {
    UserStruct {
        password: buffer_of::<MAX_PASSWORD_LENGTH>(stored(password, MAX_PASSWORD_LENGTH as int)),
        username: buffer_of::<MAX_NAME_LEN>(stored(username, MAX_NAME_LEN as int)),
        user_id,
        email: buffer_of::<MAX_EMAIL_LEN>(stored(email, MAX_EMAIL_LEN as int)),
        inactivity_count: 0,
        is_active: 1,
        session_token: buffer_of::<MAX_SESSION_TOKEN_LEN>(
            Seq::new(MAX_SESSION_TOKEN_LEN as nat, |i: int| 0u8),
        ),
        ownership: OwnershipType::RUST_OWNED,
    }
}

impl Default for UserStruct {
    /// The record with nothing in it.
    fn default() -> (user: UserStruct)
        ensures
            user.is_blank(),
            user.wf(),
    {
        let user = UserStruct {
            password: [0u8; MAX_PASSWORD_LENGTH],
            username: [0u8; MAX_NAME_LEN],
            user_id: 0,
            email: [0u8; MAX_EMAIL_LEN],
            inactivity_count: 0,
            is_active: 0,
            session_token: [0u8; MAX_SESSION_TOKEN_LEN],
            ownership: OwnershipType::RUST_OWNED,
        };
        proof {
            assert(user.username@ =~= Seq::new(MAX_NAME_LEN as nat, |i: int| 0u8));
            assert(user.email@ =~= Seq::new(MAX_EMAIL_LEN as nat, |i: int| 0u8));
            assert(user.password@ =~= Seq::new(MAX_PASSWORD_LENGTH as nat, |i: int| 0u8));
            assert(user.session_token@ =~= Seq::new(MAX_SESSION_TOKEN_LEN as nat, |i: int| 0u8));
            lemma_zeros_terminated(MAX_NAME_LEN as int);
            lemma_zeros_terminated(MAX_EMAIL_LEN as int);
            lemma_zeros_terminated(MAX_PASSWORD_LENGTH as int);
            lemma_zeros_terminated(MAX_SESSION_TOKEN_LEN as int);
        }
        user
    }
}

/// Makes the record of a new user. Each string is cut to what its buffer
/// holds before the terminator.
pub fn create_user(username: &str, email: &str, user_id: i32, password: &str) -> (user: Box<
    UserStruct,
>)
    ensures
        user.is_fresh(username.spec_bytes(), email.spec_bytes(), user_id, password.spec_bytes()),
        user.wf(),
{
    let mut user = UserStruct {
        username: [0u8; MAX_NAME_LEN],
        email: [0u8; MAX_EMAIL_LEN],
        password: [0u8; MAX_PASSWORD_LENGTH],
        user_id: user_id,
        inactivity_count: 0,
        is_active: 1,
        session_token: [0u8; MAX_SESSION_TOKEN_LEN],
        ownership: OwnershipType::RUST_OWNED,
    };
    proof {
        assert(user.username@ =~= Seq::new(MAX_NAME_LEN as nat, |i: int| 0u8));
        assert(user.email@ =~= Seq::new(MAX_EMAIL_LEN as nat, |i: int| 0u8));
        assert(user.password@ =~= Seq::new(MAX_PASSWORD_LENGTH as nat, |i: int| 0u8));
        assert(user.session_token@ =~= Seq::new(MAX_SESSION_TOKEN_LEN as nat, |i: int| 0u8));
        lemma_stored_text(username.spec_bytes(), MAX_NAME_LEN as int);
        lemma_stored_text(email.spec_bytes(), MAX_EMAIL_LEN as int);
        lemma_stored_text(password.spec_bytes(), MAX_PASSWORD_LENGTH as int);
        lemma_zeros_terminated(MAX_SESSION_TOKEN_LEN as int);
    }
    copy_string(&mut user.username, username, MAX_NAME_LEN - 1);
    copy_string(&mut user.email, email, MAX_EMAIL_LEN - 1);
    copy_string(&mut user.password, password, MAX_PASSWORD_LENGTH - 1);
    Box::new(user)
}

/// A buffer of zeros is what stores nothing, and is terminated.
pub proof fn lemma_zeros_terminated(size: int)
    requires
        size > 0,
    ensures
        is_terminated(Seq::new(size as nat, |i: int| 0u8)),
{
    lemma_zero_terminates(Seq::new(size as nat, |i: int| 0u8), 0);
}

/// There is one record a signup with given values makes.
pub proof fn lemma_fresh_user(username: Seq<u8>, email: Seq<u8>, user_id: i32, password: Seq<u8>)
    ensures
        fresh_user(username, email, user_id, password).is_fresh(
            username,
            email,
            user_id,
            password,
        ),
        fresh_user(username, email, user_id, password).wf(),
        forall|user: UserStruct|
            user.is_fresh(username, email, user_id, password) ==> user == fresh_user(
                username,
                email,
                user_id,
                password,
            ),
{
    let made = fresh_user(username, email, user_id, password);
    lemma_buffer_of::<MAX_PASSWORD_LENGTH>(stored(password, MAX_PASSWORD_LENGTH as int));
    lemma_buffer_of::<MAX_NAME_LEN>(stored(username, MAX_NAME_LEN as int));
    lemma_buffer_of::<MAX_EMAIL_LEN>(stored(email, MAX_EMAIL_LEN as int));
    lemma_buffer_of::<MAX_SESSION_TOKEN_LEN>(Seq::new(MAX_SESSION_TOKEN_LEN as nat, |i: int| 0u8));
    lemma_stored_text(username, MAX_NAME_LEN as int);
    lemma_stored_text(email, MAX_EMAIL_LEN as int);
    lemma_stored_text(password, MAX_PASSWORD_LENGTH as int);
    lemma_zeros_terminated(MAX_SESSION_TOKEN_LEN as int);
    assert forall|user: UserStruct|
        user.is_fresh(username, email, user_id, password) implies user == made by {
        assert(user.username =~= made.username);
        assert(user.email =~= made.email);
        assert(user.password =~= made.password);
        assert(user.session_token =~= made.session_token);
    }
}

/// Two records with the same buffers and the same other values, the id
/// aside, are the same once they are given the same id.
pub proof fn lemma_same_but_for_id(a: UserStruct, b: UserStruct)
    requires
        a.username@ == b.username@,
        a.email@ == b.email@,
        a.password@ == b.password@,
        a.session_token@ == b.session_token@,
        a.inactivity_count == b.inactivity_count,
        a.is_active == b.is_active,
        a.ownership == b.ownership,
    ensures
        forall|id: i32| (UserStruct { user_id: id, ..a }) == (UserStruct { user_id: id, ..b }),
{
    assert(a.username =~= b.username);
    assert(a.email =~= b.email);
    assert(a.password =~= b.password);
    assert(a.session_token =~= b.session_token);
}

} // verus!
