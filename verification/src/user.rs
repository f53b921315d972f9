//! Who the client is: the user that the store knows for a session token.

use vstd::prelude::*;
use vstd::string::*;
use crate::bytes::{bytes_of, copy_of, copy_range};
use crate::headers::fields_view;

verus! {

/// A user with a session.
#[derive(Clone, Debug, PartialEq, Eq)]
pub struct UserData {
    pub email: Vec<u8>,
    pub token: Vec<u8>,
}

/// The user of a session, given the email address that the store holds
/// for the token: `(email, token)`. A token for which the store holds
/// nothing, or an empty address, has no user.
pub open spec fn user_of(token: Seq<u8>, stored_email: Option<Seq<u8>>) -> Option<
    (Seq<u8>, Seq<u8>),
> {
    match stored_email {
        Some(email) => if email.len() == 0 {
            None
        } else {
            Some((email, token))
        },
        None => None,
    }
}

/// The user of the session `token`. `stored_email` is what the store
/// holds for the token.
pub fn get_userdata(token: &[u8], stored_email: Option<&[u8]>) -> (user: Option<UserData>)
    ensures
        match user {
            Some(u) => user_of(
                token@,
                match stored_email {
                    Some(e) => Some(e@),
                    None => None,
                },
            ) == Some((u.email@, u.token@)),
            None => user_of(
                token@,
                match stored_email {
                    Some(e) => Some(e@),
                    None => None,
                },
            ) is None,
        },
{
    match stored_email {
        None => None,
        Some(e) => {
            if e.len() == 0 {
                None
            } else {
                let email: Vec<u8> = copy_range(e, 0, e.len());
                let token_copy: Vec<u8> = copy_range(token, 0, token.len());
                assert(email@ =~= e@);
                assert(token_copy@ =~= token@);
                Some(UserData { email, token: token_copy })
            }
        },
    }
}

/// Whether the session has a user.
pub fn auth_token(user: &Option<UserData>) -> (known: bool)
    ensures
        known == user.is_some(),
{
    user.is_some()
}

/// Whether the client may upload: it carries a token, and the token has a
/// user.
pub fn may_upload(token: &[u8], user: &Option<UserData>) -> (allowed: bool)
    ensures
        allowed == (token@.len() > 0 && user.is_some()),
{
    token.len() > 0 && user.is_some()
}

/// The address under which the reaction of the client to a post is looked
/// up: the email address of the user, and the word `null` for a client
/// without a user.
pub fn reaction_owner(user: &Option<UserData>) -> (email: Vec<u8>)
    ensures
        email@ == (match *user {
            Some(u) => u.email@,
            None => "null".spec_bytes(),
        }),
{
    match user {
        Some(u) => copy_of(&u.email),
        None => bytes_of("null"),
    }
}

/// The variables that a page can name: `email` and `token` of the user,
/// in that order, and none without a user.
pub open spec fn variables_of(user: Option<UserData>) -> Seq<(Seq<u8>, Seq<u8>)> {
    match user {
        Some(u) => seq![
            ("email".spec_bytes(), u.email@),
            ("token".spec_bytes(), u.token@),
        ],
        None => Seq::empty(),
    }
}

/// The variables that a page can name for `user`.
pub fn template_variables(user: &Option<UserData>) -> (vars: Vec<(Vec<u8>, Vec<u8>)>)
    ensures
        fields_view(vars@) == variables_of(*user),
{
    let mut vars: Vec<(Vec<u8>, Vec<u8>)> = Vec::new();
    match user {
        Some(u) => {
            vars.push((bytes_of("email"), copy_of(&u.email)));
            vars.push((bytes_of("token"), copy_of(&u.token)));
            assert(fields_view(vars@) =~= variables_of(*user));
        },
        None => {
            assert(fields_view(vars@) =~= variables_of(*user));
        },
    }
    vars
}

} // verus!
