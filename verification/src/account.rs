//! Logging in: the credentials of a login form, the check of a password,
//! and the token of a new session.
//!
//! The store of users and tokens is not part of the engine. The caller
//! looks up what is stored and hands it over; the functions here decide.

use vstd::prelude::*;
use vstd::string::*;
use crate::bytes::{copy_of, copy_range, same_bytes, trim, trim_bytes, views};
use crate::form::{exact_pair, split_exact_pair};
use crate::response::{
    bad_request, bad_request_view, session_started, session_started_view, unauthorized,
    unauthorized_view, Response,
};

verus! {

/// The SHA-256 digest of `data`, written as 64 hexadecimal digits.
pub uninterp spec fn sha256_hex(data: Seq<u8>) -> Seq<u8>;

/// The JSON text of the object that is made by putting in a first member
/// and then a second, each with a string as its value. Where the two keys
/// are the same, the object holds the one member that was put in last.
pub uninterp spec fn json_object_text(
    first_key: Seq<u8>,
    first_value: Seq<u8>,
    second_key: Seq<u8>,
    second_value: Seq<u8>,
) -> Seq<u8>;

/// The digest of `data`.
///
/// Calls `sha256::digest` on the bytes. The contract names the result and
/// claims only that it depends on the bytes alone.
#[verifier::external_body]
fn sha256_digest(data: &[u8]) -> (out: Vec<u8>)
    ensures
        out@ == sha256_hex(data@),
{
    sha256::digest(data).into_bytes()
}

/// The JSON text of an object into which two string members are put.
///
/// Makes the object with `json::JsonValue::new_object`, puts the members
/// in with `json::JsonValue::insert`, the first and then the second, and
/// writes it with `json::JsonValue::dump`. Bytes that are no valid text are
/// replaced as `String::from_utf8_lossy` replaces them. The contract names
/// the result and claims only that it depends on the four byte strings
/// alone; it says nothing of how many members the object has.
#[verifier::external_body]
fn write_json_object(first_key: &[u8], first_value: &[u8], second_key: &[u8], second_value: &[u8])
    -> (out: Vec<u8>)
    ensures
        out@ == json_object_text(first_key@, first_value@, second_key@, second_value@),
{
    let mut object = json::JsonValue::new_object();
    let _ = object.insert(
        &String::from_utf8_lossy(first_key),
        String::from_utf8_lossy(first_value).into_owned(),
    );
    let _ = object.insert(
        &String::from_utf8_lossy(second_key),
        String::from_utf8_lossy(second_value).into_owned(),
    );
    object.dump().into_bytes()
}

/// The symbol that stands for a number below 64 in the base64 alphabet
/// for URLs: the capital letters, the small letters, the digits, the
/// hyphen and the underscore.
pub open spec fn base64_symbol(n: int) -> u8 {
    if n < 26 {
        (65 + n) as u8
    } else if n < 52 {
        (71 + n) as u8
    } else if n < 62 {
        (n - 4) as u8
    } else if n == 62 {
        45u8
    } else {
        95u8
    }
}

/// The base64 text of `s` in the alphabet for URLs, padded with equals
/// signs to a multiple of four symbols.
pub open spec fn base64_url(s: Seq<u8>) -> Seq<u8>
    decreases s.len(),
{
    if s.len() == 0 {
        Seq::empty()
    } else if s.len() == 1 {
        let a = s[0] as int;
        seq![base64_symbol(a / 4), base64_symbol((a % 4) * 16), 61u8, 61u8]
    } else if s.len() == 2 {
        let a = s[0] as int;
        let b = s[1] as int;
        seq![
            base64_symbol(a / 4),
            base64_symbol((a % 4) * 16 + b / 16),
            base64_symbol((b % 16) * 4),
            61u8,
        ]
    } else {
        let a = s[0] as int;
        let b = s[1] as int;
        let c = s[2] as int;
        seq![
            base64_symbol(a / 4),
            base64_symbol((a % 4) * 16 + b / 16),
            base64_symbol((b % 16) * 4 + c / 64),
            base64_symbol(c % 64),
        ] + base64_url(s.skip(3))
    }
}

/// The base64 text of `data`.
///
/// Calls `encode` of `base64::engine::general_purpose::URL_SAFE`, which
/// writes three bytes as four symbols of the URL alphabet and pads the
/// last group. That call panics where the length of the text does not fit
/// in `usize`; the bound on `data` leaves those inputs out.
#[verifier::external_body]
fn base64_encode(data: &[u8]) -> (out: Vec<u8>)
    requires
        data@.len() <= usize::MAX / 2,
    ensures
        out@ == base64_url(data@),
{
    base64::Engine::encode(&base64::engine::general_purpose::URL_SAFE, data).into_bytes()
}

/// The email address and the password that a login form gives, as they
/// stand after the items `so_far`, with `item` taken in: an item `email`
/// or `password` with exactly one `=` sets the one or the other to its
/// value, key and value without the white space around them.
pub open spec fn take_credential(so_far: (Seq<u8>, Seq<u8>), item: Seq<u8>) -> (
    Seq<u8>,
    Seq<u8>,
) {
    match exact_pair(item) {
        Some((k, v)) => if trim(k) == "email".spec_bytes() {
            (trim(v), so_far.1)
        } else if trim(k) == "password".spec_bytes() {
            (so_far.0, trim(v))
        } else {
            so_far
        },
        None => so_far,
    }
}

/// The email address and the password that the items of a login form
/// give, each empty where no item sets it; the last item that sets one
/// decides.
pub open spec fn credentials_of(items: Seq<Seq<u8>>) -> (Seq<u8>, Seq<u8>)
    decreases items.len(),
{
    if items.len() == 0 {
        (Seq::empty(), Seq::empty())
    } else {
        take_credential(credentials_of(items.drop_last()), items.last())
    }
}

/// The email address and the password that `items` give.
pub fn read_credentials(items: &Vec<Vec<u8>>) -> (r: (Vec<u8>, Vec<u8>))
    ensures
        (r.0@, r.1@) == credentials_of(views(items@)),
{
    let mut email: Vec<u8> = Vec::new();
    let mut password: Vec<u8> = Vec::new();
    let n: usize = items.len();
    let mut i: usize = 0;
    assert(views(items@).take(0) =~= Seq::<Seq<u8>>::empty());
    while i < n
        invariant
            n == items@.len(),
            i <= n,
            (email@, password@) == credentials_of(views(items@).take(i as int)),
        decreases n - i,
    {
        let ghost next = views(items@).take(i + 1);
        assert(next.drop_last() =~= views(items@).take(i as int));
        assert(next.last() == items@[i as int]@);
        match split_exact_pair(items[i].as_slice()) {
            Some((k, v)) => {
                let key: &[u8] = trim_bytes(k.as_slice());
                let value: &[u8] = trim_bytes(v.as_slice());
                if same_bytes(key, "email".as_bytes()) {
                    email = copy_range(value, 0, value.len());
                    assert(email@ =~= value@);
                } else if same_bytes(key, "password".as_bytes()) {
                    password = copy_range(value, 0, value.len());
                    assert(password@ =~= value@);
                }
            },
            None => {},
        }
        i += 1;
    }
    assert(views(items@).take(n as int) =~= views(items@));
    (email, password)
}

/// Who logs in: the email address, and the digest of the password.
#[derive(Clone, Debug, PartialEq, Eq)]
pub struct Login {
    pub email: Vec<u8>,
    pub password_digest: Vec<u8>,
}

/// The login that a form asks for, if it gives an email address and a
/// password that are both not empty.
pub open spec fn login_of(items: Seq<Seq<u8>>) -> Option<(Seq<u8>, Seq<u8>)> {
    let (email, password) = credentials_of(items);
    if email.len() == 0 || password.len() == 0 {
        None
    } else {
        Some((email, sha256_hex(password)))
    }
}

/// Reads a login form. A form whose email address or password is missing
/// or empty gives the answer 400 in place of a login.
pub fn start_login(items: &Vec<Vec<u8>>) -> (r: Result<Login, Response>)
    ensures
        match r {
            Ok(login) => login_of(views(items@)) == Some((login.email@, login.password_digest@)),
            Err(answer) => login_of(views(items@)) is None && answer@ == bad_request_view(),
        },
{
    let (email, password) = read_credentials(items);
    if email.len() == 0 || password.len() == 0 {
        Err(bad_request())
    } else {
        let password_digest: Vec<u8> = sha256_digest(password.as_slice());
        Ok(Login { email, password_digest })
    }
}

/// What the stored password says of a login.
#[derive(Clone, Copy, Debug, PartialEq, Eq, Structural)]
pub enum PasswordCheck {
    /// No user of that email address is stored: store one with the digest.
    Register,
    /// The stored digest is the digest of the password.
    Accept,
    /// The stored digest is another: answer 401.
    Reject,
}

/// The check of a password digest against what is stored for the user,
/// `None` standing for a user that is not stored.
pub open spec fn password_check(digest: Seq<u8>, stored: Option<Seq<u8>>) -> PasswordCheck {
    match stored {
        None => PasswordCheck::Register,
        Some(s) => if s == digest {
            PasswordCheck::Accept
        } else {
            PasswordCheck::Reject
        },
    }
}

/// Checks the password of `login` against the digest that is stored for
/// its email address.
pub fn check_password(login: &Login, stored: Option<&[u8]>) -> (c: PasswordCheck)
    ensures
        c == password_check(
            login.password_digest@,
            match stored {
                Some(s) => Some(s@),
                None => None,
            },
        ),
{
    match stored {
        None => PasswordCheck::Register,
        Some(s) => {
            if same_bytes(s, login.password_digest.as_slice()) {
                PasswordCheck::Accept
            } else {
                PasswordCheck::Reject
            }
        },
    }
}

/// What the token of a new session is made from: the JSON text of the
/// email address and the password digest.
pub open spec fn session_seed(email: Seq<u8>, digest: Seq<u8>) -> Seq<u8> {
    json_object_text("email".spec_bytes(), email, "password".spec_bytes(), digest)
}

/// The token of a new session: the digest of the base64 text of the seed.
pub open spec fn session_token_for(email: Seq<u8>, digest: Seq<u8>) -> Seq<u8> {
    sha256_hex(base64_url(session_seed(email, digest)))
}

/// The token of a new session for `login`. `None` where the seed is too
/// long to be written in base64, which is more than half of what `usize`
/// can count.
pub fn new_session_token(login: &Login) -> (token: Option<Vec<u8>>)
    ensures
        match token {
            Some(t) => t@ == session_token_for(login.email@, login.password_digest@),
            None => session_seed(login.email@, login.password_digest@).len() > usize::MAX / 2,
        },
{
    let seed: Vec<u8> = write_json_object(
        "email".as_bytes(),
        login.email.as_slice(),
        "password".as_bytes(),
        login.password_digest.as_slice(),
    );
    if seed.len() <= usize::MAX / 2 {
        let text: Vec<u8> = base64_encode(seed.as_slice());
        Some(sha256_digest(text.as_slice()))
    } else {
        None
    }
}

/// The session that a login gets: its token, and whether the token is new
/// and has to be stored.
#[derive(Clone, Debug, PartialEq, Eq)]
pub struct Session {
    pub token: Vec<u8>,
    pub is_new: bool,
}

/// Gives `login` its session: the one that is stored for it, if there is
/// one, and a new one otherwise. `None` where a new token cannot be made.
pub fn open_session(login: &Login, stored: Option<&Vec<u8>>) -> (r: Option<Session>)
    ensures
        match stored {
            Some(t) => r matches Some(s) && s.token@ == t@ && !s.is_new,
            None => match r {
                Some(s) => s.is_new && s.token@ == session_token_for(
                    login.email@,
                    login.password_digest@,
                ),
                None => session_seed(login.email@, login.password_digest@).len() > usize::MAX / 2,
            },
        },
{
    match stored {
        Some(t) => Some(Session { token: copy_of(t), is_new: false }),
        None => match new_session_token(login) {
            Some(token) => Some(Session { token, is_new: true }),
            None => None,
        },
    }
}

/// The answer that a password check settles: 401 for a password that is
/// not the stored one, and none otherwise.
pub fn password_answer(check: PasswordCheck) -> (r: Option<Response>)
    ensures
        match r {
            Some(answer) => check == PasswordCheck::Reject && answer@ == unauthorized_view(),
            None => check != PasswordCheck::Reject,
        },
{
    match check {
        PasswordCheck::Reject => Some(unauthorized()),
        _ => None,
    }
}

/// The answer to a login: the redirect that sets the cookie of the
/// session, and 400 where no session could be opened.
pub fn session_answer(session: &Option<Session>) -> (r: Response)
    ensures
        r@ == (match *session {
            Some(s) => session_started_view(s.token@),
            None => bad_request_view(),
        }),
{
    match session {
        Some(s) => session_started(s.token.as_slice()),
        None => bad_request(),
    }
}

} // verus!
