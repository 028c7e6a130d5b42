//! Session tokens and the table of open sessions.
//!
//! A session is known by its serial number: the number of sessions opened
//! before it. Its token is that number in twenty decimal digits.

use vstd::prelude::*;
use crate::limits::MAX_SESSION_TOKEN_LEN;
use crate::text::{buffer_of, lemma_buffer_of, lemma_stored_roundtrip, stored, text_of};

verus! {

/// One open session: a token and the id of the user it was issued to.
#[derive(Clone, Copy, Debug)]
pub struct Session {
    pub token: [u8; MAX_SESSION_TOKEN_LEN],
    pub user_id: i32,
}

/// Number of digits in a session token.
pub const TOKEN_DIGITS: usize = 20;

/// The last `width` decimal digits of `n` as ASCII, most significant first.
pub open spec fn decimal_digits(n: nat, width: nat) -> Seq<u8>
    decreases width,
{
    if width == 0 {
        Seq::empty()
    } else {
        decimal_digits(n / 10, (width - 1) as nat).push((48 + n % 10) as u8)
    }
}

/// The token of the session with the serial number `serial`.
pub open spec fn session_token_text(serial: nat) -> Seq<u8> {
    decimal_digits(serial, TOKEN_DIGITS as nat)
}

/// The buffer that holds the token of the session with the serial number
/// `serial`: the token's text, then zeros.
pub open spec fn token_array(serial: nat) -> [u8; MAX_SESSION_TOKEN_LEN] {
    buffer_of::<MAX_SESSION_TOKEN_LEN>(
        stored(session_token_text(serial), MAX_SESSION_TOKEN_LEN as int),
    )
}

/// The id of the user that the newest session with the token `token` was
/// issued to, or 0 when no session has that token.
pub open spec fn session_owner(sessions: Seq<Session>, token: Seq<u8>) -> i32
    decreases sessions.len(),
{
    if sessions.len() == 0 {
        0
    } else if text_of(sessions.last().token@) == token {
        sessions.last().user_id
    } else {
        session_owner(sessions.drop_last(), token)
    }
}

/// Ten to the power of `w`.
pub open spec fn pow10(w: nat) -> nat
    decreases w,
{
    if w == 0 {
        1
    } else {
        10 * pow10((w - 1) as nat)
    }
}

/// The buffer that holds the token of the session with the serial number
/// `serial`.
pub fn make_token(serial: usize) -> (token: [u8; MAX_SESSION_TOKEN_LEN])
    ensures
        token == token_array(serial as nat),
        token@ == stored(session_token_text(serial as nat), MAX_SESSION_TOKEN_LEN as int),
{
    let mut token = [0u8; MAX_SESSION_TOKEN_LEN];
    let mut n: usize = serial;
    let mut w: usize = TOKEN_DIGITS;
    while w > 0
        invariant
            w <= TOKEN_DIGITS,
            session_token_text(serial as nat) =~= decimal_digits(n as nat, w as nat)
                + token@.subrange(w as int, TOKEN_DIGITS as int),
            forall|j: int| TOKEN_DIGITS <= j < MAX_SESSION_TOKEN_LEN ==> token@[j] == 0u8,
        decreases w,
    {
        let digit: u8 = (n % 10) as u8;
        let ghost before = token@;
        token[w - 1] = 48 + digit;
        proof {
            assert(token@.subrange(w as int - 1, TOKEN_DIGITS as int) =~= seq![(48 + digit) as u8]
                + before.subrange(w as int, TOKEN_DIGITS as int));
            assert(decimal_digits(n as nat, w as nat) == decimal_digits(
                n as nat / 10,
                (w - 1) as nat,
            ).push((48 + n as nat % 10) as u8));
        }
        n = n / 10;
        w = w - 1;
    }
    proof {
        lemma_decimal_digits(serial as nat, TOKEN_DIGITS as nat);
        assert(decimal_digits(n as nat, 0) =~= Seq::<u8>::empty());
        assert(token@ =~= stored(session_token_text(serial as nat), MAX_SESSION_TOKEN_LEN as int));
        lemma_token_array(serial as nat);
    }
    token
}

/// Digits are as many as asked for, and each is an ASCII digit.
pub proof fn lemma_decimal_digits(n: nat, width: nat)
    ensures
        decimal_digits(n, width).len() == width,
        forall|i: int|
            0 <= i < width ==> 48 <= (#[trigger] decimal_digits(n, width)[i]) <= 57,
    decreases width,
{
    if width > 0 {
        lemma_decimal_digits(n / 10, (width - 1) as nat);
    }
}

/// A token is twenty ASCII digits, and it is the text of the buffer that
/// stores it.
pub proof fn lemma_session_token_text(serial: nat)
    ensures
        session_token_text(serial).len() == TOKEN_DIGITS,
        forall|i: int|
            0 <= i < TOKEN_DIGITS ==> 48 <= (#[trigger] session_token_text(serial)[i]) <= 57,
        text_of(stored(session_token_text(serial), MAX_SESSION_TOKEN_LEN as int))
            == session_token_text(serial),
{
    lemma_decimal_digits(serial, TOKEN_DIGITS as nat);
    lemma_stored_roundtrip(session_token_text(serial), MAX_SESSION_TOKEN_LEN as int);
}

/// The buffer of a token holds the token's text, then zeros, and is the only
/// buffer that does.
pub proof fn lemma_token_array(serial: nat)
    ensures
        token_array(serial)@ == stored(session_token_text(serial), MAX_SESSION_TOKEN_LEN as int),
        forall|token: [u8; MAX_SESSION_TOKEN_LEN]|
            token@ == stored(session_token_text(serial), MAX_SESSION_TOKEN_LEN as int) ==> token
                == token_array(serial),
{
    lemma_buffer_of::<MAX_SESSION_TOKEN_LEN>(
        stored(session_token_text(serial), MAX_SESSION_TOKEN_LEN as int),
    );
}

/// Numbers with fewer than `width` digits differ in their last `width`
/// digits when they differ.
pub proof fn lemma_digits_tell_numbers_apart(a: nat, b: nat, width: nat)
    requires
        a < pow10(width),
        b < pow10(width),
        decimal_digits(a, width) == decimal_digits(b, width),
    ensures
        a == b,
    decreases width,
{
    if width > 0 {
        let left = decimal_digits(a / 10, (width - 1) as nat);
        let right = decimal_digits(b / 10, (width - 1) as nat);
        assert(decimal_digits(a, width).last() == (48 + a % 10) as u8);
        assert(decimal_digits(b, width).last() == (48 + b % 10) as u8);
        assert(a % 10 == b % 10);
        assert(decimal_digits(a, width).drop_last() =~= left);
        assert(decimal_digits(b, width).drop_last() =~= right);
        lemma_digits_tell_numbers_apart(a / 10, b / 10, (width - 1) as nat);
    }
}

/// Sessions with different serial numbers have different tokens.
pub proof fn lemma_tokens_differ(a: nat, b: nat)
    requires
        a <= u64::MAX,
        b <= u64::MAX,
        a != b,
    ensures
        session_token_text(a) != session_token_text(b),
{
    reveal_with_fuel(pow10, 21);
    assert(pow10(20) == 100000000000000000000);
    if session_token_text(a) == session_token_text(b) {
        lemma_digits_tell_numbers_apart(a, b, TOKEN_DIGITS as nat);
    }
}

} // verus!
