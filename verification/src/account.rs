use vstd::prelude::*;

use crate::error::Error;
use bcrypt::BcryptError;

verus! {

/// A request to create an account, or to log into one.
#[derive(Debug)]
pub struct UserPostQuery {
    pub username: String,
    pub password: String,
}

/// The row that stores a new account: its name and the bcrypt hash of its
/// password.
#[derive(Debug)]
pub struct NewAccount {
    pub name: String,
    pub passhash: String,
}

/// What the store holds of an account that someone logs into: its id and
/// the hash of its password, if it has one.
#[derive(Debug)]
pub struct AccountLogin {
    pub id: i32,
    pub passhash: Option<String>,
}

/// A granted login: the account's id, and the private cookie that carries it.
#[derive(Debug)]
pub struct Login {
    pub user_id: i32,
    pub cookie_name: String,
    pub cookie_value: String,
}

/// The bcrypt work factor that passwords are hashed with.
pub const PASSWORD_COST: u32 = 10;

/// What `bcrypt::verify` answers for a password and a stored hash:
/// `Some(b)` when it answers `Ok(b)`, `None` when it fails.
pub uninterp spec fn bcrypt_verify_outcome(password: Seq<char>, hash: Seq<char>) -> Option<bool>;

/// `hash` is a bcrypt hash that `password` passes.
pub open spec fn password_matches(password: Seq<char>, hash: Seq<char>) -> bool {
    bcrypt_verify_outcome(password, hash) == Some(true)
}

/// The first seven characters of a bcrypt hash made at work factor `cost`:
/// the version `$2b$`, the cost as two decimal digits, and a `$`.
pub open spec fn hash_prefix(cost: int) -> Seq<char> {
    seq!['$', '2', 'b', '$', digit_char(cost / 10), digit_char(cost % 10), '$']
}

/// Calls `bcrypt::hash`, which salts `password` with fresh OS randomness
/// and hashes it at work factor `cost`. Trusted, not proved: a hash it
/// returns is one that `bcrypt::verify` accepts for the same password (the
/// salt and cost are read back from the hash and the same computation is
/// redone), and it is written as 60 characters that begin with version
/// `$2b$`, the cost in two digits and a `$`, followed by the encoded salt
/// and digest. Which salt is drawn, and whether drawing it fails, is left
/// unsaid: both rest on chance.
#[verifier::external_body]
fn hash_password(password: &str, cost: u32) -> (r: Result<String, BcryptError>)
    requires
        4 <= cost <= 31,
    ensures
        r matches Ok(h) ==> {
            &&& password_matches(password@, h@)
            &&& h@.len() == 60
            &&& h@.take(7) == hash_prefix(cost as int)
        },
{
    bcrypt::hash(password, cost)
}

/// Calls `bcrypt::verify`, which checks `password` against the stored
/// `hash`. Trusted, not proved: its answer is a function of the two
/// arguments alone, named [`bcrypt_verify_outcome`]; which error a malformed
/// hash gives is left unsaid.
#[verifier::external_body]
fn verify_password(password: &str, hash: &str) -> (r: Result<bool, BcryptError>)
    ensures
        match r {
            Ok(b) => bcrypt_verify_outcome(password@, hash@) == Some(b),
            Err(_) => bcrypt_verify_outcome(password@, hash@) is None,
        },
{
    bcrypt::verify(password, hash)
}

/// How a request to create an account named `username` ends, given what
/// hashing its password gave.
pub open spec fn registration(username: String, hashed: Result<String, BcryptError>) -> Result<NewAccount, Error> {
    match hashed {
        Ok(h) => Ok(NewAccount { name: username, passhash: h }),
        Err(e) => Err(Error::BcryptError(e)),
    }
}

/// Creating an account fails exactly when hashing its password failed, and
/// then with hashing's own error; otherwise the account is stored under the
/// requested name with exactly the hash that came back.
pub proof fn lemma_registration_fails_only_on_hashing(username: String, hashed: Result<String, BcryptError>)
    ensures
        registration(username, hashed) is Err <==> hashed is Err,
        hashed matches Err(e) ==> registration(username, hashed) == Err::<NewAccount, Error>(Error::BcryptError(e)),
        hashed matches Ok(h) ==> (registration(username, hashed) matches Ok(a) && a.name == username && a.passhash == h),
{
}

/// The row of a new account named `username`, given what hashing its
/// password gave: the hash is stored; a failed hashing fails the request.
pub fn account_row(username: String, hashed: Result<String, BcryptError>) -> (r: Result<NewAccount, Error>)
    ensures
        r == registration(username, hashed),
        match hashed {
            Ok(h) => r == Ok::<NewAccount, Error>(NewAccount { name: username, passhash: h }),
            Err(e) => r == Err::<NewAccount, Error>(Error::BcryptError(e)),
        },
{
    match hashed {
        Ok(h) => Ok(NewAccount { name: username, passhash: h }),
        Err(e) => Err(Error::BcryptError(e)),
    }
}

/// Answers a request to create an account: the password is hashed with
/// bcrypt at [`PASSWORD_COST`], and the account is stored under the
/// requested name with that hash, which records the cost in its prefix
/// `$2b$10$`. Only hashing can fail.
pub fn users_post(query: UserPostQuery) -> (r: Result<NewAccount, Error>)
    ensures
        r matches Ok(account) ==> {
            &&& account.name == query.username
            &&& password_matches(query.password@, account.passhash@)
            &&& account.passhash@.len() == 60
            &&& account.passhash@.take(7) == hash_prefix(PASSWORD_COST as int)
            &&& account.passhash@.take(7) == seq!['$', '2', 'b', '$', '1', '0', '$']
        },
        r matches Err(e) ==> e is BcryptError,
{
    let hashed = hash_password(query.password.as_str(), PASSWORD_COST);
    assert(hash_prefix(PASSWORD_COST as int) =~= seq!['$', '2', 'b', '$', '1', '0', '$']);
    account_row(query.username, hashed)
}

/// The character of decimal digit `d`.
pub open spec fn digit_char(d: int) -> char
    recommends
        0 <= d < 10,
{
    seq!['0', '1', '2', '3', '4', '5', '6', '7', '8', '9'][d]
}

/// The decimal digits of `n`, most significant first, without leading zeros.
pub open spec fn decimal_digits(n: nat) -> Seq<char>
    decreases n,
{
    if n < 10 {
        seq![digit_char(n as int)]
    } else {
        decimal_digits(n / 10).push(digit_char((n % 10) as int))
    }
}

/// `n` written in decimal, with a leading minus sign when it is negative.
pub open spec fn decimal(n: int) -> Seq<char> {
    if n < 0 {
        seq!['-'] + decimal_digits((-n) as nat)
    } else {
        decimal_digits(n as nat)
    }
}

/// The one-character text of decimal digit `d`.
fn digit_text(d: u64) -> (t: &'static str)
    requires
        d < 10,
    ensures
        t@ == seq![digit_char(d as int)],
{
    proof {
        reveal_strlit("0");
        reveal_strlit("1");
        reveal_strlit("2");
        reveal_strlit("3");
        reveal_strlit("4");
        reveal_strlit("5");
        reveal_strlit("6");
        reveal_strlit("7");
        reveal_strlit("8");
        reveal_strlit("9");
    }
    let t = if d == 0 {
        "0"
    } else if d == 1 {
        "1"
    } else if d == 2 {
        "2"
    } else if d == 3 {
        "3"
    } else if d == 4 {
        "4"
    } else if d == 5 {
        "5"
    } else if d == 6 {
        "6"
    } else if d == 7 {
        "7"
    } else if d == 8 {
        "8"
    } else {
        "9"
    };
    assert(t@ =~= seq![digit_char(d as int)]);
    t
}

/// `n` written in decimal, as a cookie carries it.
pub fn decimal_text(n: i32) -> (s: String)
    ensures
        s@ == decimal(n as int),
{
    let wide = n as i64;
    let magnitude: u64 = if wide < 0 { (-wide) as u64 } else { wide as u64 };
    let ghost whole = magnitude as nat;
    let mut m = magnitude;
    let mut s = String::new();
    while m >= 10
        invariant
            decimal_digits(whole) == decimal_digits(m as nat) + s@,
        decreases m,
    {
        let d = m % 10;
        let ghost before = s@;
        s = String::from_str(digit_text(d)).concat(s.as_str());
        assert(decimal_digits(m as nat) == decimal_digits((m / 10) as nat).push(digit_char(d as int)));
        assert(decimal_digits((m / 10) as nat) + s@ =~= decimal_digits(m as nat) + before);
        m = m / 10;
    }
    let ghost before = s@;
    s = String::from_str(digit_text(m)).concat(s.as_str());
    assert(s@ =~= decimal_digits(m as nat) + before);
    if n < 0 {
        proof {
            reveal_strlit("-");
        }
        s = String::from_str("-").concat(s.as_str());
    }
    s
}

/// A refused login: the message that is answered.
pub open spec fn is_refusal(r: Result<Login, Error>) -> bool {
    r matches Err(Error::Forbidden(m)) && m@ == "Incorrect password."@
}

/// A granted login into account `id`: the cookie `user_id` carries the id
/// in decimal.
pub open spec fn is_grant(r: Result<Login, Error>, id: i32) -> bool {
    r matches Ok(login) && {
        &&& login.user_id == id
        &&& login.cookie_name@ == "user_id"@
        &&& login.cookie_value@ == decimal(id as int)
    }
}

/// The outcome of a login into account `id`, given what checking the
/// password gave: `None` when the account has no password hash, otherwise
/// bcrypt's answer. A checked and matching password is granted; a failed
/// check fails the request with bcrypt's error; anything else is refused.
pub fn login_decision(id: i32, checked: Option<Result<bool, BcryptError>>) -> (r: Result<Login, Error>)
    ensures
        match checked {
            Some(Ok(true)) => is_grant(r, id),
            Some(Err(e)) => r == Err::<Login, Error>(Error::BcryptError(e)),
            _ => is_refusal(r),
        },
{
    let correct = match checked {
        Some(Ok(b)) => b,
        Some(Err(e)) => {
            return Err(Error::BcryptError(e));
        },
        None => false,
    };
    if !correct {
        return Err(Error::Forbidden("Incorrect password.".to_owned()));
    }
    Ok(Login { user_id: id, cookie_name: "user_id".to_owned(), cookie_value: decimal_text(id) })
}

/// The view of a stored password hash.
pub open spec fn stored_hash(passhash: Option<String>) -> Option<Seq<char>> {
    match passhash {
        Some(h) => Some(h@),
        None => None,
    }
}

/// How a login with `password` into account `id`, whose stored hash is
/// `passhash`, is answered: granted when the password passes bcrypt's
/// check, refused when it does not or when there is no hash, failed with
/// bcrypt's error when the hash cannot be checked.
pub open spec fn login_answer(password: Seq<char>, passhash: Option<Seq<char>>, id: i32, r: Result<Login, Error>) -> bool {
    match passhash {
        None => is_refusal(r),
        Some(h) => match bcrypt_verify_outcome(password, h) {
            Some(true) => is_grant(r, id),
            Some(false) => is_refusal(r),
            None => r matches Err(Error::BcryptError(_)),
        },
    }
}

/// Answers a request to log into `account` with `password`: the password
/// is checked with bcrypt against the account's hash. It is granted when it
/// passes, refused when it does not or when the account has no hash, and
/// the request fails when the hash cannot be checked.
pub fn logins_post(password: &str, account: AccountLogin) -> (r: Result<Login, Error>)
    ensures
        login_answer(password@, stored_hash(account.passhash), account.id, r),
{
    let checked = match account.passhash {
        Some(hash) => Some(verify_password(password, hash.as_str())),
        None => None,
    };
    login_decision(account.id, checked)
}

/// An account created with a password can be logged into with that same
/// password: the hash that [`users_post`] stores passes the check that
/// [`logins_post`] makes, so the login is granted, with a cookie that
/// carries the account's id.
pub proof fn lemma_registered_password_logs_in(
    password: Seq<char>,
    passhash: Seq<char>,
    id: i32,
    r: Result<Login, Error>,
)
    requires
        password_matches(password, passhash),
        login_answer(password, Some(passhash), id, r),
    ensures
        is_grant(r, id),
{
}

/// An account without a password hash cannot be logged into, whatever the
/// password.
pub proof fn lemma_no_hash_no_login(password: Seq<char>, id: i32, r: Result<Login, Error>)
    requires
        login_answer(password, None, id, r),
    ensures
        is_refusal(r),
{
}

} // verus!
