use forest::account::{
    account_row, decimal_text, login_decision, logins_post, users_post, AccountLogin, UserPostQuery,
};
use forest::error::{ContentType, Error};

fn register(name: &str, password: &str) -> forest::account::NewAccount {
    users_post(UserPostQuery { username: name.to_string(), password: password.to_string() }).unwrap()
}

#[test]
fn registered_password_logs_in() {
    let account = register("ada", "hunter2");
    assert_eq!(account.name, "ada");
    assert_ne!(account.passhash, "hunter2");
    assert!(account.passhash.starts_with("$2b$10$"));
    assert_eq!(account.passhash.chars().count(), 60);
    let login = logins_post("hunter2", AccountLogin { id: 42, passhash: Some(account.passhash) }).unwrap();
    assert_eq!(login.user_id, 42);
    assert_eq!(login.cookie_name, "user_id");
    assert_eq!(login.cookie_value, "42");
}

#[test]
fn wrong_password_is_refused() {
    let account = register("bob", "right");
    match logins_post("wrong", AccountLogin { id: 1, passhash: Some(account.passhash) }) {
        Err(Error::Forbidden(m)) => assert_eq!(m, "Incorrect password."),
        other => panic!("unexpected {:?}", other),
    }
}

#[test]
fn account_without_hash_is_refused() {
    match logins_post("anything", AccountLogin { id: 1, passhash: None }) {
        Err(Error::Forbidden(m)) => assert_eq!(m, "Incorrect password."),
        other => panic!("unexpected {:?}", other),
    }
}

#[test]
fn malformed_hash_fails_with_bcrypt_error() {
    match logins_post("x", AccountLogin { id: 1, passhash: Some("not a hash".to_string()) }) {
        Err(Error::BcryptError(_)) => {},
        other => panic!("unexpected {:?}", other),
    }
}

#[test]
fn login_decision_cases() {
    let granted = login_decision(-7, Some(Ok(true))).unwrap();
    assert_eq!((granted.user_id, granted.cookie_value.as_str()), (-7, "-7"));
    assert!(matches!(login_decision(1, Some(Ok(false))), Err(Error::Forbidden(_))));
    assert!(matches!(login_decision(1, None), Err(Error::Forbidden(_))));
    let broken = bcrypt::verify("x", "nope").unwrap_err();
    assert!(matches!(login_decision(1, Some(Err(broken))), Err(Error::BcryptError(_))));
}

#[test]
fn account_row_cases() {
    let row = account_row("cy".to_string(), Ok("$hash".to_string())).unwrap();
    assert_eq!((row.name.as_str(), row.passhash.as_str()), ("cy", "$hash"));
    let broken = bcrypt::verify("x", "nope").unwrap_err();
    assert!(matches!(account_row("cy".to_string(), Err(broken)), Err(Error::BcryptError(_))));
}

#[test]
fn decimal_text_writes_ids() {
    assert_eq!(decimal_text(0), "0");
    assert_eq!(decimal_text(7), "7");
    assert_eq!(decimal_text(10), "10");
    assert_eq!(decimal_text(1234), "1234");
    assert_eq!(decimal_text(-45), "-45");
    assert_eq!(decimal_text(i32::MAX), "2147483647");
    assert_eq!(decimal_text(i32::MIN), "-2147483648");
}

#[test]
fn not_found_answers_404_with_its_message() {
    let r = Error::NotFound("No such tree".to_string()).respond_to().unwrap();
    assert_eq!(r.status, 404);
    assert_eq!(r.content_type, ContentType::Plain);
    assert_eq!(r.body, "No such tree");
}

#[test]
fn other_errors_answer_500() {
    assert_eq!(Error::PoolError("p".to_string()).respond_to().unwrap_err(), 500);
    assert_eq!(Error::DBError("d".to_string()).respond_to().unwrap_err(), 500);
    assert_eq!(Error::Internal("i".to_string()).respond_to().unwrap_err(), 500);
    assert_eq!(Error::Forbidden("f".to_string()).respond_to().unwrap_err(), 500);
    let broken = bcrypt::verify("x", "nope").unwrap_err();
    assert_eq!(Error::BcryptError(broken).respond_to().unwrap_err(), 500);
}
