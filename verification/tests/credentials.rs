use nxcloud::credentials::{Credentials, CredentialsError, Password, Server, Username};

#[test]
fn url_no_base() {
    let creds = Credentials::parse("username", "password", "www.example.com");
    assert!(creds.is_ok());
}

#[test]
fn scheme_is_defaulted_and_forced() {
    // No scheme: https is prepended; the serialized form is not the
    // input text handed back.
    let creds = Credentials::parse("u", "p", "cloud.example.com").unwrap();
    assert_eq!(creds.server.as_str(), "https://cloud.example.com/");

    // An http scheme is kept for parsing but forced to https.
    let creds = Credentials::parse("u", "p", "http://cloud.example.com").unwrap();
    assert_eq!(creds.server.as_str(), "https://cloud.example.com/");

    let creds = Credentials::parse("u", "p", "https://cloud.example.com").unwrap();
    assert_eq!(creds.server.as_str(), "https://cloud.example.com/");
}

#[test]
fn invalid_url_rejected() {
    assert!(matches!(
        Credentials::parse("u", "p", "http://"),
        Err(CredentialsError::InvalidUrl)
    ));
    assert!(matches!(
        Server::parse("not a url at all \u{7f}"),
        Err(CredentialsError::InvalidUrl)
    ));
}

#[test]
fn parts_kept_verbatim() {
    let creds = Credentials::parse("someone", "secret word", "https://host.example").unwrap();
    assert_eq!(creds.username.as_str(), "someone");
    assert_eq!(creds.password.as_str(), "secret word");

    let user = Username::new("name".to_string());
    assert_eq!(user.as_str(), "name");
    let pass = Password::new("pw".to_string());
    assert_eq!(pass.as_str(), "pw");
}
