use echonet::credentials::{CredentialError, Credentials, PASSWORD_CAPACITY, SSID_CAPACITY};

#[test]
fn capacities_are_those_of_the_wireless_configuration() {
    assert_eq!(SSID_CAPACITY, 32);
    assert_eq!(PASSWORD_CAPACITY, 64);
}

#[test]
fn credentials_keep_their_text() {
    let made = Credentials::new("workshop", "correct horse").ok().unwrap();
    assert_eq!(made.ssid().as_str(), "workshop");
    assert_eq!(made.password().as_str(), "correct horse");
    let (ssid, password) = made.into_parts();
    assert_eq!(ssid.as_str(), "workshop");
    assert_eq!(password.as_str(), "correct horse");
}

#[test]
fn empty_credentials_are_accepted() {
    let made = Credentials::new("", "").ok().unwrap();
    assert_eq!(made.ssid().as_str(), "");
    assert_eq!(made.password().as_str(), "");
}

#[test]
fn credentials_at_capacity_are_accepted() {
    let ssid = "s".repeat(32);
    let password = "p".repeat(64);
    let made = Credentials::new(&ssid, &password).ok().unwrap();
    assert_eq!(made.ssid().as_str(), ssid);
    assert_eq!(made.password().as_str(), password);
}

#[test]
fn ssid_over_capacity_is_refused() {
    let ssid = "s".repeat(33);
    assert_eq!(Credentials::new(&ssid, "p").err(), Some(CredentialError::SsidTooLong));
}

#[test]
fn password_over_capacity_is_refused() {
    let password = "p".repeat(65);
    assert_eq!(Credentials::new("s", &password).err(), Some(CredentialError::PasswordTooLong));
}

#[test]
fn ssid_is_reported_before_password() {
    let ssid = "s".repeat(40);
    let password = "p".repeat(70);
    assert_eq!(Credentials::new(&ssid, &password).err(), Some(CredentialError::SsidTooLong));
}

#[test]
fn capacity_counts_bytes_not_characters() {
    // eleven three-byte characters take 33 bytes
    let wide = "\u{20ac}".repeat(11);
    assert_eq!(wide.chars().count(), 11);
    assert_eq!(Credentials::new(&wide, "").err(), Some(CredentialError::SsidTooLong));
    // ten of them, and two one-byte characters, take 32
    let fits = format!("{}ab", "\u{20ac}".repeat(10));
    let made = Credentials::new(&fits, &wide).ok().unwrap();
    assert_eq!(made.ssid().as_str(), fits);
    assert_eq!(made.password().as_str(), wide);
}
