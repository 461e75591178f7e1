//! The network credentials, held in the fixed-capacity strings the wireless
//! configuration takes: 32 bytes for the network name, 64 for the password.

use vstd::prelude::*;
use vstd::utf8::encode_utf8;

verus! {

/// Capacity of the network name, in bytes.
pub const SSID_CAPACITY: usize = 32;

/// Capacity of the password, in bytes.
pub const PASSWORD_CAPACITY: usize = 64;

/// `heapless::String`: a string of at most `N` bytes, held in place. Nothing
/// of its inside is visible here.
#[verifier::external_type_specification]
#[verifier::external_body]
pub struct ExFixedString<const N: usize>(heapless::String<N>);

/// The text held by a network-name buffer.
pub uninterp spec fn ssid_text(buffer: heapless::String<32>) -> Seq<char>;

/// The text held by a password buffer.
pub uninterp spec fn password_text(buffer: heapless::String<64>) -> Seq<char>;

/// Length of `text` in bytes once encoded as UTF-8.
pub open spec fn byte_len(text: Seq<char>) -> nat {
    encode_utf8(text).len()
}

/// `heapless::String::new` at capacity 32: the buffer it returns holds no
/// text.
#[verifier::external_body]
fn empty_ssid() -> (buffer: heapless::String<32>)
    ensures
        ssid_text(buffer) == Seq::<char>::empty(),
{
    heapless::String::new()
}

/// `heapless::String::push_str` at capacity 32: the text is appended if the
/// bytes already held and those of `text` fit in 32 together; otherwise the
/// buffer is left as it was. Returns whether the text was appended.
#[verifier::external_body]
fn push_ssid(buffer: &mut heapless::String<32>, text: &str) -> (fits: bool)
    ensures
        fits <==> byte_len(ssid_text(*old(buffer))) + byte_len(text@) <= 32,
        fits ==> ssid_text(*final(buffer)) == ssid_text(*old(buffer)) + text@,
        !fits ==> ssid_text(*final(buffer)) == ssid_text(*old(buffer)),
{
    buffer.push_str(text).is_ok()
}

/// `heapless::String::new` at capacity 64: the buffer it returns holds no
/// text.
#[verifier::external_body]
fn empty_password() -> (buffer: heapless::String<64>)
    ensures
        password_text(buffer) == Seq::<char>::empty(),
{
    heapless::String::new()
}

/// `heapless::String::push_str` at capacity 64: the text is appended if the
/// bytes already held and those of `text` fit in 64 together; otherwise the
/// buffer is left as it was. Returns whether the text was appended.
#[verifier::external_body]
fn push_password(buffer: &mut heapless::String<64>, text: &str) -> (fits: bool)
    ensures
        fits <==> byte_len(password_text(*old(buffer))) + byte_len(text@) <= 64,
        fits ==> password_text(*final(buffer)) == password_text(*old(buffer)) + text@,
        !fits ==> password_text(*final(buffer)) == password_text(*old(buffer)),
{
    buffer.push_str(text).is_ok()
}

/// Why a pair of credentials was refused.
#[derive(Clone, Copy, Debug, PartialEq, Eq)]
pub enum CredentialError {
    /// The network name takes more than 32 bytes.
    SsidTooLong,
    /// The password takes more than 64 bytes.
    PasswordTooLong,
}

/// A network name and a password that fit the wireless configuration.
pub struct Credentials {
    ssid: heapless::String<32>,
    password: heapless::String<64>,
}

impl Credentials {
    /// The network name.
    pub closed spec fn ssid_view(&self) -> Seq<char> {
        ssid_text(self.ssid)
    }

    /// The password.
    pub closed spec fn password_view(&self) -> Seq<char> {
        password_text(self.password)
    }

    /// Copies a network name and a password into fixed-capacity strings.
    /// A name that is too long is reported before a password that is.
    pub fn new(ssid: &str, password: &str) -> (made: Result<Credentials, CredentialError>)
        ensures
            made is Ok <==> byte_len(ssid@) <= SSID_CAPACITY && byte_len(password@)
                <= PASSWORD_CAPACITY,
            made == Err::<Credentials, CredentialError>(CredentialError::SsidTooLong) <==> byte_len(
                ssid@,
            ) > SSID_CAPACITY,
            made == Err::<Credentials, CredentialError>(CredentialError::PasswordTooLong)
                <==> byte_len(ssid@) <= SSID_CAPACITY && byte_len(password@) > PASSWORD_CAPACITY,
            made matches Ok(credentials) ==> credentials.ssid_view() == ssid@
                && credentials.password_view() == password@,
    {
        let mut name: heapless::String<32> = empty_ssid();
        let mut secret: heapless::String<64> = empty_password();
        assert(byte_len(Seq::<char>::empty()) == 0);
        if !push_ssid(&mut name, ssid) {
            return Err(CredentialError::SsidTooLong);
        }
        if !push_password(&mut secret, password) {
            return Err(CredentialError::PasswordTooLong);
        }
        assert(Seq::<char>::empty() + ssid@ =~= ssid@);
        assert(Seq::<char>::empty() + password@ =~= password@);
        Ok(Credentials { ssid: name, password: secret })
    }

    /// The network name, as the wireless configuration takes it.
    pub fn ssid(&self) -> (ssid: &heapless::String<32>)
        ensures
            ssid_text(*ssid) == self.ssid_view(),
    {
        &self.ssid
    }

    /// The password, as the wireless configuration takes it.
    pub fn password(&self) -> (password: &heapless::String<64>)
        ensures
            password_text(*password) == self.password_view(),
    {
        &self.password
    }

    /// Hands out the network name and the password.
    pub fn into_parts(self) -> (parts: (heapless::String<32>, heapless::String<64>))
        ensures
            ssid_text(parts.0) == self.ssid_view(),
            password_text(parts.1) == self.password_view(),
    {
        (self.ssid, self.password)
    }
}

} // verus!
