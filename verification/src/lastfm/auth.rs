//! Identities, tokens and session keys of the Last.fm API, and the signatures that
//! authenticate requests.
use vstd::prelude::*;
use crate::text::{ascii_str, ascii_text, bytes_of};

verus! {

/// The MD5 digest of `data`.
pub uninterp spec fn md5_digest(data: Seq<u8>) -> Seq<u8>;

/// `md5::compute`: the MD5 digest of `data`.
#[verifier::external_body]
fn md5_compute(data: &[u8]) -> (r: [u8; 16])
    ensures
        r@ == md5_digest(data@),
{
    md5::compute(data).0
}

/// Whether a byte is a lowercase hexadecimal digit.
pub open spec fn is_lower_hex(c: u8) -> bool {
    (48 <= c <= 57) || (97 <= c <= 102)
}

/// The lowercase hexadecimal digit of `n`, below sixteen.
pub open spec fn hex_digit(n: u8) -> u8 {
    if n < 10 { (48 + n) as u8 } else { (87 + n) as u8 }
}

/// Bytes in lowercase hexadecimal, two digits each, high digit first.
pub open spec fn lower_hex(d: Seq<u8>) -> Seq<u8> {
    Seq::new(2 * d.len(), |i: int| if i % 2 == 0 { hex_digit(d[i / 2] / 16) } else { hex_digit(d[i / 2] % 16) })
}

/// Why text is not thirty-two ASCII characters.
#[derive(Debug, Clone, Copy, PartialEq, Eq, Structural)]
pub enum InvalidThirtyTwoCharacterAsciiStringError {
    InvalidLength(usize),
    NotAscii,
}

/// Why text is not thirty-two lowercase hexadecimal digits.
#[derive(Debug, Clone, Copy, PartialEq, Eq, Structural)]
pub enum InvalidThirtyTwoCharactersLowercaseHexAsciiStringError {
    InvalidLength(usize),
    /// The first byte that is not a lowercase hexadecimal digit.
    BadCharacter(u8),
}

/// The index of the first byte from `i` on that is not a lowercase hexadecimal digit.
pub open spec fn first_non_hex(b: Seq<u8>, i: int) -> Option<int>
    decreases b.len() - i,
{
    if i < 0 || i >= b.len() {
        None
    } else if !is_lower_hex(b[i]) {
        Some(i)
    } else {
        first_non_hex(b, i + 1)
    }
}

/// Why `b` is not thirty-two lowercase hexadecimal digits, if it is not.
pub open spec fn hex32_error(b: Seq<u8>) -> Option<InvalidThirtyTwoCharactersLowercaseHexAsciiStringError> {
    if b.len() != 32 {
        Some(InvalidThirtyTwoCharactersLowercaseHexAsciiStringError::InvalidLength(b.len() as usize))
    } else {
        match first_non_hex(b, 0) {
            Some(i) => Some(InvalidThirtyTwoCharactersLowercaseHexAsciiStringError::BadCharacter(b[i])),
            None => None,
        }
    }
}

/// Thirty-two ASCII characters.
#[derive(Debug, Clone, Copy, PartialEq, Eq)]
pub struct ThirtyTwoCharacterAsciiString([u8; 32]);

impl View for ThirtyTwoCharacterAsciiString {
    type V = Seq<u8>;

    closed spec fn view(&self) -> Seq<u8> {
        self.0@
    }
}

impl ThirtyTwoCharacterAsciiString {
    #[verifier::type_invariant]
    spec fn ascii(self) -> bool {
        forall|i: int| 0 <= i < 32 ==> #[trigger] self.0@[i] < 128
    }

    /// The text, if it is thirty-two ASCII characters.
    pub fn new(str: &str) -> (r: Result<Self, InvalidThirtyTwoCharacterAsciiStringError>)
        ensures
            bytes_of(str).len() != 32 ==> r == Err::<Self, InvalidThirtyTwoCharacterAsciiStringError>(
                InvalidThirtyTwoCharacterAsciiStringError::InvalidLength(bytes_of(str).len() as usize),
            ),
            bytes_of(str).len() == 32 ==> ((forall|i: int| 0 <= i < 32 ==> #[trigger] bytes_of(str)[i] < 128) <==> r is Ok),
            r matches Ok(s) ==> s@ == bytes_of(str),
            bytes_of(str).len() == 32 && !(forall|i: int| 0 <= i < 32 ==> #[trigger] bytes_of(str)[i] < 128)
                ==> r == Err::<Self, InvalidThirtyTwoCharacterAsciiStringError>(InvalidThirtyTwoCharacterAsciiStringError::NotAscii),
    {
        let b = str.as_bytes();
        if b.len() != 32 {
            return Err(InvalidThirtyTwoCharacterAsciiStringError::InvalidLength(b.len()));
        }
        let mut bytes = [0u8; 32];
        let mut i: usize = 0;
        while i < 32
            invariant
                b@ == bytes_of(str),
                b@.len() == 32,
                i <= 32,
                bytes@.len() == 32,
                forall|j: int| 0 <= j < i ==> bytes@[j] == b@[j] && #[trigger] b@[j] < 128,
            decreases 32 - i,
        {
            if b[i] >= 128 {
                return Err(InvalidThirtyTwoCharacterAsciiStringError::NotAscii);
            }
            bytes.set(i, b[i]);
            i = i + 1;
        }
        assert(bytes@ =~= b@);
        Ok(ThirtyTwoCharacterAsciiString(bytes))
    }

    /// The text.
    pub fn as_str(&self) -> (r: &str)
        ensures
            bytes_of(r) == self@,
            r@ == ascii_text(self@),
    {
        proof { use_type_invariant(self); }
        ascii_str(self.0.as_slice())
    }
}

/// Thirty-two lowercase hexadecimal digits.
#[derive(Debug, Clone, Copy, PartialEq, Eq)]
pub struct ThirtyTwoCharactersLowercaseHexAsciiString([u8; 32]);

impl View for ThirtyTwoCharactersLowercaseHexAsciiString {
    type V = Seq<u8>;

    closed spec fn view(&self) -> Seq<u8> {
        self.0@
    }
}

impl ThirtyTwoCharactersLowercaseHexAsciiString {
    #[verifier::type_invariant]
    spec fn hex(self) -> bool {
        forall|i: int| 0 <= i < 32 ==> is_lower_hex(#[trigger] self.0@[i])
    }

    /// The text, if it is thirty-two lowercase hexadecimal digits.
    pub fn new(str: &str) -> (r: Result<Self, InvalidThirtyTwoCharactersLowercaseHexAsciiStringError>)
        ensures
            bytes_of(str).len() != 32 ==> r == Err::<Self, InvalidThirtyTwoCharactersLowercaseHexAsciiStringError>(
                InvalidThirtyTwoCharactersLowercaseHexAsciiStringError::InvalidLength(bytes_of(str).len() as usize),
            ),
            bytes_of(str).len() == 32 ==> ((forall|i: int| 0 <= i < 32 ==> is_lower_hex(#[trigger] bytes_of(str)[i])) <==> r is Ok),
            r matches Ok(s) ==> s@ == bytes_of(str),
            r matches Err(e) ==> hex32_error(bytes_of(str)) == Some(e),
            r is Ok <==> hex32_error(bytes_of(str)) is None,
    {
        let b = str.as_bytes();
        if b.len() != 32 {
            return Err(InvalidThirtyTwoCharactersLowercaseHexAsciiStringError::InvalidLength(b.len()));
        }
        let mut bytes = [0u8; 32];
        let mut i: usize = 0;
        while i < 32
            invariant
                b@ == bytes_of(str),
                b@.len() == 32,
                i <= 32,
                bytes@.len() == 32,
                forall|j: int| 0 <= j < i ==> bytes@[j] == b@[j] && is_lower_hex(#[trigger] b@[j]),
                first_non_hex(b@, 0) == first_non_hex(b@, i as int),
            decreases 32 - i,
        {
            let c = b[i];
            if !((48 <= c && c <= 57) || (97 <= c && c <= 102)) {
                return Err(InvalidThirtyTwoCharactersLowercaseHexAsciiStringError::BadCharacter(c));
            }
            bytes.set(i, c);
            i = i + 1;
        }
        assert(bytes@ =~= b@);
        assert(first_non_hex(b@, 32) is None);
        Ok(ThirtyTwoCharactersLowercaseHexAsciiString(bytes))
    }

    /// The digits of the MD5 digest of `data`, in lowercase hexadecimal.
    pub fn md5_of(data: &[u8]) -> (r: Self)
        ensures
            r@ == lower_hex(md5_digest(data@)),
    {
        let d = md5_compute(data);
        let mut bytes = [0u8; 32];
        let mut i: usize = 0;
        while i < 16
            invariant
                i <= 16,
                bytes@.len() == 32,
                d@.len() == 16,
                forall|j: int| 0 <= j < 2 * i ==> #[trigger] bytes@[j] == lower_hex(d@)[j],
                forall|j: int| 0 <= j < 2 * i ==> is_lower_hex(#[trigger] bytes@[j]),
                forall|j: int| 2 * i <= j < 32 ==> #[trigger] bytes@[j] == 0 || is_lower_hex(bytes@[j]),
            decreases 16 - i,
        {
            let hi = d[i] / 16;
            let lo = d[i] % 16;
            let h = if hi < 10 { 48 + hi } else { 87 + hi };
            let l = if lo < 10 { 48 + lo } else { 87 + lo };
            bytes.set(2 * i, h);
            bytes.set(2 * i + 1, l);
            i = i + 1;
        }
        proof {
            assert forall|j: int| 0 <= j < 32 implies is_lower_hex(#[trigger] bytes@[j]) by {}
            assert(bytes@ =~= lower_hex(d@));
        }
        ThirtyTwoCharactersLowercaseHexAsciiString(bytes)
    }

    /// The text.
    pub fn as_str(&self) -> (r: &str)
        ensures
            bytes_of(r) == self@,
            r@ == ascii_text(self@),
    {
        proof { use_type_invariant(self); }
        assert forall|i: int| 0 <= i < self@.len() implies #[trigger] self@[i] < 128 by {
            assert(is_lower_hex(self.0@[i]));
        }
        ascii_str(self.0.as_slice())
    }
}

/// Whether a client has been authorized by a user.
pub trait AuthorizationStatus {}

/// A client with a session key for a user.
pub struct Authorized;

/// A client that has no session key yet.
pub struct Unauthorized;

impl AuthorizationStatus for Authorized {}

impl AuthorizationStatus for Unauthorized {}

/// The root of the API.
pub const API_URL: &'static str = "https://ws.audioscrobbler.com/2.0/";

/// The identity of a program using the API: its key and secret, and its User-Agent.
#[derive(Debug, Clone)]
pub struct ClientIdentity {
    pub key: ThirtyTwoCharactersLowercaseHexAsciiString,
    pub secret: ThirtyTwoCharactersLowercaseHexAsciiString,
    pub user_agent: String,
}

impl ClientIdentity {
    /// The key's digits.
    pub open spec fn key_view(&self) -> Seq<u8> {
        self.key@
    }

    /// The secret's digits.
    pub open spec fn secret_view(&self) -> Seq<u8> {
        self.secret@
    }

    /// The identity with the given key and secret, each of which must be thirty-two
    /// lowercase hexadecimal digits; the key is checked first.
    pub fn new(user_agent: String, key: &str, secret: &str) -> (r: Result<Self, InvalidThirtyTwoCharactersLowercaseHexAsciiStringError>)
        ensures
            r matches Ok(id) ==> id.key_view() == bytes_of(key) && id.secret_view() == bytes_of(secret) && id.user_agent@ == user_agent@,
            r is Ok <==> hex32_error(bytes_of(key)) is None && hex32_error(bytes_of(secret)) is None,
            hex32_error(bytes_of(key)) matches Some(e) ==> r == Err::<Self, InvalidThirtyTwoCharactersLowercaseHexAsciiStringError>(e),
            hex32_error(bytes_of(key)) is None ==> (hex32_error(bytes_of(secret)) matches Some(e) ==> r == Err::<Self, InvalidThirtyTwoCharactersLowercaseHexAsciiStringError>(e)),
    {
        let key = ThirtyTwoCharactersLowercaseHexAsciiString::new(key)?;
        let secret = ThirtyTwoCharactersLowercaseHexAsciiString::new(secret)?;
        Ok(ClientIdentity { key, secret, user_agent })
    }

    /// The key.
    pub fn get_key(&self) -> (r: &str)
        ensures
            bytes_of(r) == self.key_view(),
    {
        self.key.as_str()
    }

    /// The secret.
    pub fn get_secret(&self) -> (r: &str)
        ensures
            bytes_of(r) == self.secret_view(),
    {
        self.secret.as_str()
    }

    /// The address that asks for an authorization token.
    /// - <https://www.last.fm/api/show/auth.getToken>
    pub fn authorization_token_url(&self) -> (r: String)
        ensures
            r@ == API_URL@ + "?method=auth.gettoken&api_key="@ + ascii_text(self.key_view()) + "&format=json"@,
    {
        let mut out = String::from_str(API_URL);
        out.append("?method=auth.gettoken&api_key=");
        out.append(self.key.as_str());
        out.append("&format=json");
        out
    }
}

/// A token that the user authorizes, to make a session key with.
#[derive(Debug, Clone, Copy)]
pub struct AuthorizationToken(pub ThirtyTwoCharacterAsciiString);

impl AuthorizationToken {
    /// The token's characters.
    pub open spec fn text(&self) -> Seq<u8> {
        self.0@
    }

    /// The token written in `str`, if it is thirty-two ASCII characters.
    pub fn new(str: &str) -> (r: Result<Self, InvalidThirtyTwoCharacterAsciiStringError>)
        ensures
            r matches Ok(t) ==> t.text() == bytes_of(str),
            r is Ok <==> bytes_of(str).len() == 32 && forall|i: int| 0 <= i < 32 ==> #[trigger] bytes_of(str)[i] < 128,
    {
        Ok(AuthorizationToken(ThirtyTwoCharacterAsciiString::new(str)?))
    }

    /// The token.
    pub fn as_str(&self) -> (r: &str)
        ensures
            bytes_of(r) == self.text(),
    {
        self.0.as_str()
    }

    /// The page where the user authorizes this token for the program.
    pub fn generate_authorization_url(&self, client: &ClientIdentity) -> (r: String)
        ensures
            r@ == "https://www.last.fm/api/auth/?api_key="@ + ascii_text(client.key_view()) + "&token="@ + ascii_text(self.text()),
    {
        let mut out = String::from_str("https://www.last.fm/api/auth/?api_key=");
        out.append(client.get_key_str());
        out.append("&token=");
        out.append(self.0.as_str());
        out
    }

    /// The text whose MD5 digest signs a request for a session key with this token.
    pub open spec fn session_signature_text(&self, client: &ClientIdentity) -> Seq<u8> {
        bytes_of("api_key") + client.key_view() + bytes_of("methodauth.getSessiontoken") + self.text() + client.secret_view()
    }

    /// The signature of a request for a session key with this token.
    /// - <https://www.last.fm/api/show/auth.getSession>
    pub fn session_signature(&self, client: &ClientIdentity) -> (r: ApiSignature)
        ensures
            r.0@ == lower_hex(md5_digest(self.session_signature_text(client))),
    {
        let mut text: Vec<u8> = Vec::new();
        append_bytes(&mut text, "api_key".as_bytes());
        append_bytes(&mut text, client.get_key_str().as_bytes());
        append_bytes(&mut text, "methodauth.getSessiontoken".as_bytes());
        append_bytes(&mut text, self.0.as_str().as_bytes());
        append_bytes(&mut text, client.get_secret_str().as_bytes());
        ApiSignature(ThirtyTwoCharactersLowercaseHexAsciiString::md5_of(text.as_slice()))
    }
}

impl ClientIdentity {
    /// The key, as text whose characters are its bytes.
    pub fn get_key_str(&self) -> (r: &str)
        ensures
            bytes_of(r) == self.key_view(),
            r@ == ascii_text(self.key_view()),
    {
        self.key.as_str()
    }

    /// The secret, as text whose characters are its bytes.
    pub fn get_secret_str(&self) -> (r: &str)
        ensures
            bytes_of(r) == self.secret_view(),
            r@ == ascii_text(self.secret_view()),
    {
        self.secret.as_str()
    }
}

/// A key that authenticates a session of an authorized user.
#[derive(Debug, Clone, Copy)]
pub struct SessionKey(pub ThirtyTwoCharacterAsciiString);

impl SessionKey {
    /// The key.
    pub fn as_str(&self) -> (r: &str)
        ensures
            bytes_of(r) == self.0@,
    {
        self.0.as_str()
    }
}

/// The signature of a request: the MD5 digest of its parameters and the secret.
#[derive(Debug, Clone, Copy)]
pub struct ApiSignature(pub ThirtyTwoCharactersLowercaseHexAsciiString);

impl ApiSignature {
    /// The signature's digits.
    pub fn as_str(&self) -> (r: &str)
        ensures
            bytes_of(r) == self.0@,
    {
        self.0.as_str()
    }
}

/// A user's name (or email) and password.
#[derive(Debug, Clone, Copy)]
pub struct AccountCredentials<'a> {
    pub username: &'a str,
    pub password: &'a str,
}

impl<'a> AccountCredentials<'a> {
    /// The text whose MD5 digest signs a request for a session key with these credentials.
    pub open spec fn session_signature_text(&self, client: &ClientIdentity) -> Seq<u8> {
        bytes_of("api_key") + client.key_view() + bytes_of("methodauth.getMobileSessionpassword") + bytes_of(self.password)
            + bytes_of("username") + bytes_of(self.username) + client.secret_view()
    }

    /// The signature of a request for a session key with these credentials.
    /// - <https://www.last.fm/api/show/auth.getMobileSession>
    pub fn session_signature(&self, client: &ClientIdentity) -> (r: ApiSignature)
        ensures
            r.0@ == lower_hex(md5_digest(self.session_signature_text(client))),
    {
        let mut text: Vec<u8> = Vec::new();
        append_bytes(&mut text, "api_key".as_bytes());
        append_bytes(&mut text, client.get_key_str().as_bytes());
        append_bytes(&mut text, "methodauth.getMobileSessionpassword".as_bytes());
        append_bytes(&mut text, self.password.as_bytes());
        append_bytes(&mut text, "username".as_bytes());
        append_bytes(&mut text, self.username.as_bytes());
        append_bytes(&mut text, client.get_secret_str().as_bytes());
        ApiSignature(ThirtyTwoCharactersLowercaseHexAsciiString::md5_of(text.as_slice()))
    }
}

/// Appends bytes.
pub fn append_bytes(out: &mut Vec<u8>, b: &[u8])
    ensures
        final(out)@ == old(out)@ + b@,
{
    let mut i: usize = 0;
    while i < b.len()
        invariant
            i <= b@.len(),
            out@ == old(out)@ + b@.take(i as int),
        decreases b@.len() - i,
    {
        out.push(b[i]);
        i = i + 1;
        assert(out@ =~= old(out)@ + b@.take(i as int));
    }
    assert(b@.take(b@.len() as int) =~= b@);
}

} // verus!
