//! The error codes of the Last.fm API, and what each endpoint's own codes mean.
//! Station codes are left out: stations no longer exist.
//! - <https://www.last.fm/api/errorcodes>
use vstd::prelude::*;

verus! {

/// A code that names no error this library knows.
#[derive(Debug, Clone, Copy, PartialEq, Eq, Structural)]
pub struct UnmappedErrorCode {
    /// The code that was not recognized.
    pub code: u8,
}

impl UnmappedErrorCode {
    /// The error's message, with the code in decimal.
    pub fn to_string(&self) -> (r: String)
        ensures
            r@ == "unmapped response error code: "@ + crate::num::decimal(self.code as nat),
    {
        let mut out = String::from_str("unmapped response error code: ");
        crate::num::push_decimal(self.code as u64, &mut out);
        out
    }
}

/// Errors that mean the Last.fm service is unavailable.
#[derive(Debug, Clone, Copy, PartialEq, Eq, Structural)]
pub enum ServiceAvailability {
    /// Most likely the backend service failed.
    OperationFailed,
    /// This service is temporarily offline.
    ServiceOffline,
    /// There was a temporary error processing the request.
    TemporaryError,
}

impl ServiceAvailability {
    /// The code the API gives.
    pub open spec fn code(self) -> u8 {
        match self {
            ServiceAvailability::OperationFailed => 8,
            ServiceAvailability::ServiceOffline => 11,
            ServiceAvailability::TemporaryError => 16,
        }
    }

    /// The code the API gives.
    pub fn to_u8(self) -> (r: u8)
        ensures
            r == self.code(),
    {
        match self {
            ServiceAvailability::OperationFailed => 8,
            ServiceAvailability::ServiceOffline => 11,
            ServiceAvailability::TemporaryError => 16,
        }
    }

    /// The error the API means by `value`.
    pub fn try_from(value: u8) -> (r: Result<Self, UnmappedErrorCode>)
        ensures
            r matches Ok(v) ==> v.code() == value,
            r matches Err(e) ==> e.code == value && forall|v: Self| #[trigger] v.code() != value,
    {
        match value {
            8 => Ok(ServiceAvailability::OperationFailed),
            11 => Ok(ServiceAvailability::ServiceOffline),
            16 => Ok(ServiceAvailability::TemporaryError),
            _ => Err(UnmappedErrorCode { code: value }),
        }
    }

    /// The error's message.
    pub open spec fn message(self) -> Seq<char> {
        match self {
            ServiceAvailability::OperationFailed => "operation failed; please try again"@,
            ServiceAvailability::ServiceOffline => "service offline"@,
            ServiceAvailability::TemporaryError => "temporarily unavailable"@,
        }
    }

    /// The error's message.
    pub fn to_string(&self) -> (r: String)
        ensures
            r@ == self.message(),
    {
        match self {
            ServiceAvailability::OperationFailed => String::from_str("operation failed; please try again"),
            ServiceAvailability::ServiceOffline => String::from_str("service offline"),
            ServiceAvailability::TemporaryError => String::from_str("temporarily unavailable"),
        }
    }
}

/// Errors of authentication or authorization.
#[derive(Debug, Clone, Copy, PartialEq, Eq, Structural)]
pub enum Authentication {
    /// The service may not be accessed with these permissions.
    AuthenticationFailed,
    /// The session key is not valid; authenticate again.
    InvalidSessionKey,
    /// The API key was not granted by Last.fm.
    InvalidApiKey,
    /// Access for the account has been suspended.
    SuspendedApiKey,
}

impl Authentication {
    /// The code the API gives.
    pub open spec fn code(self) -> u8 {
        match self {
            Authentication::AuthenticationFailed => 4,
            Authentication::InvalidSessionKey => 9,
            Authentication::InvalidApiKey => 10,
            Authentication::SuspendedApiKey => 26,
        }
    }

    /// The code the API gives.
    pub fn to_u8(self) -> (r: u8)
        ensures
            r == self.code(),
    {
        match self {
            Authentication::AuthenticationFailed => 4,
            Authentication::InvalidSessionKey => 9,
            Authentication::InvalidApiKey => 10,
            Authentication::SuspendedApiKey => 26,
        }
    }

    /// The error the API means by `value`.
    pub fn try_from(value: u8) -> (r: Result<Self, UnmappedErrorCode>)
        ensures
            r matches Ok(v) ==> v.code() == value,
            r matches Err(e) ==> e.code == value && forall|v: Self| #[trigger] v.code() != value,
    {
        match value {
            4 => Ok(Authentication::AuthenticationFailed),
            9 => Ok(Authentication::InvalidSessionKey),
            10 => Ok(Authentication::InvalidApiKey),
            26 => Ok(Authentication::SuspendedApiKey),
            _ => Err(UnmappedErrorCode { code: value }),
        }
    }

    /// The error's message.
    pub open spec fn message(self) -> Seq<char> {
        match self {
            Authentication::AuthenticationFailed => "authentication failed; lacking permissions"@,
            Authentication::InvalidSessionKey => "invalid session key"@,
            Authentication::InvalidApiKey => "invalid API key"@,
            Authentication::SuspendedApiKey => "suspended API key"@,
        }
    }

    /// The error's message.
    pub fn to_string(&self) -> (r: String)
        ensures
            r@ == self.message(),
    {
        match self {
            Authentication::AuthenticationFailed => String::from_str("authentication failed; lacking permissions"),
            Authentication::InvalidSessionKey => String::from_str("invalid session key"),
            Authentication::InvalidApiKey => String::from_str("invalid API key"),
            Authentication::SuspendedApiKey => String::from_str("suspended API key"),
        }
    }
}

/// Errors that mean the API was called wrongly by this library.
#[derive(Debug, Clone, Copy, PartialEq, Eq, Structural)]
pub enum InvalidUsage {
    /// The service does not exist.
    InvalidService,
    /// No method with that name in this package.
    InvalidMethod,
    /// This service does not exist in that format.
    InvalidFormat,
    /// The request is missing a required parameter.
    InvalidParameters,
    /// Invalid resource specified.
    InvalidResource,
    /// Invalid method signature supplied.
    InvalidMethodSignature,
    /// This type of request is no longer supported.
    Deprecated,
}

impl InvalidUsage {
    /// The code the API gives.
    pub open spec fn code(self) -> u8 {
        match self {
            InvalidUsage::InvalidService => 2,
            InvalidUsage::InvalidMethod => 3,
            InvalidUsage::InvalidFormat => 5,
            InvalidUsage::InvalidParameters => 6,
            InvalidUsage::InvalidResource => 7,
            InvalidUsage::InvalidMethodSignature => 13,
            InvalidUsage::Deprecated => 27,
        }
    }

    /// The code the API gives.
    pub fn to_u8(self) -> (r: u8)
        ensures
            r == self.code(),
    {
        match self {
            InvalidUsage::InvalidService => 2,
            InvalidUsage::InvalidMethod => 3,
            InvalidUsage::InvalidFormat => 5,
            InvalidUsage::InvalidParameters => 6,
            InvalidUsage::InvalidResource => 7,
            InvalidUsage::InvalidMethodSignature => 13,
            InvalidUsage::Deprecated => 27,
        }
    }

    /// The error the API means by `value`.
    pub fn try_from(value: u8) -> (r: Result<Self, UnmappedErrorCode>)
        ensures
            r matches Ok(v) ==> v.code() == value,
            r matches Err(e) ==> e.code == value && forall|v: Self| #[trigger] v.code() != value,
    {
        match value {
            2 => Ok(InvalidUsage::InvalidService),
            3 => Ok(InvalidUsage::InvalidMethod),
            5 => Ok(InvalidUsage::InvalidFormat),
            6 => Ok(InvalidUsage::InvalidParameters),
            7 => Ok(InvalidUsage::InvalidResource),
            13 => Ok(InvalidUsage::InvalidMethodSignature),
            27 => Ok(InvalidUsage::Deprecated),
            _ => Err(UnmappedErrorCode { code: value }),
        }
    }

    /// The error's message.
    pub open spec fn message(self) -> Seq<char> {
        match self {
            InvalidUsage::InvalidService => "invalid service"@,
            InvalidUsage::InvalidMethod => "invalid method"@,
            InvalidUsage::InvalidFormat => "invalid format"@,
            InvalidUsage::InvalidParameters => "invalid parameters"@,
            InvalidUsage::InvalidResource => "invalid resource"@,
            InvalidUsage::InvalidMethodSignature => "invalid method signature"@,
            InvalidUsage::Deprecated => "deprecated"@,
        }
    }

    /// The error's message.
    pub fn to_string(&self) -> (r: String)
        ensures
            r@ == self.message(),
    {
        match self {
            InvalidUsage::InvalidService => String::from_str("invalid service"),
            InvalidUsage::InvalidMethod => String::from_str("invalid method"),
            InvalidUsage::InvalidFormat => String::from_str("invalid format"),
            InvalidUsage::InvalidParameters => String::from_str("invalid parameters"),
            InvalidUsage::InvalidResource => String::from_str("invalid resource"),
            InvalidUsage::InvalidMethodSignature => String::from_str("invalid method signature"),
            InvalidUsage::Deprecated => String::from_str("deprecated"),
        }
    }
}

/// The general error codes of the API, for any endpoint.
#[derive(Debug, Clone, Copy, PartialEq, Eq, Structural)]
pub enum GeneralErrorCode {
    ServiceAvailability(ServiceAvailability),
    Authentication(Authentication),
    InvalidUsage(InvalidUsage),
    /// The address made too many requests in a short time.
    RateLimitExceeded,
}

impl GeneralErrorCode {
    /// The code the API gives.
    pub open spec fn code(self) -> u8 {
        match self {
            GeneralErrorCode::ServiceAvailability(c) => c.code(),
            GeneralErrorCode::Authentication(c) => c.code(),
            GeneralErrorCode::InvalidUsage(c) => c.code(),
            GeneralErrorCode::RateLimitExceeded => 29,
        }
    }

    /// The code the API gives.
    pub fn to_u8(self) -> (r: u8)
        ensures
            r == self.code(),
    {
        match self {
            GeneralErrorCode::ServiceAvailability(c) => c.to_u8(),
            GeneralErrorCode::Authentication(c) => c.to_u8(),
            GeneralErrorCode::InvalidUsage(c) => c.to_u8(),
            GeneralErrorCode::RateLimitExceeded => 29,
        }
    }

    /// The general error the API means by `code`.
    pub fn try_from(code: u8) -> (r: Result<Self, UnmappedErrorCode>)
        ensures
            r matches Ok(v) ==> v.code() == code,
            r matches Err(e) ==> e.code == code && forall|v: Self| #[trigger] v.code() != code,
    {
        if let Ok(c) = ServiceAvailability::try_from(code) {
            return Ok(GeneralErrorCode::ServiceAvailability(c));
        }
        if let Ok(c) = Authentication::try_from(code) {
            return Ok(GeneralErrorCode::Authentication(c));
        }
        if let Ok(c) = InvalidUsage::try_from(code) {
            return Ok(GeneralErrorCode::InvalidUsage(c));
        }
        if code == 29 {
            return Ok(GeneralErrorCode::RateLimitExceeded);
        }
        proof {
            assert forall|v: Self| #[trigger] v.code() != code by {
                match v {
                    GeneralErrorCode::ServiceAvailability(c) => { assert(c.code() != code); },
                    GeneralErrorCode::Authentication(c) => { assert(c.code() != code); },
                    GeneralErrorCode::InvalidUsage(c) => { assert(c.code() != code); },
                    GeneralErrorCode::RateLimitExceeded => {},
                }
            }
        }
        Err(UnmappedErrorCode { code })
    }
}

/// No two general errors share a code, so reading back the code of an error gives it again.
pub proof fn law_general_code_roundtrip(a: GeneralErrorCode, b: GeneralErrorCode)
    ensures
        a.code() == b.code() ==> a == b,
{
}

/// The errors carry Last.fm's error numbers: 2 invalid service, 3 invalid method, 4 failed
/// authentication, 5 invalid format, 6 invalid parameters, 7 invalid resource, 8 operation
/// failed, 9 invalid session key, 10 invalid API key, 11 service offline, 13 invalid method
/// signature, 16 temporary error, 26 suspended API key, 27 deprecated, 29 rate limit; for the
/// authentication calls, 4 a wrong username or password or an invalid token, 14 a token not
/// authorized, 15 an expired one.
pub proof fn law_error_numbers()
    ensures
        GeneralErrorCode::InvalidUsage(InvalidUsage::InvalidService).code() == 2,
        GeneralErrorCode::InvalidUsage(InvalidUsage::InvalidMethod).code() == 3,
        GeneralErrorCode::Authentication(Authentication::AuthenticationFailed).code() == 4,
        GeneralErrorCode::InvalidUsage(InvalidUsage::InvalidFormat).code() == 5,
        GeneralErrorCode::InvalidUsage(InvalidUsage::InvalidParameters).code() == 6,
        GeneralErrorCode::InvalidUsage(InvalidUsage::InvalidResource).code() == 7,
        GeneralErrorCode::ServiceAvailability(ServiceAvailability::OperationFailed).code() == 8,
        GeneralErrorCode::Authentication(Authentication::InvalidSessionKey).code() == 9,
        GeneralErrorCode::Authentication(Authentication::InvalidApiKey).code() == 10,
        GeneralErrorCode::ServiceAvailability(ServiceAvailability::ServiceOffline).code() == 11,
        GeneralErrorCode::InvalidUsage(InvalidUsage::InvalidMethodSignature).code() == 13,
        GeneralErrorCode::ServiceAvailability(ServiceAvailability::TemporaryError).code() == 16,
        GeneralErrorCode::Authentication(Authentication::SuspendedApiKey).code() == 26,
        GeneralErrorCode::InvalidUsage(InvalidUsage::Deprecated).code() == 27,
        GeneralErrorCode::RateLimitExceeded.code() == 29,
        AuthorizationTokenGenerationError::InvalidUsernameOrPassword.code() == 4,
        SessionKeyThroughCredentialsError::InvalidUsernameOrPassword.code() == 4,
        SessionKeyThroughAuthorizationTokenError::Invalid.code() == 4,
        SessionKeyThroughAuthorizationTokenError::Unauthorized.code() == 14,
        SessionKeyThroughAuthorizationTokenError::Expired.code() == 15,
{
}

/// Why an authorization token could not be made.
#[derive(Debug, Clone, Copy, PartialEq, Eq, Structural)]
pub enum AuthorizationTokenGenerationError {
    /// Invalid username or password.
    InvalidUsernameOrPassword,
    /// The service is currently unavailable.
    ServiceUnavailable(ServiceAvailability),
}

/// Why a session key could not be made from credentials.
#[derive(Debug, Clone, Copy, PartialEq, Eq, Structural)]
pub enum SessionKeyThroughCredentialsError {
    /// Invalid username or password.
    InvalidUsernameOrPassword,
    /// The service is currently unavailable.
    ServiceUnavailable(ServiceAvailability),
}

/// Why a session key could not be made from an authorization token.
/// - <https://www.last.fm/api/show/auth.getSession#Errors>
#[derive(Debug, Clone, Copy, PartialEq, Eq, Structural)]
pub enum SessionKeyThroughAuthorizationTokenError {
    /// The token is not valid; it may have made a session already.
    Invalid,
    /// The token was not authorized by the user.
    Unauthorized,
    /// The token has expired.
    Expired,
}

impl AuthorizationTokenGenerationError {
    /// The code the API gives.
    pub open spec fn code(self) -> u8 {
        match self {
            AuthorizationTokenGenerationError::InvalidUsernameOrPassword => 4,
            AuthorizationTokenGenerationError::ServiceUnavailable(c) => c.code(),
        }
    }

    /// The code the API gives.
    pub fn to_u8(self) -> (r: u8)
        ensures
            r == self.code(),
    {
        match self {
            AuthorizationTokenGenerationError::InvalidUsernameOrPassword => 4,
            AuthorizationTokenGenerationError::ServiceUnavailable(c) => c.to_u8(),
        }
    }

    /// The error the API means by `value`: its own code first, then the unavailability codes.
    pub fn try_from(value: u8) -> (r: Result<Self, UnmappedErrorCode>)
        ensures
            r matches Ok(v) ==> v.code() == value,
            r matches Err(e) ==> e.code == value && forall|v: Self| #[trigger] v.code() != value,
    {
        if value == 4 {
            return Ok(AuthorizationTokenGenerationError::InvalidUsernameOrPassword);
        }
        match ServiceAvailability::try_from(value) {
            Ok(c) => Ok(AuthorizationTokenGenerationError::ServiceUnavailable(c)),
            Err(e) => {
                proof {
                    assert forall|v: Self| #[trigger] v.code() != value by {
                        if let AuthorizationTokenGenerationError::ServiceUnavailable(c) = v { assert(c.code() != value); }
                    }
                }
                Err(e)
            },
        }
    }
}

impl SessionKeyThroughCredentialsError {
    /// The code the API gives.
    pub open spec fn code(self) -> u8 {
        match self {
            SessionKeyThroughCredentialsError::InvalidUsernameOrPassword => 4,
            SessionKeyThroughCredentialsError::ServiceUnavailable(c) => c.code(),
        }
    }

    /// The code the API gives.
    pub fn to_u8(self) -> (r: u8)
        ensures
            r == self.code(),
    {
        match self {
            SessionKeyThroughCredentialsError::InvalidUsernameOrPassword => 4,
            SessionKeyThroughCredentialsError::ServiceUnavailable(c) => c.to_u8(),
        }
    }

    /// The error the API means by `value`: its own code first, then the unavailability codes.
    pub fn try_from(value: u8) -> (r: Result<Self, UnmappedErrorCode>)
        ensures
            r matches Ok(v) ==> v.code() == value,
            r matches Err(e) ==> e.code == value && forall|v: Self| #[trigger] v.code() != value,
    {
        if value == 4 {
            return Ok(SessionKeyThroughCredentialsError::InvalidUsernameOrPassword);
        }
        match ServiceAvailability::try_from(value) {
            Ok(c) => Ok(SessionKeyThroughCredentialsError::ServiceUnavailable(c)),
            Err(e) => {
                proof {
                    assert forall|v: Self| #[trigger] v.code() != value by {
                        if let SessionKeyThroughCredentialsError::ServiceUnavailable(c) = v { assert(c.code() != value); }
                    }
                }
                Err(e)
            },
        }
    }
}

impl SessionKeyThroughAuthorizationTokenError {
    /// The code the API gives.
    pub open spec fn code(self) -> u8 {
        match self {
            SessionKeyThroughAuthorizationTokenError::Invalid => 4,
            SessionKeyThroughAuthorizationTokenError::Unauthorized => 14,
            SessionKeyThroughAuthorizationTokenError::Expired => 15,
        }
    }

    /// The code the API gives.
    pub fn to_u8(self) -> (r: u8)
        ensures
            r == self.code(),
    {
        match self {
            SessionKeyThroughAuthorizationTokenError::Invalid => 4,
            SessionKeyThroughAuthorizationTokenError::Unauthorized => 14,
            SessionKeyThroughAuthorizationTokenError::Expired => 15,
        }
    }

    /// The error the API means by `value`.
    pub fn try_from(value: u8) -> (r: Result<Self, UnmappedErrorCode>)
        ensures
            r matches Ok(v) ==> v.code() == value,
            r matches Err(e) ==> e.code == value && forall|v: Self| #[trigger] v.code() != value,
    {
        match value {
            4 => Ok(SessionKeyThroughAuthorizationTokenError::Invalid),
            14 => Ok(SessionKeyThroughAuthorizationTokenError::Unauthorized),
            15 => Ok(SessionKeyThroughAuthorizationTokenError::Expired),
            _ => Err(UnmappedErrorCode { code: value }),
        }
    }
}

/// What a failed request for an authorization token means: code 8, which the endpoint gives
/// for a failure to grant the token, is the temporary error; other codes are general.
pub fn authorization_token_failure(code: u8) -> (r: Result<GeneralErrorCode, UnmappedErrorCode>)
    ensures
        code == 8 ==> r == Ok::<GeneralErrorCode, UnmappedErrorCode>(GeneralErrorCode::ServiceAvailability(ServiceAvailability::TemporaryError)),
        code != 8 ==> r == GeneralErrorCode::try_from_spec(code),
{
    if code == 8 {
        Ok(GeneralErrorCode::ServiceAvailability(ServiceAvailability::TemporaryError))
    } else {
        let r = GeneralErrorCode::try_from(code);
        proof {
            if let Ok(v) = r {
                let c = choose|w: GeneralErrorCode| #[trigger] w.code() == code;
                law_general_code_roundtrip(c, v);
            }
        }
        r
    }
}

impl GeneralErrorCode {
    /// The general error `code` names, or the unmapped code.
    pub open spec fn try_from_spec(code: u8) -> Result<Self, UnmappedErrorCode> {
        if exists|v: Self| #[trigger] v.code() == code {
            Ok(choose|v: Self| #[trigger] v.code() == code)
        } else {
            Err(UnmappedErrorCode { code })
        }
    }
}

/// An error code of the API: each converts to its number and back.
pub trait ErrorCode: Sized + Copy {
    /// The number the API gives for the error.
    spec fn number(self) -> u8;

    /// The number the API gives for the error.
    fn into_number(self) -> (r: u8)
        ensures
            r == self.number(),
    ;

    /// The error the API means by `value`, where one does.
    fn from_number(value: u8) -> (r: Result<Self, UnmappedErrorCode>)
        ensures
            r matches Ok(v) ==> v.number() == value,
            r matches Err(e) ==> e.code == value && forall|v: Self| #[trigger] v.number() != value,
    ;
}

impl ErrorCode for ServiceAvailability {
    open spec fn number(self) -> u8 {
        self.code()
    }

    fn into_number(self) -> (r: u8) {
        self.to_u8()
    }

    fn from_number(value: u8) -> (r: Result<Self, UnmappedErrorCode>) {
        ServiceAvailability::try_from(value)
    }
}

impl ErrorCode for Authentication {
    open spec fn number(self) -> u8 {
        self.code()
    }

    fn into_number(self) -> (r: u8) {
        self.to_u8()
    }

    fn from_number(value: u8) -> (r: Result<Self, UnmappedErrorCode>) {
        Authentication::try_from(value)
    }
}

impl ErrorCode for InvalidUsage {
    open spec fn number(self) -> u8 {
        self.code()
    }

    fn into_number(self) -> (r: u8) {
        self.to_u8()
    }

    fn from_number(value: u8) -> (r: Result<Self, UnmappedErrorCode>) {
        InvalidUsage::try_from(value)
    }
}

impl ErrorCode for GeneralErrorCode {
    open spec fn number(self) -> u8 {
        self.code()
    }

    fn into_number(self) -> (r: u8) {
        self.to_u8()
    }

    fn from_number(value: u8) -> (r: Result<Self, UnmappedErrorCode>) {
        GeneralErrorCode::try_from(value)
    }
}

impl ErrorCode for AuthorizationTokenGenerationError {
    open spec fn number(self) -> u8 {
        self.code()
    }

    fn into_number(self) -> (r: u8) {
        self.to_u8()
    }

    fn from_number(value: u8) -> (r: Result<Self, UnmappedErrorCode>) {
        AuthorizationTokenGenerationError::try_from(value)
    }
}

impl ErrorCode for SessionKeyThroughCredentialsError {
    open spec fn number(self) -> u8 {
        self.code()
    }

    fn into_number(self) -> (r: u8) {
        self.to_u8()
    }

    fn from_number(value: u8) -> (r: Result<Self, UnmappedErrorCode>) {
        SessionKeyThroughCredentialsError::try_from(value)
    }
}

impl ErrorCode for SessionKeyThroughAuthorizationTokenError {
    open spec fn number(self) -> u8 {
        self.code()
    }

    fn into_number(self) -> (r: u8) {
        self.to_u8()
    }

    fn from_number(value: u8) -> (r: Result<Self, UnmappedErrorCode>) {
        SessionKeyThroughAuthorizationTokenError::try_from(value)
    }
}

} // verus!
