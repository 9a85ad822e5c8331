//! The status codes that IANA has registered for HTTP, with their reason
//! phrases, and the mapping between the two in both directions.

use vstd::prelude::*;

verus! {

/// The reason phrases of the HTTP status codes registered with IANA.
#[derive(Copy, Clone, Eq, PartialEq, Hash, Debug, Structural)]
pub enum ReasonPhrase {
    // Informational
    Continue,
    SwitchingProtocols,
    Processing,
    EarlyHints,
    // Success
    OK,
    Created,
    Accepted,
    NonAuthoritativeInformation,
    NoContent,
    ResetContent,
    PartialContent,
    MultiStatus,
    AlreadyReported,
    IMUsed,
    // Redirection
    MultipleChoices,
    MovedPermanently,
    Found,
    SeeOther,
    NotModified,
    UseProxy,
    TemporaryRedirect,
    PermanentRedirect,
    // Client error
    BadRequest,
    Unauthorized,
    PaymentRequired,
    Forbidden,
    NotFound,
    MethodNotAllowed,
    NotAcceptable,
    ProxyAuthenticationRequired,
    RequestTimeout,
    Conflict,
    Gone,
    LengthRequired,
    PreconditionFailed,
    ContentTooLarge,
    URITooLong,
    UnsupportedMediaType,
    RangeNotSatisfiable,
    ExpectationFailed,
    MisdirectedRequest,
    UnprocessableContent,
    Locked,
    FailedDependency,
    TooEarly,
    UpgradeRequired,
    PreconditionRequired,
    TooManyRequests,
    RequestHeaderFieldsTooLarge,
    UnavailableForLegalReasons,
    // Server error
    InternalServerError,
    NotImplemented,
    BadGateway,
    ServiceUnavailable,
    GatewayTimeout,
    HTTPVersionNotSupported,
    VariantAlsoNegotiates,
    InsufficientStorage,
    LoopDetected,
    NetworkAuthenticationRequired,
}

impl ReasonPhrase {
    /// The numeric status code that this phrase belongs to.
    pub open spec fn code(self) -> u16 {
        match self {
            ReasonPhrase::Continue => 100,
            ReasonPhrase::SwitchingProtocols => 101,
            ReasonPhrase::Processing => 102,
            ReasonPhrase::EarlyHints => 103,
            ReasonPhrase::OK => 200,
            ReasonPhrase::Created => 201,
            ReasonPhrase::Accepted => 202,
            ReasonPhrase::NonAuthoritativeInformation => 203,
            ReasonPhrase::NoContent => 204,
            ReasonPhrase::ResetContent => 205,
            ReasonPhrase::PartialContent => 206,
            ReasonPhrase::MultiStatus => 207,
            ReasonPhrase::AlreadyReported => 208,
            ReasonPhrase::IMUsed => 226,
            ReasonPhrase::MultipleChoices => 300,
            ReasonPhrase::MovedPermanently => 301,
            ReasonPhrase::Found => 302,
            ReasonPhrase::SeeOther => 303,
            ReasonPhrase::NotModified => 304,
            ReasonPhrase::UseProxy => 305,
            ReasonPhrase::TemporaryRedirect => 307,
            ReasonPhrase::PermanentRedirect => 308,
            ReasonPhrase::BadRequest => 400,
            ReasonPhrase::Unauthorized => 401,
            ReasonPhrase::PaymentRequired => 402,
            ReasonPhrase::Forbidden => 403,
            ReasonPhrase::NotFound => 404,
            ReasonPhrase::MethodNotAllowed => 405,
            ReasonPhrase::NotAcceptable => 406,
            ReasonPhrase::ProxyAuthenticationRequired => 407,
            ReasonPhrase::RequestTimeout => 408,
            ReasonPhrase::Conflict => 409,
            ReasonPhrase::Gone => 410,
            ReasonPhrase::LengthRequired => 411,
            ReasonPhrase::PreconditionFailed => 412,
            ReasonPhrase::ContentTooLarge => 413,
            ReasonPhrase::URITooLong => 414,
            ReasonPhrase::UnsupportedMediaType => 415,
            ReasonPhrase::RangeNotSatisfiable => 416,
            ReasonPhrase::ExpectationFailed => 417,
            ReasonPhrase::MisdirectedRequest => 421,
            ReasonPhrase::UnprocessableContent => 422,
            ReasonPhrase::Locked => 423,
            ReasonPhrase::FailedDependency => 424,
            ReasonPhrase::TooEarly => 425,
            ReasonPhrase::UpgradeRequired => 426,
            ReasonPhrase::PreconditionRequired => 428,
            ReasonPhrase::TooManyRequests => 429,
            ReasonPhrase::RequestHeaderFieldsTooLarge => 431,
            ReasonPhrase::UnavailableForLegalReasons => 451,
            ReasonPhrase::InternalServerError => 500,
            ReasonPhrase::NotImplemented => 501,
            ReasonPhrase::BadGateway => 502,
            ReasonPhrase::ServiceUnavailable => 503,
            ReasonPhrase::GatewayTimeout => 504,
            ReasonPhrase::HTTPVersionNotSupported => 505,
            ReasonPhrase::VariantAlsoNegotiates => 506,
            ReasonPhrase::InsufficientStorage => 507,
            ReasonPhrase::LoopDetected => 508,
            ReasonPhrase::NetworkAuthenticationRequired => 511,
        }
    }

    /// The phrase as it is written on a status line.
    pub open spec fn text(self) -> Seq<char> {
        match self {
            ReasonPhrase::Continue => "Continue"@,
            ReasonPhrase::SwitchingProtocols => "Switching Protocols"@,
            ReasonPhrase::Processing => "Processing"@,
            ReasonPhrase::EarlyHints => "Early Hints"@,
            ReasonPhrase::OK => "OK"@,
            ReasonPhrase::Created => "Created"@,
            ReasonPhrase::Accepted => "Accepted"@,
            ReasonPhrase::NonAuthoritativeInformation => "Non-Authoritative Information"@,
            ReasonPhrase::NoContent => "No Content"@,
            ReasonPhrase::ResetContent => "Reset Content"@,
            ReasonPhrase::PartialContent => "Partial Content"@,
            ReasonPhrase::MultiStatus => "Multi-Status"@,
            ReasonPhrase::AlreadyReported => "Already Reported"@,
            ReasonPhrase::IMUsed => "IM Used"@,
            ReasonPhrase::MultipleChoices => "Multiple Choices"@,
            ReasonPhrase::MovedPermanently => "Moved Permanently"@,
            ReasonPhrase::Found => "Found"@,
            ReasonPhrase::SeeOther => "See Other"@,
            ReasonPhrase::NotModified => "Not Modified"@,
            ReasonPhrase::UseProxy => "Use Proxy"@,
            ReasonPhrase::TemporaryRedirect => "Temporary Redirect"@,
            ReasonPhrase::PermanentRedirect => "Permanent Redirect"@,
            ReasonPhrase::BadRequest => "Bad Request"@,
            ReasonPhrase::Unauthorized => "Unauthorized"@,
            ReasonPhrase::PaymentRequired => "Payment Required"@,
            ReasonPhrase::Forbidden => "Forbidden"@,
            ReasonPhrase::NotFound => "Not Found"@,
            ReasonPhrase::MethodNotAllowed => "Method Not Allowed"@,
            ReasonPhrase::NotAcceptable => "Not Acceptable"@,
            ReasonPhrase::ProxyAuthenticationRequired => "Proxy Authentication Required"@,
            ReasonPhrase::RequestTimeout => "Request Timeout"@,
            ReasonPhrase::Conflict => "Conflict"@,
            ReasonPhrase::Gone => "Gone"@,
            ReasonPhrase::LengthRequired => "Length Required"@,
            ReasonPhrase::PreconditionFailed => "Precondition Failed"@,
            ReasonPhrase::ContentTooLarge => "Content Too Large"@,
            ReasonPhrase::URITooLong => "URI Too Long"@,
            ReasonPhrase::UnsupportedMediaType => "Unsupported Media Type"@,
            ReasonPhrase::RangeNotSatisfiable => "Range Not Satisfiable"@,
            ReasonPhrase::ExpectationFailed => "Expectation Failed"@,
            ReasonPhrase::MisdirectedRequest => "Misdirected Request"@,
            ReasonPhrase::UnprocessableContent => "Unprocessable Content"@,
            ReasonPhrase::Locked => "Locked"@,
            ReasonPhrase::FailedDependency => "Failed Dependency"@,
            ReasonPhrase::TooEarly => "Too Early"@,
            ReasonPhrase::UpgradeRequired => "Upgrade Required"@,
            ReasonPhrase::PreconditionRequired => "Precondition Required"@,
            ReasonPhrase::TooManyRequests => "Too Many Requests"@,
            ReasonPhrase::RequestHeaderFieldsTooLarge => "Request Header Fields Too Large"@,
            ReasonPhrase::UnavailableForLegalReasons => "Unavailable For Legal Reasons"@,
            ReasonPhrase::InternalServerError => "Internal Server Error"@,
            ReasonPhrase::NotImplemented => "Not Implemented"@,
            ReasonPhrase::BadGateway => "Bad Gateway"@,
            ReasonPhrase::ServiceUnavailable => "Service Unavailable"@,
            ReasonPhrase::GatewayTimeout => "Gateway Timeout"@,
            ReasonPhrase::HTTPVersionNotSupported => "HTTP Version Not Supported"@,
            ReasonPhrase::VariantAlsoNegotiates => "Variant Also Negotiates"@,
            ReasonPhrase::InsufficientStorage => "Insufficient Storage"@,
            ReasonPhrase::LoopDetected => "Loop Detected"@,
            ReasonPhrase::NetworkAuthenticationRequired => "Network Authentication Required"@,
        }
    }

    pub fn as_str(&self) -> (s: &'static str)
        ensures
            s@ == self.text(),
    {
        match self {
            Self::Continue => "Continue",
            Self::SwitchingProtocols => "Switching Protocols",
            Self::Processing => "Processing",
            Self::EarlyHints => "Early Hints",
            Self::OK => "OK",
            Self::Created => "Created",
            Self::Accepted => "Accepted",
            Self::NonAuthoritativeInformation => "Non-Authoritative Information",
            Self::NoContent => "No Content",
            Self::ResetContent => "Reset Content",
            Self::PartialContent => "Partial Content",
            Self::MultiStatus => "Multi-Status",
            Self::AlreadyReported => "Already Reported",
            Self::IMUsed => "IM Used",
            Self::MultipleChoices => "Multiple Choices",
            Self::MovedPermanently => "Moved Permanently",
            Self::Found => "Found",
            Self::SeeOther => "See Other",
            Self::NotModified => "Not Modified",
            Self::UseProxy => "Use Proxy",
            Self::TemporaryRedirect => "Temporary Redirect",
            Self::PermanentRedirect => "Permanent Redirect",
            Self::BadRequest => "Bad Request",
            Self::Unauthorized => "Unauthorized",
            Self::PaymentRequired => "Payment Required",
            Self::Forbidden => "Forbidden",
            Self::NotFound => "Not Found",
            Self::MethodNotAllowed => "Method Not Allowed",
            Self::NotAcceptable => "Not Acceptable",
            Self::ProxyAuthenticationRequired => "Proxy Authentication Required",
            Self::RequestTimeout => "Request Timeout",
            Self::Conflict => "Conflict",
            Self::Gone => "Gone",
            Self::LengthRequired => "Length Required",
            Self::PreconditionFailed => "Precondition Failed",
            Self::ContentTooLarge => "Content Too Large",
            Self::URITooLong => "URI Too Long",
            Self::UnsupportedMediaType => "Unsupported Media Type",
            Self::RangeNotSatisfiable => "Range Not Satisfiable",
            Self::ExpectationFailed => "Expectation Failed",
            Self::MisdirectedRequest => "Misdirected Request",
            Self::UnprocessableContent => "Unprocessable Content",
            Self::Locked => "Locked",
            Self::FailedDependency => "Failed Dependency",
            Self::TooEarly => "Too Early",
            Self::UpgradeRequired => "Upgrade Required",
            Self::PreconditionRequired => "Precondition Required",
            Self::TooManyRequests => "Too Many Requests",
            Self::RequestHeaderFieldsTooLarge => "Request Header Fields Too Large",
            Self::UnavailableForLegalReasons => "Unavailable For Legal Reasons",
            Self::InternalServerError => "Internal Server Error",
            Self::NotImplemented => "Not Implemented",
            Self::BadGateway => "Bad Gateway",
            Self::ServiceUnavailable => "Service Unavailable",
            Self::GatewayTimeout => "Gateway Timeout",
            Self::HTTPVersionNotSupported => "HTTP Version Not Supported",
            Self::VariantAlsoNegotiates => "Variant Also Negotiates",
            Self::InsufficientStorage => "Insufficient Storage",
            Self::LoopDetected => "Loop Detected",
            Self::NetworkAuthenticationRequired => "Network Authentication Required",
        }
    }

    /// The phrase as an owned string.
    pub fn to_string(&self) -> (s: String)
        ensures
            s@ == self.text(),
    {
        self.as_str().to_owned()
    }
}

/// The phrase registered for a status code, if there is one.
pub open spec fn phrase_for(status_code: u16) -> Option<ReasonPhrase> {
    if status_code == 100 {
        Some(ReasonPhrase::Continue)
    } else if status_code == 101 {
        Some(ReasonPhrase::SwitchingProtocols)
    } else if status_code == 102 {
        Some(ReasonPhrase::Processing)
    } else if status_code == 103 {
        Some(ReasonPhrase::EarlyHints)
    } else if status_code == 200 {
        Some(ReasonPhrase::OK)
    } else if status_code == 201 {
        Some(ReasonPhrase::Created)
    } else if status_code == 202 {
        Some(ReasonPhrase::Accepted)
    } else if status_code == 203 {
        Some(ReasonPhrase::NonAuthoritativeInformation)
    } else if status_code == 204 {
        Some(ReasonPhrase::NoContent)
    } else if status_code == 205 {
        Some(ReasonPhrase::ResetContent)
    } else if status_code == 206 {
        Some(ReasonPhrase::PartialContent)
    } else if status_code == 207 {
        Some(ReasonPhrase::MultiStatus)
    } else if status_code == 208 {
        Some(ReasonPhrase::AlreadyReported)
    } else if status_code == 226 {
        Some(ReasonPhrase::IMUsed)
    } else if status_code == 300 {
        Some(ReasonPhrase::MultipleChoices)
    } else if status_code == 301 {
        Some(ReasonPhrase::MovedPermanently)
    } else if status_code == 302 {
        Some(ReasonPhrase::Found)
    } else if status_code == 303 {
        Some(ReasonPhrase::SeeOther)
    } else if status_code == 304 {
        Some(ReasonPhrase::NotModified)
    } else if status_code == 305 {
        Some(ReasonPhrase::UseProxy)
    } else if status_code == 307 {
        Some(ReasonPhrase::TemporaryRedirect)
    } else if status_code == 308 {
        Some(ReasonPhrase::PermanentRedirect)
    } else if status_code == 400 {
        Some(ReasonPhrase::BadRequest)
    } else if status_code == 401 {
        Some(ReasonPhrase::Unauthorized)
    } else if status_code == 402 {
        Some(ReasonPhrase::PaymentRequired)
    } else if status_code == 403 {
        Some(ReasonPhrase::Forbidden)
    } else if status_code == 404 {
        Some(ReasonPhrase::NotFound)
    } else if status_code == 405 {
        Some(ReasonPhrase::MethodNotAllowed)
    } else if status_code == 406 {
        Some(ReasonPhrase::NotAcceptable)
    } else if status_code == 407 {
        Some(ReasonPhrase::ProxyAuthenticationRequired)
    } else if status_code == 408 {
        Some(ReasonPhrase::RequestTimeout)
    } else if status_code == 409 {
        Some(ReasonPhrase::Conflict)
    } else if status_code == 410 {
        Some(ReasonPhrase::Gone)
    } else if status_code == 411 {
        Some(ReasonPhrase::LengthRequired)
    } else if status_code == 412 {
        Some(ReasonPhrase::PreconditionFailed)
    } else if status_code == 413 {
        Some(ReasonPhrase::ContentTooLarge)
    } else if status_code == 414 {
        Some(ReasonPhrase::URITooLong)
    } else if status_code == 415 {
        Some(ReasonPhrase::UnsupportedMediaType)
    } else if status_code == 416 {
        Some(ReasonPhrase::RangeNotSatisfiable)
    } else if status_code == 417 {
        Some(ReasonPhrase::ExpectationFailed)
    } else if status_code == 421 {
        Some(ReasonPhrase::MisdirectedRequest)
    } else if status_code == 422 {
        Some(ReasonPhrase::UnprocessableContent)
    } else if status_code == 423 {
        Some(ReasonPhrase::Locked)
    } else if status_code == 424 {
        Some(ReasonPhrase::FailedDependency)
    } else if status_code == 425 {
        Some(ReasonPhrase::TooEarly)
    } else if status_code == 426 {
        Some(ReasonPhrase::UpgradeRequired)
    } else if status_code == 428 {
        Some(ReasonPhrase::PreconditionRequired)
    } else if status_code == 429 {
        Some(ReasonPhrase::TooManyRequests)
    } else if status_code == 431 {
        Some(ReasonPhrase::RequestHeaderFieldsTooLarge)
    } else if status_code == 451 {
        Some(ReasonPhrase::UnavailableForLegalReasons)
    } else if status_code == 500 {
        Some(ReasonPhrase::InternalServerError)
    } else if status_code == 501 {
        Some(ReasonPhrase::NotImplemented)
    } else if status_code == 502 {
        Some(ReasonPhrase::BadGateway)
    } else if status_code == 503 {
        Some(ReasonPhrase::ServiceUnavailable)
    } else if status_code == 504 {
        Some(ReasonPhrase::GatewayTimeout)
    } else if status_code == 505 {
        Some(ReasonPhrase::HTTPVersionNotSupported)
    } else if status_code == 506 {
        Some(ReasonPhrase::VariantAlsoNegotiates)
    } else if status_code == 507 {
        Some(ReasonPhrase::InsufficientStorage)
    } else if status_code == 508 {
        Some(ReasonPhrase::LoopDetected)
    } else if status_code == 511 {
        Some(ReasonPhrase::NetworkAuthenticationRequired)
    } else {
        None
    }
}

pub fn get_reason_phrase(status_code: u16) -> (r: Option<ReasonPhrase>)
    ensures
        r == phrase_for(status_code),
{
    match status_code {
        100 => Some(ReasonPhrase::Continue),
        101 => Some(ReasonPhrase::SwitchingProtocols),
        102 => Some(ReasonPhrase::Processing),
        103 => Some(ReasonPhrase::EarlyHints),
        200 => Some(ReasonPhrase::OK),
        201 => Some(ReasonPhrase::Created),
        202 => Some(ReasonPhrase::Accepted),
        203 => Some(ReasonPhrase::NonAuthoritativeInformation),
        204 => Some(ReasonPhrase::NoContent),
        205 => Some(ReasonPhrase::ResetContent),
        206 => Some(ReasonPhrase::PartialContent),
        207 => Some(ReasonPhrase::MultiStatus),
        208 => Some(ReasonPhrase::AlreadyReported),
        226 => Some(ReasonPhrase::IMUsed),
        300 => Some(ReasonPhrase::MultipleChoices),
        301 => Some(ReasonPhrase::MovedPermanently),
        302 => Some(ReasonPhrase::Found),
        303 => Some(ReasonPhrase::SeeOther),
        304 => Some(ReasonPhrase::NotModified),
        305 => Some(ReasonPhrase::UseProxy),
        307 => Some(ReasonPhrase::TemporaryRedirect),
        308 => Some(ReasonPhrase::PermanentRedirect),
        400 => Some(ReasonPhrase::BadRequest),
        401 => Some(ReasonPhrase::Unauthorized),
        402 => Some(ReasonPhrase::PaymentRequired),
        403 => Some(ReasonPhrase::Forbidden),
        404 => Some(ReasonPhrase::NotFound),
        405 => Some(ReasonPhrase::MethodNotAllowed),
        406 => Some(ReasonPhrase::NotAcceptable),
        407 => Some(ReasonPhrase::ProxyAuthenticationRequired),
        408 => Some(ReasonPhrase::RequestTimeout),
        409 => Some(ReasonPhrase::Conflict),
        410 => Some(ReasonPhrase::Gone),
        411 => Some(ReasonPhrase::LengthRequired),
        412 => Some(ReasonPhrase::PreconditionFailed),
        413 => Some(ReasonPhrase::ContentTooLarge),
        414 => Some(ReasonPhrase::URITooLong),
        415 => Some(ReasonPhrase::UnsupportedMediaType),
        416 => Some(ReasonPhrase::RangeNotSatisfiable),
        417 => Some(ReasonPhrase::ExpectationFailed),
        421 => Some(ReasonPhrase::MisdirectedRequest),
        422 => Some(ReasonPhrase::UnprocessableContent),
        423 => Some(ReasonPhrase::Locked),
        424 => Some(ReasonPhrase::FailedDependency),
        425 => Some(ReasonPhrase::TooEarly),
        426 => Some(ReasonPhrase::UpgradeRequired),
        428 => Some(ReasonPhrase::PreconditionRequired),
        429 => Some(ReasonPhrase::TooManyRequests),
        431 => Some(ReasonPhrase::RequestHeaderFieldsTooLarge),
        451 => Some(ReasonPhrase::UnavailableForLegalReasons),
        500 => Some(ReasonPhrase::InternalServerError),
        501 => Some(ReasonPhrase::NotImplemented),
        502 => Some(ReasonPhrase::BadGateway),
        503 => Some(ReasonPhrase::ServiceUnavailable),
        504 => Some(ReasonPhrase::GatewayTimeout),
        505 => Some(ReasonPhrase::HTTPVersionNotSupported),
        506 => Some(ReasonPhrase::VariantAlsoNegotiates),
        507 => Some(ReasonPhrase::InsufficientStorage),
        508 => Some(ReasonPhrase::LoopDetected),
        511 => Some(ReasonPhrase::NetworkAuthenticationRequired),
        _ => None,
    }
}

pub fn get_status_code(reason_phrase: ReasonPhrase) -> (c: u16)
    ensures
        c == reason_phrase.code(),
{
    match reason_phrase {
        ReasonPhrase::Continue => 100,
        ReasonPhrase::SwitchingProtocols => 101,
        ReasonPhrase::Processing => 102,
        ReasonPhrase::EarlyHints => 103,
        ReasonPhrase::OK => 200,
        ReasonPhrase::Created => 201,
        ReasonPhrase::Accepted => 202,
        ReasonPhrase::NonAuthoritativeInformation => 203,
        ReasonPhrase::NoContent => 204,
        ReasonPhrase::ResetContent => 205,
        ReasonPhrase::PartialContent => 206,
        ReasonPhrase::MultiStatus => 207,
        ReasonPhrase::AlreadyReported => 208,
        ReasonPhrase::IMUsed => 226,
        ReasonPhrase::MultipleChoices => 300,
        ReasonPhrase::MovedPermanently => 301,
        ReasonPhrase::Found => 302,
        ReasonPhrase::SeeOther => 303,
        ReasonPhrase::NotModified => 304,
        ReasonPhrase::UseProxy => 305,
        ReasonPhrase::TemporaryRedirect => 307,
        ReasonPhrase::PermanentRedirect => 308,
        ReasonPhrase::BadRequest => 400,
        ReasonPhrase::Unauthorized => 401,
        ReasonPhrase::PaymentRequired => 402,
        ReasonPhrase::Forbidden => 403,
        ReasonPhrase::NotFound => 404,
        ReasonPhrase::MethodNotAllowed => 405,
        ReasonPhrase::NotAcceptable => 406,
        ReasonPhrase::ProxyAuthenticationRequired => 407,
        ReasonPhrase::RequestTimeout => 408,
        ReasonPhrase::Conflict => 409,
        ReasonPhrase::Gone => 410,
        ReasonPhrase::LengthRequired => 411,
        ReasonPhrase::PreconditionFailed => 412,
        ReasonPhrase::ContentTooLarge => 413,
        ReasonPhrase::URITooLong => 414,
        ReasonPhrase::UnsupportedMediaType => 415,
        ReasonPhrase::RangeNotSatisfiable => 416,
        ReasonPhrase::ExpectationFailed => 417,
        ReasonPhrase::MisdirectedRequest => 421,
        ReasonPhrase::UnprocessableContent => 422,
        ReasonPhrase::Locked => 423,
        ReasonPhrase::FailedDependency => 424,
        ReasonPhrase::TooEarly => 425,
        ReasonPhrase::UpgradeRequired => 426,
        ReasonPhrase::PreconditionRequired => 428,
        ReasonPhrase::TooManyRequests => 429,
        ReasonPhrase::RequestHeaderFieldsTooLarge => 431,
        ReasonPhrase::UnavailableForLegalReasons => 451,
        ReasonPhrase::InternalServerError => 500,
        ReasonPhrase::NotImplemented => 501,
        ReasonPhrase::BadGateway => 502,
        ReasonPhrase::ServiceUnavailable => 503,
        ReasonPhrase::GatewayTimeout => 504,
        ReasonPhrase::HTTPVersionNotSupported => 505,
        ReasonPhrase::VariantAlsoNegotiates => 506,
        ReasonPhrase::InsufficientStorage => 507,
        ReasonPhrase::LoopDetected => 508,
        ReasonPhrase::NetworkAuthenticationRequired => 511,
    }
}

/// Looking up the code of a phrase and then the phrase of that code gives the
/// phrase back.
pub proof fn lemma_phrase_of_code(reason_phrase: ReasonPhrase)
    ensures
        phrase_for(reason_phrase.code()) == Some(reason_phrase),
{
}

/// A code that has a phrase is the code of that phrase, so no two phrases
/// share a code and no code has two phrases.
pub proof fn lemma_code_of_phrase(status_code: u16, reason_phrase: ReasonPhrase)
    requires
        phrase_for(status_code) == Some(reason_phrase),
    ensures
        reason_phrase.code() == status_code,
{
}

} // verus!
