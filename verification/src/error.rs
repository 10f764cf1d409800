//! Errors and how they are told to Subsonic clients.

use crate::strs::{concat2, concat3, decimal, decimal_string};
use crate::xml::{escape_markup, escaped_markup};
use vstd::prelude::*;

verus! {

/// What can go wrong while a request is served.
///
/// The Subsonic error codes are: 0 generic error, 10 required parameter is
/// missing, 20 and 30 incompatible versions, 40 wrong username or password,
/// 41 token authentication not supported, 50 not authorized, 60 trial period
/// expired, 70 data not found.
#[derive(Debug)]
pub enum FugueError {
    /// Subsonic protocol errors with code
    Subsonic { code: u32, message: String },
    /// Internal errors
    Internal(String),
    /// Backend communication errors
    Backend(String),
    /// Auth failures
    AuthFailed,
    /// Not found
    NotFound(String),
    /// Missing parameter
    MissingParam(String),
    /// Not authorized
    Forbidden(String),
}

/// What an error says, as characters.
pub enum FugueErrorView {
    Subsonic { code: u32, message: Seq<char> },
    Internal(Seq<char>),
    Backend(Seq<char>),
    AuthFailed,
    NotFound(Seq<char>),
    MissingParam(Seq<char>),
    Forbidden(Seq<char>),
}

impl View for FugueError {
    type V = FugueErrorView;

    open spec fn view(&self) -> FugueErrorView {
        match *self {
            FugueError::Subsonic { code, message } => FugueErrorView::Subsonic {
                code,
                message: message@,
            },
            FugueError::Internal(m) => FugueErrorView::Internal(m@),
            FugueError::Backend(m) => FugueErrorView::Backend(m@),
            FugueError::AuthFailed => FugueErrorView::AuthFailed,
            FugueError::NotFound(m) => FugueErrorView::NotFound(m@),
            FugueError::MissingParam(m) => FugueErrorView::MissingParam(m@),
            FugueError::Forbidden(m) => FugueErrorView::Forbidden(m@),
        }
    }
}

impl Clone for FugueError {
    fn clone(&self) -> (r: FugueError)
        ensures
            r@ == self@,
    {
        match self {
            FugueError::Subsonic { code, message } => FugueError::Subsonic {
                code: *code,
                message: message.clone(),
            },
            FugueError::Internal(m) => FugueError::Internal(m.clone()),
            FugueError::Backend(m) => FugueError::Backend(m.clone()),
            FugueError::AuthFailed => FugueError::AuthFailed,
            FugueError::NotFound(m) => FugueError::NotFound(m.clone()),
            FugueError::MissingParam(m) => FugueError::MissingParam(m.clone()),
            FugueError::Forbidden(m) => FugueError::Forbidden(m.clone()),
        }
    }
}

impl FugueErrorView {
    /// The Subsonic error code.
    pub open spec fn code(self) -> u32 {
        match self {
            FugueErrorView::Subsonic { code, .. } => code,
            FugueErrorView::AuthFailed => 40,
            FugueErrorView::NotFound(_) => 70,
            FugueErrorView::MissingParam(_) => 10,
            FugueErrorView::Forbidden(_) => 50,
            FugueErrorView::Internal(_) | FugueErrorView::Backend(_) => 0,
        }
    }

    /// The message that clients are shown.
    pub open spec fn message(self) -> Seq<char> {
        match self {
            FugueErrorView::Subsonic { message, .. } => message,
            FugueErrorView::AuthFailed => "Wrong username or password"@,
            FugueErrorView::NotFound(m) => m,
            FugueErrorView::MissingParam(p) => "Required parameter is missing: "@ + p,
            FugueErrorView::Forbidden(m) => m,
            FugueErrorView::Internal(m) => m,
            FugueErrorView::Backend(m) => "Backend error: "@ + m,
        }
    }

    /// The line that goes to the log.
    pub open spec fn log_line(self) -> Seq<char> {
        match self {
            FugueErrorView::Subsonic { code, message } => "Subsonic error "@ + decimal(code as nat)
                + ": "@ + message,
            FugueErrorView::Internal(m) => "Internal error: "@ + m,
            FugueErrorView::Backend(m) => "Backend error: "@ + m,
            FugueErrorView::AuthFailed => "Authentication failed"@,
            FugueErrorView::NotFound(m) => "Not found: "@ + m,
            FugueErrorView::MissingParam(p) => "Missing parameter: "@ + p,
            FugueErrorView::Forbidden(m) => "Forbidden: "@ + m,
        }
    }

    /// The body of the response that reports the error.
    pub open spec fn body(self) -> Seq<char> {
        r#"<subsonic-response xmlns="http://subsonic.org/restapi" status="failed" version="1.16.1" type="fugue"><error code=""#@
            + decimal(self.code() as nat) + r#"" message=""#@ + escaped_markup(self.message())
            + r#""/></subsonic-response>"#@
    }
}

/// The error for a request without a parameter that it must have.
pub open spec fn missing_param(param: Seq<char>) -> FugueErrorView {
    FugueErrorView::Subsonic { code: 10, message: "Missing required parameter: "@ + param }
}

impl FugueError {
    /// The Subsonic error code of this error.
    pub fn subsonic_code(&self) -> (r: u32)
        ensures
            r == self@.code(),
    {
        match self {
            FugueError::Subsonic { code, .. } => *code,
            FugueError::AuthFailed => 40,
            FugueError::NotFound(_) => 70,
            FugueError::MissingParam(_) => 10,
            FugueError::Forbidden(_) => 50,
            FugueError::Internal(_) | FugueError::Backend(_) => 0,
        }
    }

    /// The message that a client is shown.
    pub fn subsonic_message(&self) -> (r: String)
        ensures
            r@ == self@.message(),
    {
        match self {
            FugueError::Subsonic { message, .. } => message.clone(),
            FugueError::AuthFailed => "Wrong username or password".to_owned(),
            FugueError::NotFound(msg) => msg.clone(),
            FugueError::MissingParam(param) => concat2(
                "Required parameter is missing: ",
                param.as_str(),
            ),
            FugueError::Forbidden(msg) => msg.clone(),
            FugueError::Internal(msg) => msg.clone(),
            FugueError::Backend(msg) => concat2("Backend error: ", msg.as_str()),
        }
    }

    /// A missing parameter error.
    pub fn missing(param: &str) -> (r: FugueError)
        ensures
            r@ == missing_param(param@),
    {
        FugueError::Subsonic { code: 10, message: concat2("Missing required parameter: ", param) }
    }

    /// The error as one line of text.
    pub fn to_text(&self) -> (r: String)
        ensures
            r@ == self@.log_line(),
    {
        match self {
            FugueError::Subsonic { code, message } => {
                let mut s = concat3(
                    "Subsonic error ",
                    decimal_string(*code as u128).as_str(),
                    ": ",
                );
                s.append(message.as_str());
                s
            },
            FugueError::Internal(msg) => concat2("Internal error: ", msg.as_str()),
            FugueError::Backend(msg) => concat2("Backend error: ", msg.as_str()),
            FugueError::AuthFailed => "Authentication failed".to_owned(),
            FugueError::NotFound(msg) => concat2("Not found: ", msg.as_str()),
            FugueError::MissingParam(param) => concat2("Missing parameter: ", param.as_str()),
            FugueError::Forbidden(msg) => concat2("Forbidden: ", msg.as_str()),
        }
    }

    /// The XML document that reports this error to a client.
    pub fn response_body(&self) -> (r: String)
        ensures
            r@ == self@.body(),
    {
        let code = decimal_string(self.subsonic_code() as u128);
        let message = escape_markup(self.subsonic_message().as_str());
        let mut body = concat3(
            r#"<subsonic-response xmlns="http://subsonic.org/restapi" status="failed" version="1.16.1" type="fugue"><error code=""#,
            code.as_str(),
            r#"" message=""#,
        );
        body.append(message.as_str());
        body.append(r#""/></subsonic-response>"#);
        body
    }
}

/// Every error that is not a protocol error of a backend gets one of the codes
/// 0, 10, 40, 50 and 70, and the code tells the kinds apart: only a wrong
/// password is 40, only a missing thing 70, only a missing parameter 10, only
/// a refused operation 50.
pub proof fn codes_tell_kinds_apart(e: FugueErrorView)
    requires
        !(e is Subsonic),
    ensures
        e.code() == 40 <==> e is AuthFailed,
        e.code() == 70 <==> e is NotFound,
        e.code() == 10 <==> e is MissingParam,
        e.code() == 50 <==> e is Forbidden,
        e.code() == 0 <==> e is Internal || e is Backend,
{
}

/// What clients are shown, and what goes to the log, for each kind of error.
pub proof fn errors_say_what_went_wrong(code: u32, m: Seq<char>)
    ensures
        ({
            let e = FugueErrorView::Subsonic { code, message: m };
            e.code() == code && e.message() == m && e.log_line() == "Subsonic error "@ + decimal(
                code as nat,
            ) + ": "@ + m
        }),
        ({
            let e = FugueErrorView::Internal(m);
            e.message() == m && e.log_line() == "Internal error: "@ + m
        }),
        ({
            let e = FugueErrorView::Backend(m);
            e.message() == "Backend error: "@ + m && e.log_line() == "Backend error: "@ + m
        }),
        ({
            let e = FugueErrorView::NotFound(m);
            e.message() == m && e.log_line() == "Not found: "@ + m
        }),
        ({
            let e = FugueErrorView::MissingParam(m);
            e.message() == "Required parameter is missing: "@ + m && e.log_line()
                == "Missing parameter: "@ + m
        }),
        ({
            let e = FugueErrorView::Forbidden(m);
            e.message() == m && e.log_line() == "Forbidden: "@ + m
        }),
        FugueErrorView::AuthFailed.message() == "Wrong username or password"@,
        FugueErrorView::AuthFailed.log_line() == "Authentication failed"@,
        missing_param(m).code() == 10,
        missing_param(m).message() == "Missing required parameter: "@ + m,
{
}

/// An error is reported with its code and its message, the message escaped.
pub proof fn reports_hold_code_and_message(e: FugueErrorView)
    ensures
        e.body()
            == r#"<subsonic-response xmlns="http://subsonic.org/restapi" status="failed" version="1.16.1" type="fugue"><error code=""#@
            + decimal(e.code() as nat) + r#"" message=""#@ + escaped_markup(e.message())
            + r#""/></subsonic-response>"#@,
{
}

} // verus!
