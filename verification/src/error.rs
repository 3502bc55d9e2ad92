//! Errors that the tunnel's two ends share.

use vstd::prelude::*;
use vstd::string::*;
use crate::text;
use crate::text::quote;

verus! {

/// What went wrong, with the details in words.
#[derive(Debug)]
pub enum SieveTubeError {
    Auth(String),
    NoIngressMatch { hostname: String, protocol: String },
    ConnectorNotFound(String),
    Protocol(String),
    Tls(String),
    Config(String),
    Io(String),
}

/// A [`SieveTubeError`] by the texts that it holds.
pub enum ErrorView {
    Auth(Seq<char>),
    NoIngressMatch(Seq<char>, Seq<char>),
    ConnectorNotFound(Seq<char>),
    Protocol(Seq<char>),
    Tls(Seq<char>),
    Config(Seq<char>),
    Io(Seq<char>),
}

impl View for SieveTubeError {
    type V = ErrorView;

    open spec fn view(&self) -> ErrorView {
        match *self {
            SieveTubeError::Auth(s) => ErrorView::Auth(s@),
            SieveTubeError::NoIngressMatch { hostname, protocol } => ErrorView::NoIngressMatch(
                hostname@,
                protocol@,
            ),
            SieveTubeError::ConnectorNotFound(s) => ErrorView::ConnectorNotFound(s@),
            SieveTubeError::Protocol(s) => ErrorView::Protocol(s@),
            SieveTubeError::Tls(s) => ErrorView::Tls(s@),
            SieveTubeError::Config(s) => ErrorView::Config(s@),
            SieveTubeError::Io(s) => ErrorView::Io(s@),
        }
    }
}

/// The error in words.
pub open spec fn error_text(e: ErrorView) -> Seq<char> {
    match e {
        ErrorView::Auth(s) => "authentication failed: "@ + s,
        ErrorView::NoIngressMatch(hostname, protocol) => "no matching ingress rule for hostname="@
            + text::quoted(hostname) + " protocol="@ + text::quoted(protocol),
        ErrorView::ConnectorNotFound(s) => "connector not connected for hostname="@ + s,
        ErrorView::Protocol(s) => "protocol error: "@ + s,
        ErrorView::Tls(s) => "tls error: "@ + s,
        ErrorView::Config(s) => "configuration error: "@ + s,
        ErrorView::Io(s) => "io error: "@ + s,
    }
}

impl SieveTubeError {
    /// The error in words.
    pub fn message(&self) -> (r: String)
        ensures
            r@ == error_text(self@),
    {
        match self {
            SieveTubeError::Auth(s) => "authentication failed: ".to_owned().concat(s.as_str()),
            SieveTubeError::NoIngressMatch { hostname, protocol } => {
                let mut r: String = "no matching ingress rule for hostname=".to_owned();
                r.append(quote(hostname.as_str()).as_str());
                r.append(" protocol=");
                r.append(quote(protocol.as_str()).as_str());
                r
            },
            SieveTubeError::ConnectorNotFound(s) => {
                "connector not connected for hostname=".to_owned().concat(s.as_str())
            },
            SieveTubeError::Protocol(s) => "protocol error: ".to_owned().concat(s.as_str()),
            SieveTubeError::Tls(s) => "tls error: ".to_owned().concat(s.as_str()),
            SieveTubeError::Config(s) => "configuration error: ".to_owned().concat(s.as_str()),
            SieveTubeError::Io(s) => "io error: ".to_owned().concat(s.as_str()),
        }
    }
}

} // verus!
