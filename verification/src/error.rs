//! What can go wrong.
use crate::text::{decimal, push_decimal};
use vstd::prelude::*;
use vstd::string::*;

verus! {

/// An error of the program.
#[derive(Debug)]
pub enum AppError {
    /// A request failed on the way.
    Transient(String),
    /// GitHub asks to wait.
    RateLimited { retry_after_secs: u64 },
    /// GitHub refuses the token.
    Auth(String),
    /// GitHub answers with something else than data.
    GraphQl(String),
    /// A setting is missing.
    Config(String),
    /// A file cannot be read or written.
    Io(String),
}

/// What an [`AppError`] stands for.
pub enum ErrorView {
    Transient(Seq<char>),
    RateLimited(u64),
    Auth(Seq<char>),
    GraphQl(Seq<char>),
    Config(Seq<char>),
    Io(Seq<char>),
}

impl View for AppError {
    type V = ErrorView;

    open spec fn view(&self) -> ErrorView {
        match self {
            AppError::Transient(what) => ErrorView::Transient(what@),
            AppError::RateLimited { retry_after_secs } => ErrorView::RateLimited(*retry_after_secs),
            AppError::Auth(what) => ErrorView::Auth(what@),
            AppError::GraphQl(what) => ErrorView::GraphQl(what@),
            AppError::Config(what) => ErrorView::Config(what@),
            AppError::Io(what) => ErrorView::Io(what@),
        }
    }
}

/// The text of an error.
pub open spec fn error_text(e: ErrorView) -> Seq<char> {
    match e {
        ErrorView::Transient(what) => "Transient HTTP error: "@ + what,
        ErrorView::RateLimited(secs) => "GitHub rate limited, retry after "@ + decimal(secs as nat)
            + "s"@,
        ErrorView::Auth(what) => "Authentication error: "@ + what,
        ErrorView::GraphQl(what) => "GraphQL error: "@ + what,
        ErrorView::Config(what) => "Config error: "@ + what,
        ErrorView::Io(what) => "IO error: "@ + what,
    }
}

impl AppError {
    /// The text of the error.
    pub fn to_string(&self) -> (r: String)
        ensures
            r@ == error_text(self@),
    {
        match self {
            AppError::Transient(what) => "Transient HTTP error: ".to_owned().concat(what.as_str()),
            AppError::RateLimited { retry_after_secs } => {
                let mut out = "GitHub rate limited, retry after ".to_owned();
                push_decimal(&mut out, *retry_after_secs);
                out.append("s");
                out
            },
            AppError::Auth(what) => "Authentication error: ".to_owned().concat(what.as_str()),
            AppError::GraphQl(what) => "GraphQL error: ".to_owned().concat(what.as_str()),
            AppError::Config(what) => "Config error: ".to_owned().concat(what.as_str()),
            AppError::Io(what) => "IO error: ".to_owned().concat(what.as_str()),
        }
    }
}

/// The text of an error says what kind it is, and then what happened.
pub proof fn errors_say_what_happened(what: Seq<char>, secs: u64)
    ensures
        error_text(ErrorView::Transient(what)) == "Transient HTTP error: "@ + what,
        error_text(ErrorView::RateLimited(secs)) == "GitHub rate limited, retry after "@ + decimal(
            secs as nat,
        ) + seq!['s'],
        error_text(ErrorView::Auth(what)) == "Authentication error: "@ + what,
        error_text(ErrorView::GraphQl(what)) == "GraphQL error: "@ + what,
        error_text(ErrorView::Config(what)) == "Config error: "@ + what,
        error_text(ErrorView::Io(what)) == "IO error: "@ + what,
{
    reveal_strlit("s");
    assert("s"@ =~= seq!['s']);
}

} // verus!
