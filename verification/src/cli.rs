//! The text that the command-line client shows: its errors, the query string of a
//! report request, and the line that describes a category.
use vstd::prelude::*;
use reqwest::StatusCode;
use crate::date::{decimal, iso_text, opt_date_view, Date, DateView};
use crate::ids::{id_text, uuid_text};
use crate::model::Category;

verus! {

/// The reason phrase that `http::StatusCode`'s `Display` writes after the number:
/// the canonical reason of a registered code, otherwise `<unknown status code>`.
pub uninterp spec fn http_reason_phrase(code: u16) -> Seq<char>;

/// The text of an HTTP status as `http::StatusCode`'s `Display` writes it: the
/// number, a space, and the reason phrase. `StatusCode::from_u16` accepts exactly
/// the codes from 100 to 999.
#[verifier::external_body]
fn status_line(code: u16) -> (r: String)
    requires
        100 <= code <= 999,
    ensures
        r@ == decimal(code as nat) + seq![' '] + http_reason_phrase(code),
{
    StatusCode::from_u16(code).unwrap().to_string()
}

/// Why a command of the client failed.
pub enum CliError {
    /// No token was saved: the user has not logged in.
    NotLoggedIn,
    /// The request could not be sent or answered; the message says why.
    Request(String),
    /// The server answered with an error status and this body.
    Api { status: u16, body: String },
    /// Reading or writing a local file failed; the message says why.
    Io(String),
}

/// The text that a client error is shown as.
pub open spec fn cli_error_text(e: CliError) -> Seq<char> {
    match e {
        CliError::NotLoggedIn => "not logged in - run 'cli login' first"@,
        CliError::Request(msg) => "request failed "@ + msg@,
        CliError::Api { status, body } => decimal(status as nat) + seq![' '] + http_reason_phrase(
            status,
        ) + ": "@ + body@,
        CliError::Io(msg) => "io error: "@ + msg@,
    }
}

impl CliError {
    /// Every status this error carries is a valid HTTP status code.
    pub open spec fn wf(&self) -> bool {
        self matches CliError::Api { status, .. } ==> 100 <= *status <= 999
    }

    /// The text this error is shown as.
    pub fn to_string(&self) -> (r: String)
        requires
            self.wf(),
        ensures
            r@ == cli_error_text(*self),
    {
        match self {
            CliError::NotLoggedIn => String::from_str("not logged in - run 'cli login' first"),
            CliError::Request(msg) => String::from_str("request failed ").concat(msg.as_str()),
            CliError::Api { status, body } => status_line(*status).concat(": ").concat(
                body.as_str(),
            ),
            CliError::Io(msg) => String::from_str("io error: ").concat(msg.as_str()),
        }
    }
}

/// The query string of a report request over an optional date range.
pub open spec fn query_text(from: Option<DateView>, to: Option<DateView>) -> Seq<char> {
    match (from, to) {
        (None, None) => seq![],
        (Some(f), None) => "?from="@ + iso_text(f),
        (None, Some(t)) => "?to="@ + iso_text(t),
        (Some(f), Some(t)) => "?from="@ + iso_text(f) + "&to="@ + iso_text(t),
    }
}

/// A report's query string is `?` followed by the parameters present, joined by
/// `&`: with both bounds it is the query of the lower bound alone, `&`, and the
/// parameter of the upper bound, whatever the two dates are; without bounds it is
/// empty.
pub proof fn law_query_joins_bounds(f: DateView, t: DateView)
    ensures
        query_text(None, None).len() == 0,
        query_text(Some(f), None) == "?from="@ + iso_text(f),
        query_text(None, Some(t)) == "?to="@ + iso_text(t),
        query_text(Some(f), Some(t)) == query_text(Some(f), None) + seq!['&'] + query_text(
            None,
            Some(t),
        ).drop_first(),
{
    reveal_strlit("?to=");
    reveal_strlit("to=");
    reveal_strlit("&to=");
    let a = "?from="@ + iso_text(f);
    let b = "?to="@ + iso_text(t);
    assert(b.drop_first() =~= "to="@ + iso_text(t));
    assert("&to="@ + iso_text(t) =~= seq!['&'] + ("to="@ + iso_text(t)));
    assert(a + "&to="@ + iso_text(t) =~= a + seq!['&'] + b.drop_first());
}

/// The query string that carries the bounds of a report's date range: empty where
/// there are none, otherwise `?` and the `from=` and `to=` parameters present,
/// joined by `&`.
pub fn build_query(from: Option<Date>, to: Option<Date>) -> (r: String)
    ensures
        r@ == query_text(opt_date_view(from), opt_date_view(to)),
        match (from, to) {
            (Some(f), Some(t)) => r@ == "?from="@ + iso_text(f@) + "&to="@ + iso_text(t@),
            (Some(f), None) => r@ == "?from="@ + iso_text(f@),
            (None, Some(t)) => r@ == "?to="@ + iso_text(t@),
            (None, None) => r@.len() == 0,
        },
{
    match (from, to) {
        (None, None) => String::new(),
        (Some(f), None) => String::from_str("?from=").concat(f.iso_text().as_str()),
        (None, Some(t)) => String::from_str("?to=").concat(t.iso_text().as_str()),
        (Some(f), Some(t)) => String::from_str("?from=").concat(f.iso_text().as_str()).concat(
            "&to=",
        ).concat(t.iso_text().as_str()),
    }
}

/// The line that describes a category: its id, a space, and its name.
pub fn format_category(category: &Category) -> (r: String)
    ensures
        r@ == uuid_text(category.id) + " "@ + category.name@,
{
    id_text(category.id).concat(" ").concat(category.name.as_str())
}

/// What the client makes of a server's answer: the body of a success status
/// (200 to 299) to read on, or an API error carrying the status and the body.
pub fn response_outcome(status: u16, body: String) -> (r: Result<String, CliError>)
    ensures
        200 <= status <= 299 ==> (r matches Ok(b) && b@ == body@),
        !(200 <= status <= 299) ==> (r matches Err(CliError::Api { status: s, body: b }) && s
            == status && b@ == body@),
        100 <= status <= 999 ==> (r matches Err(e) ==> e.wf()),
{
    if 200 <= status && status <= 299 {
        Ok(body)
    } else {
        Err(CliError::Api { status, body })
    }
}

/// The token that a request carries: none where the command needs no login, the
/// saved token where it does, and `NotLoggedIn` (nothing is sent) where it does
/// and no token was saved.
pub fn request_token(needs_login: bool, saved: Option<String>) -> (r: Result<
    Option<String>,
    CliError,
>)
    ensures
        !needs_login ==> r matches Ok(None),
        needs_login ==> match saved {
            Some(t) => r matches Ok(Some(u)) && u@ == t@,
            None => r matches Err(CliError::NotLoggedIn),
        },
{
    if !needs_login {
        Ok(None)
    } else {
        match saved {
            Some(t) => Ok(Some(t)),
            None => Err(CliError::NotLoggedIn),
        }
    }
}

} // verus!
