//! A registry query: the URL that a filter asks for, and how the answer
//! becomes the query's outcome.

use vstd::prelude::*;
use vstd::string::*;

use crate::model::{ParseError, WhoisResult, error_message};
use crate::events::parse_spec;
use crate::xmlparser::{StdWhoisXmlParser, WhoisXmlParser, xml_events};

verus! {

/// What to list the networks of.
#[derive(Clone, Debug, PartialEq, Eq)]
pub enum Filter {
    /// A point-of-contact handle.
    PointOfContact(String),
    /// An organization handle.
    Organization(String),
}

/// Why the registry's answer could not be had.
#[derive(Clone, Debug, PartialEq, Eq)]
pub enum HttpClientError {
    /// The registry answered with a status other than success.
    HttpError(String),
    /// The request failed before an answer came.
    Unknown(String),
}

/// Why a query failed, by the stage that failed.
#[derive(Clone, Debug, PartialEq, Eq)]
pub enum QueryError {
    Http(HttpClientError),
    Parse(ParseError),
}

/// The text that reports a failed query to a user, by stage.
pub open spec fn query_message(e: QueryError) -> Seq<char> {
    match e {
        QueryError::Http(HttpClientError::HttpError(m)) => "HTTP Error: "@ + m@,
        QueryError::Http(HttpClientError::Unknown(m)) => "HTTP Error: "@ + m@,
        QueryError::Parse(p) => "XML Error: "@ + error_message(p@),
    }
}

impl QueryError {
    /// The text that reports this failure to a user, naming the stage.
    pub fn message(&self) -> (r: String)
        ensures
            r@ == query_message(*self),
    {
        match self {
            QueryError::Http(h) => {
                let m = match h {
                    HttpClientError::HttpError(m) => m,
                    HttpClientError::Unknown(m) => m,
                };
                let mut r = "HTTP Error: ".to_owned();
                r.append(m.as_str());
                r
            },
            QueryError::Parse(p) => {
                let m = p.message();
                let mut r = "XML Error: ".to_owned();
                r.append(m.as_str());
                r
            },
        }
    }
}

/// The URL that lists the networks of the handle in `f`, with details.
pub open spec fn url_text(f: Filter) -> Seq<char> {
    match f {
        Filter::PointOfContact(h) => "http://whois.arin.net/rest/poc/"@ + h@ + "/nets?showDetails=true"@,
        Filter::Organization(h) => "http://whois.arin.net/rest/org/"@ + h@ + "/nets?showDetails=true"@,
    }
}

/// The URL that lists the networks that `filter` names.
pub fn url_from_filter(filter: &Filter) -> (r: String)
    ensures
        r@ == url_text(*filter),
{
    let (prefix, handle) = match filter {
        Filter::PointOfContact(h) => ("http://whois.arin.net/rest/poc/", h),
        Filter::Organization(h) => ("http://whois.arin.net/rest/org/", h),
    };
    let mut url = prefix.to_owned();
    url.append(handle.as_str());
    url.append("/nets?showDetails=true");
    url
}

/// The outcome of a query from what the registry answered: a failure to get
/// the answer as it came, else the ranges that the body reads as.
pub fn resolve_response(parser: &StdWhoisXmlParser, response: Result<Vec<u8>, HttpClientError>) -> (r: Result<
    WhoisResult,
    QueryError,
>)
    ensures
        match response {
            Err(h) => r == Err::<WhoisResult, QueryError>(QueryError::Http(h)),
            Ok(body) => match parse_spec(xml_events(body@)) {
                Ok(rs) => r is Ok && r->Ok_0@ == rs,
                Err(e) => r is Err && r->Err_0 is Parse && r->Err_0->Parse_0@ == e,
            },
        },
{
    match response {
        Err(h) => Err(QueryError::Http(h)),
        Ok(body) => match parser.parse_content(body.as_slice()) {
            Ok(w) => Ok(w),
            Err(e) => Err(QueryError::Parse(e)),
        },
    }
}

} // verus!
