//! The data that a parse produces: address ranges and parse errors.

use vstd::prelude::*;

use crate::address::IpAddress;

verus! {

/// One registered network block.
#[derive(Clone, Debug, PartialEq, Eq)]
pub struct WhoisIpResult {
    /// The block's label, where the record carries one.
    pub name: Option<String>,
    pub start_ip: IpAddress,
    pub end_ip: IpAddress,
}

/// A range as a value: its name's characters and its two endpoints.
pub struct RangeView {
    pub name: Option<Seq<char>>,
    pub start: IpAddress,
    pub end: IpAddress,
}

pub open spec fn opt_text(o: Option<String>) -> Option<Seq<char>> {
    match o {
        Some(s) => Some(s@),
        None => None,
    }
}

impl View for WhoisIpResult {
    type V = RangeView;

    open spec fn view(&self) -> RangeView {
        RangeView { name: opt_text(self.name), start: self.start_ip, end: self.end_ip }
    }
}

/// The ranges of one document, in document order.
#[derive(Clone, Debug, PartialEq, Eq)]
pub struct WhoisResult {
    pub ips: Vec<WhoisIpResult>,
}

pub open spec fn ranges_view(rs: Seq<WhoisIpResult>) -> Seq<RangeView> {
    rs.map_values(|r: WhoisIpResult| r@)
}

impl View for WhoisResult {
    type V = Seq<RangeView>;

    open spec fn view(&self) -> Seq<RangeView> {
        ranges_view(self.ips@)
    }
}

impl WhoisResult {
    pub fn new(ips: Vec<WhoisIpResult>) -> (r: WhoisResult)
        ensures
            r.ips == ips,
            r@ == ranges_view(ips@),
    {
        WhoisResult { ips }
    }
}

/// Why a document could not be turned into ranges.
#[derive(Clone, Debug, PartialEq, Eq)]
pub enum ParseError {
    /// The document is not well-formed XML; the reader's diagnostic.
    XmlError(String),
    /// An address field does not decode; names the field and the token.
    IpAddrError(String),
    /// The registry truncated the result set.
    LimitExceeded,
    /// A CDATA section, which this feed never carries.
    UnexpectedCData,
}

pub enum ParseErrorView {
    XmlError(Seq<char>),
    IpAddrError(Seq<char>),
    LimitExceeded,
    UnexpectedCData,
}

impl View for ParseError {
    type V = ParseErrorView;

    open spec fn view(&self) -> ParseErrorView {
        match self {
            ParseError::XmlError(m) => ParseErrorView::XmlError(m@),
            ParseError::IpAddrError(m) => ParseErrorView::IpAddrError(m@),
            ParseError::LimitExceeded => ParseErrorView::LimitExceeded,
            ParseError::UnexpectedCData => ParseErrorView::UnexpectedCData,
        }
    }
}

/// The text that reports an error to a user.
pub open spec fn error_message(e: ParseErrorView) -> Seq<char> {
    match e {
        ParseErrorView::XmlError(m) => m,
        ParseErrorView::IpAddrError(m) => m,
        ParseErrorView::LimitExceeded => "API result limit exceeded"@,
        ParseErrorView::UnexpectedCData => "unexpected CDATA section"@,
    }
}

impl ParseError {
    /// The text that reports this error to a user.
    pub fn message(&self) -> (r: String)
        ensures
            r@ == error_message(self@),
    {
        match self {
            ParseError::XmlError(m) => m.clone(),
            ParseError::IpAddrError(m) => m.clone(),
            ParseError::LimitExceeded => "API result limit exceeded".to_owned(),
            ParseError::UnexpectedCData => "unexpected CDATA section".to_owned(),
        }
    }
}

/// The outcome of a parse as a value.
pub open spec fn outcome_view(r: Result<WhoisResult, ParseError>) -> Result<Seq<RangeView>, ParseErrorView> {
    match r {
        Ok(w) => Ok(w@),
        Err(e) => Err(e@),
    }
}

} // verus!
