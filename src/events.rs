//! The XML events that the range reader consumes, and the reader's state
//! machine over them.
//!
//! Canonical record shape: a range is one `netRef` element whose
//! `startAddress`, `endAddress` and optional `name` attributes carry the
//! fields. Child elements carrying the same fields as text are not read.
//! The truncation marker is the text of a `limitExceeded` element: it must
//! read exactly `false`, and a marker with no text or other text fails the
//! read as soon as its text can no longer spell `false`, at the latest when
//! the marker closes.

use vstd::prelude::*;
use vstd::string::*;

use crate::address::{decode_ip, ip_text, IpAddress};
use crate::model::{ParseError, ParseErrorView, RangeView, WhoisIpResult, WhoisResult, ranges_view, outcome_view};

verus! {

/// One attribute of an element: local name and value.
#[derive(Clone, Debug, PartialEq, Eq)]
pub struct XmlAttribute {
    pub name: String,
    pub value: String,
}

/// One event of a pull-based XML reader, reduced to what the range reader
/// looks at. Names are local names.
#[derive(Clone, Debug, PartialEq, Eq)]
pub enum XmlEvent {
    StartDocument,
    StartElement { name: String, attributes: Vec<XmlAttribute> },
    EndElement { name: String },
    Characters(String),
    /// Text made of whitespace only.
    Whitespace(String),
    CData(String),
    Comment,
    ProcessingInstruction,
    Doctype,
    EndDocument,
    /// The document is not well-formed here; the reader's diagnostic.
    Malformed(String),
}

pub enum EventView {
    StartDocument,
    Start { name: Seq<char>, attributes: Seq<(Seq<char>, Seq<char>)> },
    End { name: Seq<char> },
    Text(Seq<char>),
    Whitespace(Seq<char>),
    CData(Seq<char>),
    Comment,
    ProcessingInstruction,
    Doctype,
    EndDocument,
    Malformed(Seq<char>),
}

pub open spec fn attributes_view(a: Seq<XmlAttribute>) -> Seq<(Seq<char>, Seq<char>)> {
    a.map_values(|x: XmlAttribute| (x.name@, x.value@))
}

impl View for XmlEvent {
    type V = EventView;

    open spec fn view(&self) -> EventView {
        match self {
            XmlEvent::StartDocument => EventView::StartDocument,
            XmlEvent::StartElement { name, attributes } => EventView::Start {
                name: name@,
                attributes: attributes_view(attributes@),
            },
            XmlEvent::EndElement { name } => EventView::End { name: name@ },
            XmlEvent::Characters(t) => EventView::Text(t@),
            XmlEvent::Whitespace(t) => EventView::Whitespace(t@),
            XmlEvent::CData(t) => EventView::CData(t@),
            XmlEvent::Comment => EventView::Comment,
            XmlEvent::ProcessingInstruction => EventView::ProcessingInstruction,
            XmlEvent::Doctype => EventView::Doctype,
            XmlEvent::EndDocument => EventView::EndDocument,
            XmlEvent::Malformed(m) => EventView::Malformed(m@),
        }
    }
}

pub open spec fn events_view(evs: Seq<XmlEvent>) -> Seq<EventView> {
    evs.map_values(|e: XmlEvent| e@)
}

/// Whether a reader stops after this event.
pub open spec fn is_final(e: EventView) -> bool {
    e is EndDocument || e is Malformed
}

/// The value of the first attribute named `key`.
pub open spec fn attr_value(attrs: Seq<(Seq<char>, Seq<char>)>, key: Seq<char>) -> Option<Seq<char>>
    decreases attrs.len(),
{
    if attrs.len() == 0 {
        None
    } else {
        match attr_value(attrs.drop_last(), key) {
            Some(v) => Some(v),
            None => if attrs.last().0 == key {
                Some(attrs.last().1)
            } else {
                None
            },
        }
    }
}

/// The message of an address that does not decode.
pub open spec fn address_error_text(field: Seq<char>, token: Seq<char>) -> Seq<char> {
    "Failed to parse IP address: invalid IP address syntax ("@ + token + ") in "@ + field
}

/// Decoding of the token of an address field.
pub open spec fn decode_token(field: Seq<char>, token: Seq<char>) -> Result<IpAddress, ParseErrorView> {
    match ip_text(token) {
        Some(a) => Ok(a),
        None => Err(ParseErrorView::IpAddrError(address_error_text(field, token))),
    }
}

/// Decoding of an address attribute; an absent one reads as empty.
pub open spec fn decode_field(attrs: Seq<(Seq<char>, Seq<char>)>, field: Seq<char>) -> Result<IpAddress, ParseErrorView> {
    decode_token(
        field,
        match attr_value(attrs, field) {
            Some(t) => t,
            None => Seq::<char>::empty(),
        },
    )
}

/// The reader's state between two events.
pub struct ScanView {
    /// The range of the open record element.
    pub pending: Option<RangeView>,
    /// The text read so far inside the open truncation marker, if one is open.
    pub limit_text: Option<Seq<char>>,
    /// The ranges of the closed records, in document order.
    pub ranges: Seq<RangeView>,
}

pub open spec fn initial_scan() -> ScanView {
    ScanView { pending: None, limit_text: None, ranges: Seq::empty() }
}

pub enum StepView {
    Continue(ScanView),
    Stop(Result<Seq<RangeView>, ParseErrorView>),
}

/// Whether `s` can still grow into the marker text `false`.
pub open spec fn false_prefix(s: Seq<char>) -> bool {
    s.len() <= "false"@.len() && "false"@.take(s.len() as int) == s
}

/// What text inside the truncation marker does to the state.
pub open spec fn marker_text_step(st: ScanView, t: Seq<char>) -> StepView {
    match st.limit_text {
        Some(acc) => if false_prefix(acc + t) {
            StepView::Continue(ScanView { pending: st.pending, limit_text: Some(acc + t), ranges: st.ranges })
        } else {
            StepView::Stop(Err(ParseErrorView::LimitExceeded))
        },
        None => StepView::Continue(st),
    }
}

/// What one event does to the state.
pub open spec fn step_spec(st: ScanView, ev: EventView) -> StepView {
    match ev {
        EventView::Start { name, attributes } => {
            if name == "netRef"@ {
                match decode_field(attributes, "startAddress"@) {
                    Err(e) => StepView::Stop(Err(e)),
                    Ok(start) => match decode_field(attributes, "endAddress"@) {
                        Err(e) => StepView::Stop(Err(e)),
                        Ok(end) => StepView::Continue(
                            ScanView {
                                pending: Some(RangeView { name: attr_value(attributes, "name"@), start, end }),
                                limit_text: st.limit_text,
                                ranges: st.ranges,
                            },
                        ),
                    },
                }
            } else if name == "limitExceeded"@ {
                StepView::Continue(
                    ScanView { pending: st.pending, limit_text: Some(Seq::empty()), ranges: st.ranges },
                )
            } else {
                StepView::Continue(st)
            }
        },
        EventView::End { name } => {
            if name == "netRef"@ && st.pending is Some {
                StepView::Continue(
                    ScanView { pending: None, limit_text: st.limit_text, ranges: st.ranges.push(st.pending->0) },
                )
            } else if name == "limitExceeded"@ && st.limit_text is Some {
                if st.limit_text->0 == "false"@ {
                    StepView::Continue(ScanView { pending: st.pending, limit_text: None, ranges: st.ranges })
                } else {
                    StepView::Stop(Err(ParseErrorView::LimitExceeded))
                }
            } else {
                StepView::Continue(st)
            }
        },
        EventView::Text(t) => marker_text_step(st, t),
        EventView::Whitespace(t) => marker_text_step(st, t),
        EventView::CData(_) => StepView::Stop(Err(ParseErrorView::UnexpectedCData)),
        EventView::EndDocument => StepView::Stop(Ok(st.ranges)),
        EventView::Malformed(m) => StepView::Stop(Err(ParseErrorView::XmlError(m))),
        _ => StepView::Continue(st),
    }
}

/// The outcome of reading the events `evs` from state `st`; running out of
/// events ends the document.
pub open spec fn run_spec(st: ScanView, evs: Seq<EventView>) -> Result<Seq<RangeView>, ParseErrorView>
    decreases evs.len(),
{
    if evs.len() == 0 {
        Ok(st.ranges)
    } else {
        match step_spec(st, evs[0]) {
            StepView::Stop(r) => r,
            StepView::Continue(next) => run_spec(next, evs.drop_first()),
        }
    }
}

/// The outcome of reading a whole event sequence.
pub open spec fn parse_spec(evs: Seq<EventView>) -> Result<Seq<RangeView>, ParseErrorView> {
    run_spec(initial_scan(), evs)
}

/// The reader's state.
pub struct ScanState {
    pub pending: Option<WhoisIpResult>,
    pub limit_text: Option<String>,
    pub ranges: Vec<WhoisIpResult>,
}

impl View for ScanState {
    type V = ScanView;

    open spec fn view(&self) -> ScanView {
        ScanView {
            pending: match self.pending {
                Some(r) => Some(r@),
                None => None,
            },
            limit_text: match &self.limit_text {
                Some(t) => Some(t@),
                None => None,
            },
            ranges: ranges_view(self.ranges@),
        }
    }
}

/// What one event did.
pub enum StepOutcome {
    Continue,
    Finish,
    Fail(ParseError),
}

/// Whether `a` and `b` hold the same characters.
fn same_text(a: &str, b: &str) -> (r: bool)
    ensures
        r == (a@ == b@),
{
    let n = a.unicode_len();
    let m = b.unicode_len();
    if n != m {
        return false;
    }
    let mut i: usize = 0;
    while i < n
        invariant
            n == a@.len(),
            m == b@.len(),
            n == m,
            i <= n,
            forall|j: int| 0 <= j < i ==> a@[j] == b@[j],
        decreases n - i,
    {
        if a.get_char(i) != b.get_char(i) {
            return false;
        }
        i += 1;
    }
    assert(a@ =~= b@);
    true
}

/// Whether `s` can still grow into the marker text `false`.
fn is_false_prefix(s: &str) -> (r: bool)
    ensures
        r == false_prefix(s@),
{
    proof {
        reveal_strlit("false");
    }
    let n = s.unicode_len();
    if n > 5 {
        return false;
    }
    let lit = "false";
    let mut i: usize = 0;
    while i < n
        invariant
            n == s@.len() <= 5,
            lit@ == "false"@,
            lit@.len() == 5,
            i <= n,
            forall|j: int| 0 <= j < i ==> s@[j] == lit@[j],
        decreases n - i,
    {
        if s.get_char(i) != lit.get_char(i) {
            assert("false"@.take(n as int)[i as int] != s@[i as int]);
            return false;
        }
        i += 1;
    }
    assert("false"@.take(n as int) =~= s@);
    true
}

/// The position of the first attribute named `key`.
fn find_attr(attrs: &Vec<XmlAttribute>, key: &str) -> (r: Option<usize>)
    ensures
        match attr_value(attributes_view(attrs@), key@) {
            Some(v) => r is Some && r->0 < attrs.len() && attrs@[r->0 as int].value@ == v,
            None => r is None,
        },
{
    let ghost av = attributes_view(attrs@);
    let mut i: usize = 0;
    while i < attrs.len()
        invariant
            i <= attrs.len(),
            av == attributes_view(attrs@),
            attr_value(av.take(i as int), key@) is None,
        decreases attrs.len() - i,
    {
        let ghost next = av.take(i + 1);
        assert(next.drop_last() =~= av.take(i as int));
        if same_text(attrs[i].name.as_str(), key) {
            proof {
                assert(attr_value(next, key@) == Some(attrs@[i as int].value@));
                lemma_attr_value_prefix(av, i + 1, key@);
            }
            return Some(i);
        }
        i += 1;
    }
    assert(av.take(attrs.len() as int) =~= av);
    None
}

/// A first match in a prefix is the first match of the whole.
proof fn lemma_attr_value_prefix(attrs: Seq<(Seq<char>, Seq<char>)>, n: int, key: Seq<char>)
    requires
        0 <= n <= attrs.len(),
        attr_value(attrs.take(n), key) is Some,
    ensures
        attr_value(attrs, key) == attr_value(attrs.take(n), key),
    decreases attrs.len() - n,
{
    if n < attrs.len() {
        let next = attrs.take(n + 1);
        assert(next.drop_last() =~= attrs.take(n));
        lemma_attr_value_prefix(attrs, n + 1, key);
    } else {
        assert(attrs.take(n) =~= attrs);
    }
}

/// The message of an address that does not decode.
fn address_error(field: &str, token: &str) -> (r: String)
    ensures
        r@ == address_error_text(field@, token@),
{
    let mut m = "Failed to parse IP address: invalid IP address syntax (".to_owned();
    m.append(token);
    m.append(") in ");
    m.append(field);
    m
}

/// Decodes the token of the address field `field`.
pub fn parse_ip(field: &str, token: &str) -> (r: Result<IpAddress, ParseError>)
    ensures
        match decode_token(field@, token@) {
            Ok(a) => r == Ok::<IpAddress, ParseError>(a),
            Err(e) => r is Err && r->Err_0@ == e,
        },
{
    match decode_ip(token) {
        Some(a) => Ok(a),
        None => Err(ParseError::IpAddrError(address_error(field, token))),
    }
}

/// Decodes the address attribute `field` of `attrs`.
fn decode_attr(attrs: &Vec<XmlAttribute>, field: &str) -> (r: Result<IpAddress, ParseError>)
    ensures
        match decode_field(attributes_view(attrs@), field@) {
            Ok(a) => r == Ok::<IpAddress, ParseError>(a),
            Err(e) => r is Err && r->Err_0@ == e,
        },
{
    match find_attr(attrs, field) {
        Some(i) => parse_ip(field, attrs[i].value.as_str()),
        None => {
            let empty = String::new();
            parse_ip(field, empty.as_str())
        },
    }
}

impl ScanState {
    pub fn new() -> (r: ScanState)
        ensures
            r@ == initial_scan(),
    {
        let r = ScanState { pending: None, limit_text: None, ranges: Vec::new() };
        assert(r@.ranges =~= Seq::<RangeView>::empty());
        r
    }

    /// Takes one event.
    pub fn step(&mut self, ev: &XmlEvent) -> (r: StepOutcome)
        ensures
            match step_spec(old(self)@, ev@) {
                StepView::Continue(s) => r is Continue && final(self)@ == s,
                StepView::Stop(Ok(rs)) => r is Finish && final(self)@.ranges == rs,
                StepView::Stop(Err(e)) => r is Fail && r->Fail_0@ == e,
            },
    {
        proof {
            reveal_strlit("netRef");
            reveal_strlit("limitExceeded");
            reveal_strlit("false");
        }
        match ev {
            XmlEvent::StartElement { name, attributes } => {
                if same_text(name.as_str(), "netRef") {
                    let start = match decode_attr(attributes, "startAddress") {
                        Ok(a) => a,
                        Err(e) => return StepOutcome::Fail(e),
                    };
                    let end = match decode_attr(attributes, "endAddress") {
                        Ok(a) => a,
                        Err(e) => return StepOutcome::Fail(e),
                    };
                    let label = match find_attr(attributes, "name") {
                        Some(i) => Some(attributes[i].value.clone()),
                        None => None,
                    };
                    self.pending = Some(WhoisIpResult { name: label, start_ip: start, end_ip: end });
                } else if same_text(name.as_str(), "limitExceeded") {
                    self.limit_text = Some(String::new());
                }
                StepOutcome::Continue
            },
            XmlEvent::EndElement { name } => {
                if same_text(name.as_str(), "netRef") && self.pending.is_some() {
                    let ghost old_ranges = ranges_view(self.ranges@);
                    let done = self.pending.take();
                    match done {
                        Some(range) => {
                            self.ranges.push(range);
                        },
                        None => {},
                    }
                    assert(ranges_view(self.ranges@) =~= old_ranges.push(done->0@));
                    StepOutcome::Continue
                } else if same_text(name.as_str(), "limitExceeded") && self.limit_text.is_some() {
                    let marker = self.limit_text.take();
                    match marker {
                        Some(t) => {
                            if same_text(t.as_str(), "false") {
                                StepOutcome::Continue
                            } else {
                                StepOutcome::Fail(ParseError::LimitExceeded)
                            }
                        },
                        None => StepOutcome::Continue,
                    }
                } else {
                    StepOutcome::Continue
                }
            },
            XmlEvent::Characters(t) => self.marker_text(t.as_str()),
            XmlEvent::Whitespace(t) => self.marker_text(t.as_str()),
            XmlEvent::CData(_) => StepOutcome::Fail(ParseError::UnexpectedCData),
            XmlEvent::EndDocument => StepOutcome::Finish,
            XmlEvent::Malformed(m) => StepOutcome::Fail(ParseError::XmlError(m.clone())),
            XmlEvent::StartDocument => StepOutcome::Continue,
            XmlEvent::Comment => StepOutcome::Continue,
            XmlEvent::ProcessingInstruction => StepOutcome::Continue,
            XmlEvent::Doctype => StepOutcome::Continue,
        }
    }

    /// Takes text that may stand inside the truncation marker.
    fn marker_text(&mut self, t: &str) -> (r: StepOutcome)
        ensures
            match marker_text_step(old(self)@, t@) {
                StepView::Continue(s) => r is Continue && final(self)@ == s,
                StepView::Stop(Ok(rs)) => r is Finish && final(self)@.ranges == rs,
                StepView::Stop(Err(e)) => r is Fail && r->Fail_0@ == e,
            },
    {
        match self.limit_text.take() {
            Some(acc) => {
                let mut acc = acc;
                acc.append(t);
                if is_false_prefix(acc.as_str()) {
                    self.limit_text = Some(acc);
                    StepOutcome::Continue
                } else {
                    StepOutcome::Fail(ParseError::LimitExceeded)
                }
            },
            None => StepOutcome::Continue,
        }
    }

    /// The ranges gathered so far, as the result of a parse.
    pub fn into_result(self) -> (r: WhoisResult)
        ensures
            r@ == self@.ranges,
    {
        WhoisResult::new(self.ranges)
    }
}

/// Reads the ranges out of a sequence of events; running out of events
/// ends the document.
pub fn parse_events(events: &Vec<XmlEvent>) -> (r: Result<WhoisResult, ParseError>)
    ensures
        outcome_view(r) == parse_spec(events_view(events@)),
{
    let ghost evs = events_view(events@);
    let mut state = ScanState::new();
    let mut i: usize = 0;
    assert(evs.skip(0) =~= evs);
    while i < events.len()
        invariant
            i <= events.len(),
            evs == events_view(events@),
            parse_spec(evs) == run_spec(state@, evs.skip(i as int)),
        decreases events.len() - i,
    {
        let ghost rest = evs.skip(i as int);
        assert(rest[0] == events@[i as int]@);
        assert(rest.drop_first() =~= evs.skip(i + 1));
        match state.step(&events[i]) {
            StepOutcome::Continue => {},
            StepOutcome::Finish => return Ok(state.into_result()),
            StepOutcome::Fail(e) => return Err(e),
        }
        i += 1;
    }
    assert(evs.skip(i as int).len() == 0);
    Ok(state.into_result())
}

} // verus!
