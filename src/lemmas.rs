//! What the range reader guarantees of whole documents, stated over the
//! event sequences that a document reads as.

use vstd::prelude::*;

use crate::events::{
    EventView, ScanView, StepView, decode_field, attr_value, initial_scan, parse_spec, run_spec, step_spec,
    false_prefix,
};
use crate::model::{ParseError, ParseErrorView, RangeView, WhoisResult, outcome_view};
use crate::xmlparser::xml_events;

verus! {

/// Reading the events `evs` from state `st` without ending the document:
/// the state reached, or the outcome if an event ended the read.
pub open spec fn run_prefix(st: ScanView, evs: Seq<EventView>) -> StepView
    decreases evs.len(),
{
    if evs.len() == 0 {
        StepView::Continue(st)
    } else {
        match step_spec(st, evs[0]) {
            StepView::Stop(r) => StepView::Stop(r),
            StepView::Continue(next) => run_prefix(next, evs.drop_first()),
        }
    }
}

/// The attribute list of an element.
pub type Attributes = Seq<(Seq<char>, Seq<char>)>;

/// An event that changes nothing outside a record or a truncation marker:
/// declarations, comments, text, and elements other than those two.
pub open spec fn is_neutral(e: EventView) -> bool {
    match e {
        EventView::Start { name, attributes } => name != "netRef"@ && name != "limitExceeded"@,
        EventView::End { name } => name != "netRef"@ && name != "limitExceeded"@,
        EventView::CData(_) => false,
        EventView::EndDocument => false,
        EventView::Malformed(_) => false,
        _ => true,
    }
}

pub open spec fn all_neutral(evs: Seq<EventView>) -> bool {
    forall|i: int| 0 <= i < evs.len() ==> #[trigger] is_neutral(evs[i])
}

/// Whether both address attributes of a record element decode.
pub open spec fn record_ok(attrs: Attributes) -> bool {
    decode_field(attrs, "startAddress"@) is Ok && decode_field(attrs, "endAddress"@) is Ok
}

/// The range that a record element with attributes `attrs` describes.
pub open spec fn record_range(attrs: Attributes) -> RangeView {
    RangeView {
        name: attr_value(attrs, "name"@),
        start: decode_field(attrs, "startAddress"@)->Ok_0,
        end: decode_field(attrs, "endAddress"@)->Ok_0,
    }
}

/// The error of a record element whose addresses do not both decode: that
/// of the start address if it fails, else that of the end address.
pub open spec fn first_address_error(attrs: Attributes) -> ParseErrorView {
    match decode_field(attrs, "startAddress"@) {
        Err(e) => e,
        Ok(_) => decode_field(attrs, "endAddress"@)->Err_0,
    }
}

/// A record: the events before it, its element's attributes, and the
/// events inside the element.
pub type Record = (Seq<EventView>, Attributes, Seq<EventView>);

pub open spec fn record_events(r: Record) -> Seq<EventView> {
    r.0 + seq![EventView::Start { name: "netRef"@, attributes: r.1 }] + r.2 + seq![EventView::End { name: "netRef"@ }]
}

/// A record whose addresses decode and whose surrounding events are neutral.
pub open spec fn record_fine(r: Record) -> bool {
    all_neutral(r.0) && record_ok(r.1) && all_neutral(r.2)
}

/// The events of a run of records, in order.
pub open spec fn records_events(records: Seq<Record>) -> Seq<EventView>
    decreases records.len(),
{
    if records.len() == 0 {
        Seq::empty()
    } else {
        records_events(records.drop_last()) + record_events(records.last())
    }
}

/// The truncation marker that reads `false`.
pub open spec fn complete_marker(limit_attrs: Attributes) -> Seq<EventView> {
    seq![
        EventView::Start { name: "limitExceeded"@, attributes: limit_attrs },
        EventView::Text("false"@),
        EventView::End { name: "limitExceeded"@ },
    ]
}

/// The events of a listing: neutral events (the declaration, the root's
/// opening, whitespace), a truncation marker reading `false`, the records,
/// neutral events again (the root's closing), and the end of the document.
pub open spec fn listing_events(
    prologue: Seq<EventView>,
    limit_attrs: Attributes,
    records: Seq<Record>,
    epilogue: Seq<EventView>,
) -> Seq<EventView> {
    prologue + complete_marker(limit_attrs) + records_events(records) + epilogue + seq![EventView::EndDocument]
}

/// The ranges of `records`, in order.
pub open spec fn records_ranges(records: Seq<Record>) -> Seq<RangeView> {
    Seq::new(records.len(), |i: int| record_range(records[i].1))
}

/// Whether an event is text, whitespace or not.
pub open spec fn is_text(e: EventView) -> bool {
    e is Text || e is Whitespace
}

pub open spec fn text_of(e: EventView) -> Seq<char> {
    match e {
        EventView::Text(t) => t,
        EventView::Whitespace(t) => t,
        _ => Seq::empty(),
    }
}

/// The text of a run of text events, joined.
pub open spec fn texts_of(evs: Seq<EventView>) -> Seq<char>
    decreases evs.len(),
{
    if evs.len() == 0 {
        Seq::empty()
    } else {
        text_of(evs[0]) + texts_of(evs.drop_first())
    }
}

pub open spec fn is_blank_char(c: char) -> bool {
    c == ' ' || c == '\t' || c == '\n' || c == '\r'
}

/// A whitespace event whose text is blanks only.
pub open spec fn blank_event(e: EventView) -> bool {
    e is Whitespace && forall|j: int| 0 <= j < text_of(e).len() ==> #[trigger] is_blank_char(text_of(e)[j])
}

proof fn lemma_run_concat(st: ScanView, a: Seq<EventView>, b: Seq<EventView>)
    ensures
        run_spec(st, a + b) == match run_prefix(st, a) {
            StepView::Continue(s) => run_spec(s, b),
            StepView::Stop(r) => r,
        },
    decreases a.len(),
{
    if a.len() == 0 {
        assert(a + b =~= b);
    } else {
        assert((a + b)[0] == a[0]);
        assert((a + b).drop_first() =~= a.drop_first() + b);
        if let StepView::Continue(next) = step_spec(st, a[0]) {
            lemma_run_concat(next, a.drop_first(), b);
        }
    }
}

proof fn lemma_prefix_concat(st: ScanView, a: Seq<EventView>, b: Seq<EventView>)
    ensures
        run_prefix(st, a + b) == match run_prefix(st, a) {
            StepView::Continue(s) => run_prefix(s, b),
            StepView::Stop(r) => StepView::Stop(r),
        },
    decreases a.len(),
{
    if a.len() == 0 {
        assert(a + b =~= b);
    } else {
        assert((a + b)[0] == a[0]);
        assert((a + b).drop_first() =~= a.drop_first() + b);
        if let StepView::Continue(next) = step_spec(st, a[0]) {
            lemma_prefix_concat(next, a.drop_first(), b);
        }
    }
}

proof fn lemma_prefix_one(st: ScanView, e: EventView)
    ensures
        run_prefix(st, seq![e]) == step_spec(st, e),
{
    let one = seq![e];
    assert(one[0] == e);
    assert(one.drop_first().len() == 0);
    if let StepView::Continue(n) = step_spec(st, e) {
        assert(run_prefix(n, one.drop_first()) == StepView::Continue(n));
    }
}

proof fn lemma_neutral_run(st: ScanView, evs: Seq<EventView>)
    requires
        st.limit_text is None,
        all_neutral(evs),
    ensures
        run_prefix(st, evs) == StepView::Continue(st),
    decreases evs.len(),
{
    if evs.len() > 0 {
        assert(is_neutral(evs[0]));
        assert(step_spec(st, evs[0]) == StepView::Continue(st));
        let rest = evs.drop_first();
        assert forall|i: int| 0 <= i < rest.len() implies #[trigger] is_neutral(rest[i]) by {
            assert(rest[i] == evs[i + 1]);
        }
        lemma_neutral_run(st, rest);
    }
}

proof fn lemma_record_prefix(ranges: Seq<RangeView>, r: Record)
    requires
        record_fine(r),
    ensures
        run_prefix(ScanView { pending: None, limit_text: None, ranges }, record_events(r)) == StepView::Continue(
            ScanView { pending: None, limit_text: None, ranges: ranges.push(record_range(r.1)) },
        ),
{
    let s0 = ScanView { pending: None, limit_text: None, ranges };
    let s1 = ScanView { pending: Some(record_range(r.1)), limit_text: None, ranges };
    let s2 = ScanView { pending: None, limit_text: None, ranges: ranges.push(record_range(r.1)) };
    let open = seq![EventView::Start { name: "netRef"@, attributes: r.1 }];
    let close = seq![EventView::End { name: "netRef"@ }];
    lemma_neutral_run(s0, r.0);
    lemma_prefix_one(s0, open[0]);
    assert(step_spec(s0, open[0]) == StepView::Continue(s1));
    lemma_neutral_run(s1, r.2);
    lemma_prefix_one(s1, close[0]);
    assert(step_spec(s1, close[0]) == StepView::Continue(s2));
    lemma_prefix_concat(s0, r.0 + open + r.2, close);
    lemma_prefix_concat(s0, r.0 + open, r.2);
    lemma_prefix_concat(s0, r.0, open);
}

proof fn lemma_records_prefix(ranges: Seq<RangeView>, records: Seq<Record>)
    requires
        forall|i: int| 0 <= i < records.len() ==> #[trigger] record_fine(records[i]),
    ensures
        run_prefix(ScanView { pending: None, limit_text: None, ranges }, records_events(records))
            == StepView::Continue(
            ScanView { pending: None, limit_text: None, ranges: ranges + records_ranges(records) },
        ),
    decreases records.len(),
{
    let st = ScanView { pending: None, limit_text: None, ranges };
    if records.len() == 0 {
        assert(ranges + records_ranges(records) =~= ranges);
    } else {
        let init = records.drop_last();
        assert forall|i: int| 0 <= i < init.len() implies #[trigger] record_fine(init[i]) by {
            assert(init[i] == records[i]);
        }
        lemma_records_prefix(ranges, init);
        let mid_ranges = ranges + records_ranges(init);
        assert(record_fine(records[records.len() - 1]));
        lemma_prefix_concat(st, records_events(init), record_events(records.last()));
        lemma_record_prefix(mid_ranges, records.last());
        assert(mid_ranges.push(record_range(records.last().1)) =~= ranges + records_ranges(records));
    }
}

proof fn lemma_complete_marker(st: ScanView, limit_attrs: Attributes)
    requires
        st.limit_text is None,
    ensures
        run_prefix(st, complete_marker(limit_attrs)) == StepView::Continue(st),
{
    reveal_strlit("netRef");
    reveal_strlit("limitExceeded");
    reveal_strlit("false");
    assert("netRef"@.len() == 6 && "limitExceeded"@.len() == 13);
    assert("limitExceeded"@ != "netRef"@);
    let m = complete_marker(limit_attrs);
    let marked = ScanView { pending: st.pending, limit_text: Some(Seq::empty()), ranges: st.ranges };
    let read = ScanView { pending: st.pending, limit_text: Some("false"@), ranges: st.ranges };
    let m1 = m.drop_first();
    let m2 = m1.drop_first();
    assert(m2.drop_first().len() == 0);
    assert(step_spec(st, m[0]) == StepView::Continue(marked));
    assert(Seq::<char>::empty() + "false"@ =~= "false"@);
    assert("false"@.take(5) =~= "false"@);
    assert(false_prefix("false"@));
    assert(step_spec(marked, m1[0]) == StepView::Continue(read));
    assert(step_spec(read, m2[0]) == StepView::Continue(st));
    assert(run_prefix(st, m2.drop_first()) == StepView::Continue(st));
    assert(run_prefix(read, m2) == StepView::Continue(st));
    assert(run_prefix(marked, m1) == run_prefix(read, m2));
    assert(run_prefix(st, m) == run_prefix(marked, m1));
}

/// A listing whose truncation marker reads `false` and whose records all
/// carry decodable addresses reads as exactly those records' ranges, one per
/// record, in document order, whatever neutral events (declarations,
/// comments, whitespace, other elements) stand around and between them.
pub proof fn lemma_listing_ranges(
    prologue: Seq<EventView>,
    limit_attrs: Attributes,
    records: Seq<Record>,
    epilogue: Seq<EventView>,
)
    requires
        all_neutral(prologue),
        all_neutral(epilogue),
        forall|i: int| 0 <= i < records.len() ==> #[trigger] record_fine(records[i]),
    ensures
        parse_spec(listing_events(prologue, limit_attrs, records, epilogue)) == Ok::<
            Seq<RangeView>,
            ParseErrorView,
        >(records_ranges(records)),
{
    let clean = initial_scan();
    let done = ScanView { pending: None, limit_text: None, ranges: records_ranges(records) };
    let m = complete_marker(limit_attrs);
    let body = records_events(records);
    let tail = seq![EventView::EndDocument];
    lemma_neutral_run(clean, prologue);
    lemma_complete_marker(clean, limit_attrs);
    lemma_records_prefix(Seq::empty(), records);
    assert(Seq::<RangeView>::empty() + records_ranges(records) =~= records_ranges(records));
    lemma_neutral_run(done, epilogue);
    lemma_prefix_concat(clean, prologue, m);
    lemma_prefix_concat(clean, prologue + m, body);
    lemma_prefix_concat(clean, prologue + m + body, epilogue);
    lemma_run_concat(clean, prologue + m + body + epilogue, tail);
    assert(tail.drop_first().len() == 0);
    assert(run_spec(done, tail) == Ok::<Seq<RangeView>, ParseErrorView>(records_ranges(records)));
}

/// A listing with no records whose truncation marker reads `false` reads as
/// the empty list, not as an error.
pub proof fn lemma_empty_listing(prologue: Seq<EventView>, limit_attrs: Attributes, epilogue: Seq<EventView>)
    requires
        all_neutral(prologue),
        all_neutral(epilogue),
    ensures
        parse_spec(listing_events(prologue, limit_attrs, Seq::empty(), epilogue)) == Ok::<
            Seq<RangeView>,
            ParseErrorView,
        >(Seq::empty()),
{
    lemma_listing_ranges(prologue, limit_attrs, Seq::empty(), epilogue);
    assert(records_ranges(Seq::<Record>::empty()) =~= Seq::<RangeView>::empty());
}

proof fn lemma_marker_content(st: ScanView, acc: Seq<char>, content: Seq<EventView>)
    requires
        st.limit_text == Some(acc),
        forall|i: int| 0 <= i < content.len() ==> #[trigger] is_text(content[i]),
    ensures
        run_prefix(st, content) == StepView::Stop(Err::<Seq<RangeView>, ParseErrorView>(ParseErrorView::LimitExceeded))
            || run_prefix(st, content) == StepView::Continue(
            ScanView { pending: st.pending, limit_text: Some(acc + texts_of(content)), ranges: st.ranges },
        ),
    decreases content.len(),
{
    if content.len() == 0 {
        assert(acc + texts_of(content) =~= acc);
    } else {
        assert(is_text(content[0]));
        let t = text_of(content[0]);
        let rest = content.drop_first();
        assert forall|i: int| 0 <= i < rest.len() implies #[trigger] is_text(rest[i]) by {
            assert(rest[i] == content[i + 1]);
        }
        if false_prefix(acc + t) {
            let next = ScanView { pending: st.pending, limit_text: Some(acc + t), ranges: st.ranges };
            assert(step_spec(st, content[0]) == StepView::Continue(next));
            lemma_marker_content(next, acc + t, rest);
            assert((acc + t) + texts_of(rest) =~= acc + texts_of(content));
        }
    }
}

/// A truncation marker whose text is anything but exactly `false` fails the
/// read with `LimitExceeded`: text other than `false`, no text at all, or
/// text split over several events, whatever records come before or after
/// it, as long as the events before it read without error.
pub proof fn lemma_marker_not_false_fails(
    before: Seq<EventView>,
    limit_attrs: Attributes,
    content: Seq<EventView>,
    after: Seq<EventView>,
)
    requires
        run_prefix(initial_scan(), before) is Continue,
        forall|i: int| 0 <= i < content.len() ==> #[trigger] is_text(content[i]),
        texts_of(content) != "false"@,
    ensures
        parse_spec(
            before + seq![EventView::Start { name: "limitExceeded"@, attributes: limit_attrs }] + content
                + seq![EventView::End { name: "limitExceeded"@ }] + after,
        ) == Err::<Seq<RangeView>, ParseErrorView>(ParseErrorView::LimitExceeded),
{
    reveal_strlit("netRef");
    reveal_strlit("limitExceeded");
    assert("netRef"@.len() == 6 && "limitExceeded"@.len() == 13);
    assert("limitExceeded"@ != "netRef"@);
    let init = initial_scan();
    let open = seq![EventView::Start { name: "limitExceeded"@, attributes: limit_attrs }];
    let close = seq![EventView::End { name: "limitExceeded"@ }];
    let s = run_prefix(init, before)->Continue_0;
    let marked = ScanView { pending: s.pending, limit_text: Some(Seq::empty()), ranges: s.ranges };
    lemma_prefix_one(s, open[0]);
    assert(step_spec(s, open[0]) == StepView::Continue(marked));
    lemma_marker_content(marked, Seq::empty(), content);
    assert(Seq::<char>::empty() + texts_of(content) =~= texts_of(content));
    let filled = ScanView { pending: s.pending, limit_text: Some(texts_of(content)), ranges: s.ranges };
    lemma_prefix_one(filled, close[0]);
    lemma_prefix_concat(init, before, open);
    lemma_prefix_concat(init, before + open, content);
    lemma_prefix_concat(init, before + open + content, close);
    lemma_run_concat(init, before + open + content + close, after);
}

proof fn lemma_blank_texts(evs: Seq<EventView>)
    requires
        forall|i: int| 0 <= i < evs.len() ==> #[trigger] blank_event(evs[i]),
    ensures
        forall|j: int| 0 <= j < texts_of(evs).len() ==> #[trigger] is_blank_char(texts_of(evs)[j]),
    decreases evs.len(),
{
    if evs.len() > 0 {
        let t = text_of(evs[0]);
        let rest = evs.drop_first();
        assert(blank_event(evs[0]));
        assert forall|i: int| 0 <= i < rest.len() implies #[trigger] blank_event(rest[i]) by {
            assert(rest[i] == evs[i + 1]);
        }
        lemma_blank_texts(rest);
        assert forall|j: int| 0 <= j < texts_of(evs).len() implies #[trigger] is_blank_char(texts_of(evs)[j]) by {
            if j < t.len() {
                assert(texts_of(evs)[j] == t[j]);
            } else {
                assert(texts_of(evs)[j] == texts_of(rest)[j - t.len()]);
            }
        }
    }
}

/// A truncation marker that is empty or holds only whitespace fails the
/// read with `LimitExceeded`, as long as the events before it read without
/// error.
pub proof fn lemma_blank_marker_fails(
    before: Seq<EventView>,
    limit_attrs: Attributes,
    blanks: Seq<EventView>,
    after: Seq<EventView>,
)
    requires
        run_prefix(initial_scan(), before) is Continue,
        forall|i: int| 0 <= i < blanks.len() ==> #[trigger] blank_event(blanks[i]),
    ensures
        parse_spec(
            before + seq![EventView::Start { name: "limitExceeded"@, attributes: limit_attrs }] + blanks
                + seq![EventView::End { name: "limitExceeded"@ }] + after,
        ) == Err::<Seq<RangeView>, ParseErrorView>(ParseErrorView::LimitExceeded),
{
    reveal_strlit("false");
    assert forall|i: int| 0 <= i < blanks.len() implies #[trigger] is_text(blanks[i]) by {
        assert(blank_event(blanks[i]));
    }
    lemma_blank_texts(blanks);
    if texts_of(blanks) == "false"@ {
        assert(is_blank_char(texts_of(blanks)[0]));
    }
    lemma_marker_not_false_fails(before, limit_attrs, blanks, after);
}

/// A record element whose start or end address does not decode fails the
/// read with that address's error, which names the field and the token, and
/// no range of it is produced, as long as the events before it read without
/// error.
pub proof fn lemma_bad_address_fails(before: Seq<EventView>, attrs: Attributes, after: Seq<EventView>)
    requires
        run_prefix(initial_scan(), before) is Continue,
        !record_ok(attrs),
    ensures
        parse_spec(before + seq![EventView::Start { name: "netRef"@, attributes: attrs }] + after) == Err::<
            Seq<RangeView>,
            ParseErrorView,
        >(first_address_error(attrs)),
{
    let record = seq![EventView::Start { name: "netRef"@, attributes: attrs }];
    lemma_run_concat(initial_scan(), before + record, after);
    lemma_prefix_concat(initial_scan(), before, record);
    lemma_prefix_one(run_prefix(initial_scan(), before)->Continue_0, record[0]);
}

/// Reading one document twice gives the same outcome: the same ranges in
/// the same order, or the same error.
pub proof fn lemma_parse_repeatable(
    doc: Seq<u8>,
    first: Result<WhoisResult, ParseError>,
    second: Result<WhoisResult, ParseError>,
)
    requires
        outcome_view(first) == parse_spec(xml_events(doc)),
        outcome_view(second) == parse_spec(xml_events(doc)),
    ensures
        outcome_view(first) == outcome_view(second),
{
}

} // verus!
