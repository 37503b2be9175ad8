//! The event stream a listing document yields: a thin, trusted rim around
//! the XML pull parser, and a verified collector that drains a reader into
//! a vector of plain events. Everything downstream of here is verified
//! against the named event stream of the document.
use vstd::prelude::*;

use quick_xml::events::Event;

verus! {

/// A start tag, carrying its name.
pub const EV_START: u8 = 1;

/// An end tag, carrying its name.
pub const EV_END: u8 = 2;

/// Character data between tags, carried as it stands in the document.
pub const EV_TEXT: u8 = 3;

/// The end of the document.
pub const EV_EOF: u8 = 4;

/// Any other well-formed event; the decoder ignores these.
pub const EV_OTHER: u8 = 5;

/// A malformed document: the parser could not continue.
pub const EV_ERROR: u8 = 6;

/// A general reference (`&name;` or `&#code;`) inside character data,
/// carrying the raw name between `&` and `;`; the decoder resolves it.
pub const EV_REF: u8 = 7;

/// One parse event: a kind and its text (a tag name, or character data).
#[derive(Debug, Clone)]
pub struct Ev {
    pub kind: u8,
    pub data: String,
}

impl View for Ev {
    type V = (u8, Seq<char>);

    open spec fn view(&self) -> (u8, Seq<char>) {
        (self.kind, self.data@)
    }
}

/// The view of an event list.
pub open spec fn evs_view(s: Seq<Ev>) -> Seq<(u8, Seq<char>)> {
    s.map_values(|e: Ev| e@)
}

#[verifier::external_type_specification]
#[verifier::external_body]
#[verifier::reject_recursive_types(R)]
pub struct ExReader<R>(quick_xml::Reader<R>);

#[verifier::external_type_specification]
#[verifier::external_body]
#[verifier::reject_recursive_types(T)]
pub struct ExCursor<T>(std::io::Cursor<T>);

/// What the XML parser yields on a document: the events of each call, in
/// order, up to and including the first end-of-document or error event.
pub uninterp spec fn xml_events(doc: Seq<u8>) -> Seq<(u8, Seq<char>)>;

/// The events a reader has still to yield.
pub uninterp spec fn events_of(r: quick_xml::Reader<std::io::Cursor<Vec<u8>>>) -> Seq<
    (u8, Seq<char>),
>;

/// Whether an event kind ends the stream.
pub open spec fn is_final_kind(k: u8) -> bool {
    k == EV_EOF || k == EV_ERROR
}

/// A well-formed event stream: nonempty, ending in exactly one
/// end-of-document or error event.
pub open spec fn wf_events(evs: Seq<(u8, Seq<char>)>) -> bool {
    &&& evs.len() > 0
    &&& is_final_kind(evs.last().0)
    &&& forall|i: int| 0 <= i < evs.len() - 1 ==> !is_final_kind((#[trigger] evs[i]).0)
}

/// Relies on `quick_xml::Reader::from_reader` over an in-memory cursor: the
/// fresh reader will yield the document's event stream, which is finite and
/// ends at the first end-of-document or error result.
#[verifier::external_body]
fn reader_new(doc: Vec<u8>) -> (r: quick_xml::Reader<std::io::Cursor<Vec<u8>>>)
    ensures
        events_of(r) == xml_events(doc@),
        wf_events(events_of(r)),
{
    quick_xml::Reader::from_reader(std::io::Cursor::new(doc))
}

/// Relies on `quick_xml::Reader::read_event_into`: each call yields the
/// next event of the stream. A start or end event carries its tag name and
/// a text or CDATA event its character data; a general reference, which
/// this parser emits as its own event splitting the surrounding text,
/// carries its raw name. Any other well-formed event is passed over and a
/// parse failure is reported as an error event.
#[verifier::external_body]
fn next_event(r: &mut quick_xml::Reader<std::io::Cursor<Vec<u8>>>) -> (e: Ev)
    ensures
        events_of(*old(r)).len() > 0 ==> {
            &&& e@ == events_of(*old(r))[0]
            &&& events_of(*final(r)) == events_of(*old(r)).drop_first()
        },
{
    let mut buf: Vec<u8> = Vec::new();
    let (kind, data) = match r.read_event_into(&mut buf) {
        Ok(Event::Start(s)) => (EV_START, s.name().0.to_string()),
        Ok(Event::End(s)) => (EV_END, s.name().0.to_string()),
        Ok(Event::Text(t)) => (EV_TEXT, t.to_string()),
        Ok(Event::CData(t)) => (EV_TEXT, t.to_string()),
        Ok(Event::GeneralRef(g)) => (EV_REF, g.to_string()),
        Ok(Event::Eof) => (EV_EOF, String::new()),
        Ok(_) => (EV_OTHER, String::new()),
        Err(_) => (EV_ERROR, String::new()),
    };
    Ev { kind, data }
}

/// Drains a document's whole event stream into a vector: exactly the
/// document's events, ending with its single end-of-document or error
/// event.
pub fn read_all_events(doc: Vec<u8>) -> (evs: Vec<Ev>)
    ensures
        wf_events(xml_events(doc@)),
        evs_view(evs@) == xml_events(doc@),
{
    let ghost all = xml_events(doc@);
    let mut r = reader_new(doc);
    let mut out: Vec<Ev> = Vec::new();
    proof {
        assert(evs_view(out@) =~= all.take(0));
        assert(all.skip(0) =~= all);
    }
    loop
        invariant_except_break
            forall|m: int| 0 <= m < out@.len() ==> !is_final_kind((#[trigger] all[m]).0),
        invariant
            wf_events(all),
            out@.len() <= all.len(),
            evs_view(out@) == all.take(out@.len() as int),
            events_of(r) == all.skip(out@.len() as int),
        ensures
            evs_view(out@) == all,
        decreases all.len() - out@.len(),
    {
        proof {
            if out@.len() == all.len() {
                assert(!is_final_kind(all[all.len() - 1].0));
                assert(false);
            }
            assert(events_of(r).len() > 0);
        }
        let ghost k = out@.len() as int;
        let e = next_event(&mut r);
        proof {
            assert(all.skip(k)[0] == all[k]);
            assert(all.skip(k).drop_first() =~= all.skip(k + 1));
        }
        let fin = e.kind == EV_EOF || e.kind == EV_ERROR;
        out.push(e);
        proof {
            assert(evs_view(out@) =~= all.take(k + 1));
        }
        if fin {
            proof {
                if k < all.len() - 1 {
                    assert(!is_final_kind(all[k].0));
                    assert(false);
                }
                assert(evs_view(out@) =~= all);
            }
            break;
        }
    }
    out
}

} // verus!
