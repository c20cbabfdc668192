//! The enqueue operation and the wire encoding of outbound events.
//!
//! The downstream consumer's contract is the JSON document described by
//! [`event_json`]; [`encode_event`] emits exactly that document and
//! [`decode_event`] reads it back.

use vstd::prelude::*;
use vstd::string::*;

use crate::json::Json;
use crate::json::JsonVal;
use crate::json::dec_document;
use crate::json::enc;
use crate::json::jview;
use crate::json::jview_membs;
use crate::json::jview_seq;
use crate::json::json_to_string;
use crate::json::lemma_jview_membs_index;
use crate::json::lemma_jview_membs_len;
use crate::json::lemma_jview_seq_index;
use crate::json::lemma_jview_seq_len;
use crate::json::lemma_round_trip;
use crate::json::parse_json;
use crate::json::lemma_wf_membs_pointwise;
use crate::json::lemma_wf_vals_pointwise;
use crate::json::wf_json;
use crate::server::ClientEventV;
use crate::server::MozDefEvent;
use crate::server::MozDefEventV;
use crate::server::lemma_field_keys;
use crate::server::lemma_obj_get_at;
use crate::server::lemma_parse_client_wf;
use crate::server::lemma_severity_name_round;
use crate::server::lemma_strings_round;
use crate::server::outbound_from_json;
use crate::server::outbound_of_json;
use crate::server::severity_name;
use crate::server::spec_parse_client;
use crate::server::spec_transform;
use crate::server::wf_event;

verus! {

/// An operation for enqueuing data e.g. into SQS.
pub struct Enqueue<T>(pub T);

/// Errors that may be encountered trying to queue an event.
#[derive(Debug, PartialEq, Eq)]
pub enum EnqueueError {
    /// The backend reported failure to deliver; its diagnostic text rides
    /// along for logging and is never shown to clients.
    Backend(String),
    /// The shared handle guarding the backend could not be acquired.
    Lock,
}

/// The JSON document an outbound event serializes to: one object holding
/// the six client fields, then the provenance fields, in schema order.
pub open spec fn event_json(e: MozDefEventV) -> JsonVal {
    JsonVal::Obj(
        seq![
            ("category"@, JsonVal::Str(e.category)),
            ("hostname"@, JsonVal::Str(e.hostname)),
            ("severity"@, JsonVal::Str(severity_name(e.severity))),
            ("process"@, JsonVal::Str(e.process)),
            ("summary"@, JsonVal::Str(e.summary)),
            ("tags"@, JsonVal::Arr(e.tags.map_values(|t: Seq<char>| JsonVal::Str(t)))),
            ("details"@, JsonVal::Obj(e.details)),
            ("source"@, JsonVal::Str(e.source)),
            ("timestamp"@, JsonVal::Str(e.timestamp)),
            ("utctimestamp"@, JsonVal::Str(e.utctimestamp)),
        ],
    )
}

/// The exact message body sent for an outbound event.
pub open spec fn spec_encode_event(e: MozDefEventV) -> Seq<char> {
    enc(event_json(e))
}

/// What decoding a message body yields.
pub open spec fn spec_decode_event(s: Seq<char>) -> Option<MozDefEventV> {
    match dec_document(s) {
        None => None,
        Some(j) => outbound_of_json(j),
    }
}

/// Serializes an outbound event to its canonical JSON text, the exact
/// document [`event_json`] describes.
pub fn encode_event(e: MozDefEvent) -> (r: String)
    ensures
        r@ == spec_encode_event(e@),
{
    let ghost ev = e@;
    let sevname = e.severity.name();
    let MozDefEvent {
        category,
        hostname,
        severity,
        process,
        summary,
        tags,
        details,
        source,
        timestamp,
        utctimestamp,
    } = e;
    // the tags array
    let mut tv: Vec<Json> = Vec::new();
    let mut i: usize = 0;
    while i < tags.len()
        invariant
            i <= tags.len(),
            tv@.len() == i,
            forall|p: int| 0 <= p < i ==> #[trigger] jview(tv@[p]) == JsonVal::Str(tags@[p]@),
        decreases tags.len() - i,
    {
        let ghost pre = tv@;
        tv.push(Json::Str(tags[i].clone()));
        i = i + 1;
        proof {
            assert forall|p: int| 0 <= p < i implies #[trigger] jview(tv@[p]) == JsonVal::Str(
                tags@[p]@,
            ) by {
                if p < i - 1 {
                    assert(tv@[p] == pre[p]);
                }
            }
        }
    }
    proof {
        lemma_jview_seq_len(tv@);
        assert forall|p: int| 0 <= p < tv@.len() implies #[trigger] jview_seq(tv@)[p]
            == ev.tags.map_values(|t: Seq<char>| JsonVal::Str(t))[p] by {
            lemma_jview_seq_index(tv@, p);
        }
        assert(jview_seq(tv@) =~= ev.tags.map_values(|t: Seq<char>| JsonVal::Str(t)));
    }
    // the object, in schema order
    let mut ms: Vec<(String, Json)> = Vec::new();
    ms.push((String::from_str("category"), Json::Str(category)));
    ms.push((String::from_str("hostname"), Json::Str(hostname)));
    ms.push((String::from_str("severity"), Json::Str(sevname)));
    ms.push((String::from_str("process"), Json::Str(process)));
    ms.push((String::from_str("summary"), Json::Str(summary)));
    ms.push((String::from_str("tags"), Json::Arr(tv)));
    ms.push((String::from_str("details"), Json::Obj(details)));
    ms.push((String::from_str("source"), Json::Str(source)));
    ms.push((String::from_str("timestamp"), Json::Str(timestamp)));
    ms.push((String::from_str("utctimestamp"), Json::Str(utctimestamp)));
    let obj = Json::Obj(ms);
    proof {
        let target = match event_json(ev) {
            JsonVal::Obj(t) => t,
            _ => Seq::empty(),
        };
        lemma_jview_membs_len(obj->Obj_0@);
        assert forall|p: int| 0 <= p < 10 implies #[trigger] jview_membs(obj->Obj_0@)[p]
            == target[p] by {
            lemma_jview_membs_index(obj->Obj_0@, p);
        }
        assert(jview_membs(obj->Obj_0@) =~= target);
    }
    json_to_string(&obj)
}

/// Decodes a message body back into an outbound event, as
/// [`spec_decode_event`] gives it.
pub fn decode_event(s: &str) -> (r: Option<MozDefEvent>)
    ensures
        r is None <==> spec_decode_event(s@) is None,
        r matches Some(e) ==> spec_decode_event(s@) == Some(e@),
{
    match parse_json(s) {
        None => None,
        Some(j) => outbound_from_json(j),
    }
}

// ---------------------------------------------------------------------------
// Laws of the wire format
// ---------------------------------------------------------------------------

/// The document of a well-formed event is well formed.
proof fn lemma_event_json_wf(e: MozDefEventV)
    requires
        wf_event(e),
    ensures
        wf_json(event_json(e)),
{
    let ms = event_json(e)->Obj_0;
    let tagsv = e.tags.map_values(|t: Seq<char>| JsonVal::Str(t));
    assert(forall|p: int| 0 <= p < tagsv.len() ==> wf_json(#[trigger] tagsv[p]));
    lemma_wf_vals_pointwise(tagsv);
    assert forall|p: int| 0 <= p < ms.len() implies wf_json((#[trigger] ms[p]).1) by {
        assert(wf_json(JsonVal::Arr(tagsv)));
        assert(wf_json(JsonVal::Obj(e.details)));
    }
    lemma_wf_membs_pointwise(ms);
}

/// Reading the schema fields back out of an event's document recovers the
/// event, field for field.
proof fn lemma_event_json_fields(e: MozDefEventV)
    ensures
        outbound_of_json(event_json(e)) == Some(e),
{
    let ms = event_json(e)->Obj_0;
    lemma_field_keys();
    lemma_obj_get_at(ms, 0, "category"@);
    lemma_obj_get_at(ms, 1, "hostname"@);
    lemma_obj_get_at(ms, 2, "severity"@);
    lemma_obj_get_at(ms, 3, "process"@);
    lemma_obj_get_at(ms, 4, "summary"@);
    lemma_obj_get_at(ms, 5, "tags"@);
    lemma_obj_get_at(ms, 6, "details"@);
    lemma_obj_get_at(ms, 7, "source"@);
    lemma_obj_get_at(ms, 8, "timestamp"@);
    lemma_obj_get_at(ms, 9, "utctimestamp"@);
    lemma_severity_name_round(e.severity);
    lemma_strings_round(e.tags);
}

/// Round trip: the encoded message of any well-formed outbound event
/// decodes back to exactly that event, field for field.
pub proof fn lemma_event_round_trip(e: MozDefEventV)
    requires
        wf_event(e),
    ensures
        spec_decode_event(spec_encode_event(e)) == Some(e),
{
    lemma_event_json_wf(e);
    lemma_round_trip(event_json(e));
    lemma_event_json_fields(e);
}

/// A delivered message is faithful: for any request body that parses to a
/// client event, the message sent for its transformation decodes back to
/// exactly that transformation, whatever timestamps were taken.
pub proof fn lemma_queued_message_faithful(
    body: Seq<char>,
    c: ClientEventV,
    ts: Seq<char>,
    utc: Seq<char>,
)
    requires
        spec_parse_client(body) == Some(c),
    ensures
        spec_decode_event(spec_encode_event(spec_transform(c, ts, utc))) == Some(
            spec_transform(c, ts, utc),
        ),
{
    lemma_parse_client_wf(body);
    lemma_event_round_trip(spec_transform(c, ts, utc));
}

} // verus!
