//! The client-facing event schema, the downstream schema, and the
//! transformation between them.

use vstd::prelude::*;
use vstd::string::*;

use crate::json::Json;
use crate::json::JsonVal;
use crate::json::dec_document;
use crate::json::jview;
use crate::json::jview_membs;
use crate::json::jview_seq;
use crate::json::lemma_jview_seq_index;
use crate::json::lemma_jview_seq_len;
use crate::json::parse_json;
use crate::capability::Capability;
use crate::json::wf_json;
use crate::queue::Enqueue;
use crate::json::wf_membs;

verus! {

/// Represents each of the possible severity levels for an event.
/// Specified by RFC5424.
#[allow(non_camel_case_types)]
#[derive(Clone, Copy, Debug, PartialEq, Eq, Structural)]
pub enum Severity {
    DEBUG,
    INFO,
    NOTICE,
    WARNING,
    ERROR,
    CRITICAL,
    ALERT,
    EMERGENCY,
}

/// The literal name a severity level serializes to.
pub open spec fn severity_name(sev: Severity) -> Seq<char> {
    match sev {
        Severity::DEBUG => "DEBUG"@,
        Severity::INFO => "INFO"@,
        Severity::NOTICE => "NOTICE"@,
        Severity::WARNING => "WARNING"@,
        Severity::ERROR => "ERROR"@,
        Severity::CRITICAL => "CRITICAL"@,
        Severity::ALERT => "ALERT"@,
        Severity::EMERGENCY => "EMERGENCY"@,
    }
}

/// The severity level a literal names, if any.
pub open spec fn severity_of_name(s: Seq<char>) -> Option<Severity> {
    if s == "DEBUG"@ { Some(Severity::DEBUG) }
    else if s == "INFO"@ { Some(Severity::INFO) }
    else if s == "NOTICE"@ { Some(Severity::NOTICE) }
    else if s == "WARNING"@ { Some(Severity::WARNING) }
    else if s == "ERROR"@ { Some(Severity::ERROR) }
    else if s == "CRITICAL"@ { Some(Severity::CRITICAL) }
    else if s == "ALERT"@ { Some(Severity::ALERT) }
    else if s == "EMERGENCY"@ { Some(Severity::EMERGENCY) }
    else { None }
}

/// Whether the views of `a` and `b` are equal.
fn str_eq(a: &String, b: &str) -> (r: bool)
    ensures
        r == (a@ == b@),
{
    let bs = b.to_owned();
    *a == bs
}

impl Severity {
    /// The literal name of this level, as it appears on the wire.
    pub fn name(&self) -> (r: String)
        ensures
            r@ == severity_name(*self),
    {
        match self {
            Severity::DEBUG => String::from_str("DEBUG"),
            Severity::INFO => String::from_str("INFO"),
            Severity::NOTICE => String::from_str("NOTICE"),
            Severity::WARNING => String::from_str("WARNING"),
            Severity::ERROR => String::from_str("ERROR"),
            Severity::CRITICAL => String::from_str("CRITICAL"),
            Severity::ALERT => String::from_str("ALERT"),
            Severity::EMERGENCY => String::from_str("EMERGENCY"),
        }
    }

    /// The level the given literal names, or `None` for any other string.
    pub fn from_name(s: &String) -> (r: Option<Severity>)
        ensures
            r == severity_of_name(s@),
    {
        if str_eq(s, "DEBUG") { Some(Severity::DEBUG) }
        else if str_eq(s, "INFO") { Some(Severity::INFO) }
        else if str_eq(s, "NOTICE") { Some(Severity::NOTICE) }
        else if str_eq(s, "WARNING") { Some(Severity::WARNING) }
        else if str_eq(s, "ERROR") { Some(Severity::ERROR) }
        else if str_eq(s, "CRITICAL") { Some(Severity::CRITICAL) }
        else if str_eq(s, "ALERT") { Some(Severity::ALERT) }
        else if str_eq(s, "EMERGENCY") { Some(Severity::EMERGENCY) }
        else { None }
    }
}

/// Contains all of the information that a client must send to queue an
/// event.  `details` carries arbitrary structured values, in the order the
/// client sent them.
#[derive(Debug, PartialEq, Eq)]
pub struct ClientEvent {
    pub category: String,
    pub hostname: String,
    pub severity: Severity,
    pub process: String,
    pub summary: String,
    pub tags: Vec<String>,
    pub details: Vec<(String, Json)>,
}

/// The mathematical view of a [`ClientEvent`].
pub struct ClientEventV {
    pub category: Seq<char>,
    pub hostname: Seq<char>,
    pub severity: Severity,
    pub process: Seq<char>,
    pub summary: Seq<char>,
    pub tags: Seq<Seq<char>>,
    pub details: Seq<(Seq<char>, JsonVal)>,
}

/// The views of a sequence of strings.
pub open spec fn tview(ts: Seq<String>) -> Seq<Seq<char>> {
    ts.map_values(|t: String| t@)
}

impl View for ClientEvent {
    type V = ClientEventV;

    open spec fn view(&self) -> ClientEventV {
        ClientEventV {
            category: self.category@,
            hostname: self.hostname@,
            severity: self.severity,
            process: self.process@,
            summary: self.summary@,
            tags: tview(self.tags@),
            details: jview_membs(self.details@),
        }
    }
}

/// Contains all of the information the downstream consumer expects to be in
/// an event: the client's fields, plus the fixed `source` of this forwarder
/// and the two timestamps taken when the event was transformed.
#[derive(Debug, PartialEq, Eq)]
pub struct MozDefEvent {
    pub category: String,
    pub hostname: String,
    pub severity: Severity,
    pub process: String,
    pub summary: String,
    pub tags: Vec<String>,
    pub details: Vec<(String, Json)>,
    pub source: String,
    pub timestamp: String,
    pub utctimestamp: String,
}

/// The mathematical view of a [`MozDefEvent`].
pub struct MozDefEventV {
    pub category: Seq<char>,
    pub hostname: Seq<char>,
    pub severity: Severity,
    pub process: Seq<char>,
    pub summary: Seq<char>,
    pub tags: Seq<Seq<char>>,
    pub details: Seq<(Seq<char>, JsonVal)>,
    pub source: Seq<char>,
    pub timestamp: Seq<char>,
    pub utctimestamp: Seq<char>,
}

impl View for MozDefEvent {
    type V = MozDefEventV;

    open spec fn view(&self) -> MozDefEventV {
        MozDefEventV {
            category: self.category@,
            hostname: self.hostname@,
            severity: self.severity,
            process: self.process@,
            summary: self.summary@,
            tags: tview(self.tags@),
            details: jview_membs(self.details@),
            source: self.source@,
            timestamp: self.timestamp@,
            utctimestamp: self.utctimestamp@,
        }
    }
}

/// What [`transform`] computes: the client's fields unchanged, the fixed
/// source, and the given timestamps.
pub open spec fn spec_transform(e: ClientEventV, ts: Seq<char>, utc: Seq<char>) -> MozDefEventV {
    MozDefEventV {
        category: e.category,
        hostname: e.hostname,
        severity: e.severity,
        process: e.process,
        summary: e.summary,
        tags: e.tags,
        details: e.details,
        source: "mozdef-proxy"@,
        timestamp: ts,
        utctimestamp: utc,
    }
}

/// The pure normalization step: copies the six client fields verbatim and
/// stamps the fixed source and the two given timestamps.  Total: every
/// client event yields exactly one downstream event.
pub fn transform_at(e: ClientEvent, timestamp: String, utctimestamp: String) -> (r: MozDefEvent)
    ensures
        r@ == spec_transform(e@, timestamp@, utctimestamp@),
{
    let r = MozDefEvent {
        category: e.category,
        hostname: e.hostname,
        severity: e.severity,
        process: e.process,
        summary: e.summary,
        tags: e.tags,
        details: e.details,
        source: String::from_str("mozdef-proxy"),
        timestamp,
        utctimestamp,
    };
    r
}

/// Relies on chrono's `Local::now` and `DateTime::to_rfc3339`: the current
/// local wall-clock time, written as an RFC 3339 timestamp.
#[verifier::external_body]
fn now_local_rfc3339() -> (r: String) {
    chrono::Local::now().to_rfc3339()
}

/// Relies on chrono's `Utc::now` and `DateTime::to_rfc3339`: the current
/// UTC wall-clock time, written as an RFC 3339 timestamp.
#[verifier::external_body]
fn now_utc_rfc3339() -> (r: String) {
    chrono::Utc::now().to_rfc3339()
}

/// Normalizes a client event, stamping the current local and UTC wall-clock
/// times.  Everything but the two timestamps is pinned by the input.
pub fn transform(e: ClientEvent) -> (r: MozDefEvent)
    ensures
        r@ == spec_transform(e@, r@.timestamp, r@.utctimestamp),
{
    let timestamp = now_local_rfc3339();
    let utctimestamp = now_utc_rfc3339();
    transform_at(e, timestamp, utctimestamp)
}

// ---------------------------------------------------------------------------
// Reading events out of decoded JSON
// ---------------------------------------------------------------------------

/// The value of the first member of `ms` whose key is `key`, if any.
pub open spec fn obj_get(ms: Seq<(Seq<char>, JsonVal)>, key: Seq<char>) -> Option<JsonVal>
    decreases ms,
{
    if ms.len() == 0 {
        None
    } else if ms[0].0 == key {
        Some(ms[0].1)
    } else {
        obj_get(ms.drop_first(), key)
    }
}

/// The string under `key`, if that member exists and holds a string.
pub open spec fn str_field(ms: Seq<(Seq<char>, JsonVal)>, key: Seq<char>) -> Option<Seq<char>> {
    match obj_get(ms, key) {
        Some(JsonVal::Str(s)) => Some(s),
        _ => None,
    }
}

/// The strings of a JSON array, if every element is a string.
pub open spec fn strings_of_json(v: JsonVal) -> Option<Seq<Seq<char>>> {
    match v {
        JsonVal::Arr(es) => if forall|i: int| 0 <= i < es.len() ==> es[i] is Str {
            Some(Seq::new(es.len(), |i: int| es[i]->Str_0))
        } else {
            None
        },
        _ => None,
    }
}

/// Reads a client event out of a decoded document.  The document must be an
/// object with string members `category`, `hostname`, `process` and
/// `summary`, a `severity` naming one of the eight levels, an object member
/// `details`, and optionally an array of strings `tags` (absent means
/// empty).  Anything else is rejected; unknown members are ignored.
pub open spec fn client_of_json(v: JsonVal) -> Option<ClientEventV> {
    match v {
        JsonVal::Obj(ms) => {
            match (str_field(ms, "category"@), str_field(ms, "hostname"@),
                str_field(ms, "severity"@), str_field(ms, "process"@),
                str_field(ms, "summary"@)) {
                (Some(category), Some(hostname), Some(sevname), Some(process), Some(summary)) => {
                    match severity_of_name(sevname) {
                        Some(severity) => {
                            let tags_found = match obj_get(ms, "tags"@) {
                                None => Some(Seq::<Seq<char>>::empty()),
                                Some(t) => strings_of_json(t),
                            };
                            match tags_found {
                                Some(tags) => match obj_get(ms, "details"@) {
                                    Some(JsonVal::Obj(details)) => Some(
                                        ClientEventV {
                                            category,
                                            hostname,
                                            severity,
                                            process,
                                            summary,
                                            tags,
                                            details,
                                        },
                                    ),
                                    _ => None,
                                },
                                None => None,
                            }
                        },
                        None => None,
                    }
                },
                _ => None,
            }
        },
        _ => None,
    }
}

/// Reads a downstream event back out of a decoded document: the client
/// members as in [`client_of_json`], plus the string members `source`,
/// `timestamp` and `utctimestamp`.
pub open spec fn outbound_of_json(v: JsonVal) -> Option<MozDefEventV> {
    match v {
        JsonVal::Obj(ms) => {
            match (str_field(ms, "category"@), str_field(ms, "hostname"@),
                str_field(ms, "severity"@), str_field(ms, "process"@),
                str_field(ms, "summary"@), str_field(ms, "source"@),
                str_field(ms, "timestamp"@), str_field(ms, "utctimestamp"@)) {
                (Some(category), Some(hostname), Some(sevname), Some(process), Some(summary),
                    Some(source), Some(timestamp), Some(utctimestamp)) => {
                    match severity_of_name(sevname) {
                        Some(severity) => {
                            let tags_found = match obj_get(ms, "tags"@) {
                                None => Some(Seq::<Seq<char>>::empty()),
                                Some(t) => strings_of_json(t),
                            };
                            match tags_found {
                                Some(tags) => match obj_get(ms, "details"@) {
                                    Some(JsonVal::Obj(details)) => Some(
                                        MozDefEventV {
                                            category,
                                            hostname,
                                            severity,
                                            process,
                                            summary,
                                            tags,
                                            details,
                                            source,
                                            timestamp,
                                            utctimestamp,
                                        },
                                    ),
                                    _ => None,
                                },
                                None => None,
                            }
                        },
                        None => None,
                    }
                },
                _ => None,
            }
        },
        _ => None,
    }
}

/// What parsing an HTTP request body yields: a JSON document holding a
/// valid client event, or nothing.
pub open spec fn spec_parse_client(body: Seq<char>) -> Option<ClientEventV> {
    match dec_document(body) {
        None => None,
        Some(j) => client_of_json(j),
    }
}

/// A client event whose detail values are all well formed; every parsed
/// event is.
pub open spec fn wf_client(e: ClientEventV) -> bool {
    wf_membs(e.details)
}

/// A downstream event whose detail values are all well formed.
pub open spec fn wf_event(e: MozDefEventV) -> bool {
    wf_membs(e.details)
}

/// The lengths and opening characters of the schema's member keys; enough
/// to tell any two keys apart.
pub(crate) proof fn lemma_field_keys()
    ensures
        ("category"@).len() == 8 && ("category"@)[0] == 'c',
        ("hostname"@).len() == 8 && ("hostname"@)[0] == 'h',
        ("severity"@).len() == 8 && ("severity"@)[0] == 's',
        ("process"@).len() == 7 && ("process"@)[0] == 'p',
        ("summary"@).len() == 7 && ("summary"@)[0] == 's',
        ("tags"@).len() == 4 && ("tags"@)[0] == 't',
        ("details"@).len() == 7 && ("details"@)[0] == 'd',
        ("source"@).len() == 6 && ("source"@)[0] == 's',
        ("timestamp"@).len() == 9 && ("timestamp"@)[0] == 't',
        ("utctimestamp"@).len() == 12 && ("utctimestamp"@)[0] == 'u',
{
    reveal_strlit("category");
    reveal_strlit("hostname");
    reveal_strlit("severity");
    reveal_strlit("process");
    reveal_strlit("summary");
    reveal_strlit("tags");
    reveal_strlit("details");
    reveal_strlit("source");
    reveal_strlit("timestamp");
    reveal_strlit("utctimestamp");
}

/// The first match found for each schema field while scanning members.
struct RawFields {
    category: Option<Json>,
    hostname: Option<Json>,
    severity: Option<Json>,
    process: Option<Json>,
    summary: Option<Json>,
    tags: Option<Json>,
    details: Option<Json>,
    source: Option<Json>,
    timestamp: Option<Json>,
    utctimestamp: Option<Json>,
}

/// How one scanned field stands to the members still to be scanned.
spec fn scan_rel(
    f: Option<Json>,
    m0: Seq<(Seq<char>, JsonVal)>,
    rest: Seq<(Seq<char>, JsonVal)>,
    key: Seq<char>,
) -> bool {
    match f {
        Some(v) => obj_get(m0, key) == Some(jview(v)),
        None => obj_get(m0, key) == obj_get(rest, key),
    }
}

/// What one scanned field says once the scan is done.
spec fn found_rel(f: Option<Json>, m0: Seq<(Seq<char>, JsonVal)>, key: Seq<char>) -> bool {
    match f {
        Some(v) => obj_get(m0, key) == Some(jview(v)),
        None => obj_get(m0, key) is None,
    }
}

/// Splits an object's members into the schema fields, each taken from its
/// first occurrence; unknown members are dropped.
fn split_members(ms: Vec<(String, Json)>) -> (r: RawFields)
    ensures
        found_rel(r.category, jview_membs(ms@), "category"@),
        found_rel(r.hostname, jview_membs(ms@), "hostname"@),
        found_rel(r.severity, jview_membs(ms@), "severity"@),
        found_rel(r.process, jview_membs(ms@), "process"@),
        found_rel(r.summary, jview_membs(ms@), "summary"@),
        found_rel(r.tags, jview_membs(ms@), "tags"@),
        found_rel(r.details, jview_membs(ms@), "details"@),
        found_rel(r.source, jview_membs(ms@), "source"@),
        found_rel(r.timestamp, jview_membs(ms@), "timestamp"@),
        found_rel(r.utctimestamp, jview_membs(ms@), "utctimestamp"@),
{
    let ghost m0 = jview_membs(ms@);
    let mut rest = ms;
    let mut r = RawFields {
        category: None,
        hostname: None,
        severity: None,
        process: None,
        summary: None,
        tags: None,
        details: None,
        source: None,
        timestamp: None,
        utctimestamp: None,
    };
    while rest.len() > 0
        invariant
            scan_rel(r.category, m0, jview_membs(rest@), "category"@),
            scan_rel(r.hostname, m0, jview_membs(rest@), "hostname"@),
            scan_rel(r.severity, m0, jview_membs(rest@), "severity"@),
            scan_rel(r.process, m0, jview_membs(rest@), "process"@),
            scan_rel(r.summary, m0, jview_membs(rest@), "summary"@),
            scan_rel(r.tags, m0, jview_membs(rest@), "tags"@),
            scan_rel(r.details, m0, jview_membs(rest@), "details"@),
            scan_rel(r.source, m0, jview_membs(rest@), "source"@),
            scan_rel(r.timestamp, m0, jview_membs(rest@), "timestamp"@),
            scan_rel(r.utctimestamp, m0, jview_membs(rest@), "utctimestamp"@),
        decreases rest.len(),
    {
        let ghost pre = rest@;
        let (k, v) = rest.remove(0);
        proof {
            lemma_field_keys();
            assert(pre.drop_first() =~= rest@);
            assert(jview_membs(pre) == seq![(pre[0].0@, jview(pre[0].1))] + jview_membs(rest@));
            assert((seq![(k@, jview(v))] + jview_membs(rest@)).drop_first() =~= jview_membs(
                rest@,
            ));
            assert((seq![(k@, jview(v))] + jview_membs(rest@))[0] == (k@, jview(v)));
            assert(jview_membs(pre) == seq![(k@, jview(v))] + jview_membs(rest@));
        }
        if r.category.is_none() && str_eq(&k, "category") {
            r.category = Some(v);
        } else if r.hostname.is_none() && str_eq(&k, "hostname") {
            r.hostname = Some(v);
        } else if r.severity.is_none() && str_eq(&k, "severity") {
            r.severity = Some(v);
        } else if r.process.is_none() && str_eq(&k, "process") {
            r.process = Some(v);
        } else if r.summary.is_none() && str_eq(&k, "summary") {
            r.summary = Some(v);
        } else if r.tags.is_none() && str_eq(&k, "tags") {
            r.tags = Some(v);
        } else if r.details.is_none() && str_eq(&k, "details") {
            r.details = Some(v);
        } else if r.source.is_none() && str_eq(&k, "source") {
            r.source = Some(v);
        } else if r.timestamp.is_none() && str_eq(&k, "timestamp") {
            r.timestamp = Some(v);
        } else if r.utctimestamp.is_none() && str_eq(&k, "utctimestamp") {
            r.utctimestamp = Some(v);
        }
    }
    proof {
        assert(jview_membs(rest@) =~= Seq::<(Seq<char>, JsonVal)>::empty());
    }
    r
}

/// Collects the strings of an array of JSON values; `None` if any element
/// is not a string.
fn strings_from(es: Vec<Json>) -> (r: Option<Vec<String>>)
    ensures
        r is None <==> strings_of_json(JsonVal::Arr(jview_seq(es@))) is None,
        r matches Some(ts) ==> strings_of_json(JsonVal::Arr(jview_seq(es@))) == Some(tview(ts@)),
{
    let ghost esv = jview_seq(es@);
    proof {
        lemma_jview_seq_len(es@);
    }
    let mut out: Vec<String> = Vec::new();
    let mut i: usize = 0;
    while i < es.len()
        invariant
            i <= es.len(),
            esv == jview_seq(es@),
            esv.len() == es@.len(),
            out@.len() == i,
            forall|p: int| 0 <= p < i ==> esv[p] is Str,
            forall|p: int| 0 <= p < i ==> #[trigger] out@[p]@ == esv[p]->Str_0,
        decreases es.len() - i,
    {
        proof {
            lemma_jview_seq_index(es@, i as int);
        }
        let ghost pre_out = out@;
        match &es[i] {
            Json::Str(s) => {
                out.push(s.clone());
            },
            _ => {
                proof {
                    assert(!(esv[i as int] is Str));
                }
                return None;
            },
        }
        i = i + 1;
        proof {
            assert forall|p: int| 0 <= p < i implies #[trigger] out@[p]@ == esv[p]->Str_0 by {
                if p < i - 1 {
                    assert(out@[p] == pre_out[p]);
                    assert(pre_out[p]@ == esv[p]->Str_0);
                }
            }
        }
    }
    proof {
        assert(tview(out@) =~= Seq::new(es@.len(), |p: int| esv[p]->Str_0));
    }
    Some(out)
}

/// Reads a client event out of a parsed document, as [`client_of_json`]
/// gives it.
pub fn client_from_json(j: Json) -> (r: Option<ClientEvent>)
    ensures
        r is None <==> client_of_json(j@) is None,
        r matches Some(c) ==> client_of_json(j@) == Some(c@),
{
    let ms = match j {
        Json::Obj(ms) => ms,
        _ => {
            return None;
        },
    };
    let f = split_members(ms);
    let category = match f.category {
        Some(Json::Str(s)) => s,
        _ => {
            return None;
        },
    };
    let hostname = match f.hostname {
        Some(Json::Str(s)) => s,
        _ => {
            return None;
        },
    };
    let sevname = match f.severity {
        Some(Json::Str(s)) => s,
        _ => {
            return None;
        },
    };
    let severity = match Severity::from_name(&sevname) {
        Some(sv) => sv,
        None => {
            return None;
        },
    };
    let process = match f.process {
        Some(Json::Str(s)) => s,
        _ => {
            return None;
        },
    };
    let summary = match f.summary {
        Some(Json::Str(s)) => s,
        _ => {
            return None;
        },
    };
    let tags: Vec<String> = match f.tags {
        None => Vec::new(),
        Some(Json::Arr(es)) => match strings_from(es) {
            Some(ts) => ts,
            None => {
                return None;
            },
        },
        Some(_) => {
            return None;
        },
    };
    let details = match f.details {
        Some(Json::Obj(dms)) => dms,
        _ => {
            return None;
        },
    };
    proof {
        assert(tview(Seq::<String>::empty()) =~= Seq::<Seq<char>>::empty());
    }
    Some(ClientEvent { category, hostname, severity, process, summary, tags, details })
}

/// Reads a downstream event out of a parsed document, as
/// [`outbound_of_json`] gives it.
pub fn outbound_from_json(j: Json) -> (r: Option<MozDefEvent>)
    ensures
        r is None <==> outbound_of_json(j@) is None,
        r matches Some(e) ==> outbound_of_json(j@) == Some(e@),
{
    let ms = match j {
        Json::Obj(ms) => ms,
        _ => {
            return None;
        },
    };
    let f = split_members(ms);
    let category = match f.category {
        Some(Json::Str(s)) => s,
        _ => {
            return None;
        },
    };
    let hostname = match f.hostname {
        Some(Json::Str(s)) => s,
        _ => {
            return None;
        },
    };
    let sevname = match f.severity {
        Some(Json::Str(s)) => s,
        _ => {
            return None;
        },
    };
    let severity = match Severity::from_name(&sevname) {
        Some(sv) => sv,
        None => {
            return None;
        },
    };
    let process = match f.process {
        Some(Json::Str(s)) => s,
        _ => {
            return None;
        },
    };
    let summary = match f.summary {
        Some(Json::Str(s)) => s,
        _ => {
            return None;
        },
    };
    let source = match f.source {
        Some(Json::Str(s)) => s,
        _ => {
            return None;
        },
    };
    let timestamp = match f.timestamp {
        Some(Json::Str(s)) => s,
        _ => {
            return None;
        },
    };
    let utctimestamp = match f.utctimestamp {
        Some(Json::Str(s)) => s,
        _ => {
            return None;
        },
    };
    let tags: Vec<String> = match f.tags {
        None => Vec::new(),
        Some(Json::Arr(es)) => match strings_from(es) {
            Some(ts) => ts,
            None => {
                return None;
            },
        },
        Some(_) => {
            return None;
        },
    };
    let details = match f.details {
        Some(Json::Obj(dms)) => dms,
        _ => {
            return None;
        },
    };
    proof {
        assert(tview(Seq::<String>::empty()) =~= Seq::<Seq<char>>::empty());
    }
    Some(
        MozDefEvent {
            category,
            hostname,
            severity,
            process,
            summary,
            tags,
            details,
            source,
            timestamp,
            utctimestamp,
        },
    )
}

/// Parses an HTTP request body into a client event, as
/// [`spec_parse_client`] gives it: `None` exactly on bodies that are not
/// JSON or do not hold a valid event.
pub fn parse_client_event(body: &str) -> (r: Option<ClientEvent>)
    ensures
        r is None <==> spec_parse_client(body@) is None,
        r matches Some(c) ==> spec_parse_client(body@) == Some(c@),
{
    match parse_json(body) {
        None => None,
        Some(j) => client_from_json(j),
    }
}

// ---------------------------------------------------------------------------
// Laws of the schema
// ---------------------------------------------------------------------------

/// Looking a key up finds the member at `n` when no earlier member has it.
pub proof fn lemma_obj_get_at(ms: Seq<(Seq<char>, JsonVal)>, n: int, key: Seq<char>)
    requires
        0 <= n < ms.len(),
        ms[n].0 == key,
        forall|p: int| 0 <= p < n ==> (#[trigger] ms[p]).0 != key,
    ensures
        obj_get(ms, key) == Some(ms[n].1),
    decreases n,
{
    if n > 0 {
        assert forall|p: int| 0 <= p < n - 1 implies (#[trigger] ms.drop_first()[p]).0
            != key by {
            assert(ms.drop_first()[p] == ms[p + 1]);
        }
        assert(ms.drop_first()[n - 1] == ms[n]);
        lemma_obj_get_at(ms.drop_first(), n - 1, key);
    }
}

/// A member found in a well-formed object is well formed.
pub proof fn lemma_obj_get_wf(ms: Seq<(Seq<char>, JsonVal)>, key: Seq<char>)
    requires
        wf_membs(ms),
        obj_get(ms, key) is Some,
    ensures
        wf_json(obj_get(ms, key)->0),
    decreases ms,
{
    if ms.len() > 0 && ms[0].0 != key {
        lemma_obj_get_wf(ms.drop_first(), key);
    }
}

/// Every severity level's name reads back as that level.
pub proof fn lemma_severity_name_round(sev: Severity)
    ensures
        severity_of_name(severity_name(sev)) == Some(sev),
{
    reveal_strlit("DEBUG");
    reveal_strlit("INFO");
    reveal_strlit("NOTICE");
    reveal_strlit("WARNING");
    reveal_strlit("ERROR");
    reveal_strlit("CRITICAL");
    reveal_strlit("ALERT");
    reveal_strlit("EMERGENCY");
    assert(("DEBUG"@).len() == 5 && ("DEBUG"@)[0] == 'D');
    assert(("INFO"@).len() == 4 && ("INFO"@)[0] == 'I');
    assert(("NOTICE"@).len() == 6 && ("NOTICE"@)[0] == 'N');
    assert(("WARNING"@).len() == 7 && ("WARNING"@)[0] == 'W');
    assert(("ERROR"@).len() == 5 && ("ERROR"@)[0] == 'E');
    assert(("CRITICAL"@).len() == 8 && ("CRITICAL"@)[0] == 'C');
    assert(("ALERT"@).len() == 5 && ("ALERT"@)[0] == 'A');
    assert(("EMERGENCY"@).len() == 9 && ("EMERGENCY"@)[0] == 'E');
}

/// An array of strings reads back as exactly those strings.
pub proof fn lemma_strings_round(ts: Seq<Seq<char>>)
    ensures
        strings_of_json(JsonVal::Arr(ts.map_values(|t: Seq<char>| JsonVal::Str(t)))) == Some(ts),
{
    let es = ts.map_values(|t: Seq<char>| JsonVal::Str(t));
    assert(forall|i: int| 0 <= i < es.len() ==> #[trigger] es[i] is Str);
    assert(Seq::new(es.len(), |i: int| es[i]->Str_0) =~= ts);
}

/// A request whose document is no object, or lacks a required member, is
/// rejected: no client event is read from it.
pub proof fn lemma_missing_field_rejected(ms: Seq<(Seq<char>, JsonVal)>)
    ensures
        obj_get(ms, "category"@) is None ==> client_of_json(JsonVal::Obj(ms)) is None,
        obj_get(ms, "hostname"@) is None ==> client_of_json(JsonVal::Obj(ms)) is None,
        obj_get(ms, "severity"@) is None ==> client_of_json(JsonVal::Obj(ms)) is None,
        obj_get(ms, "process"@) is None ==> client_of_json(JsonVal::Obj(ms)) is None,
        obj_get(ms, "summary"@) is None ==> client_of_json(JsonVal::Obj(ms)) is None,
        obj_get(ms, "details"@) is None ==> client_of_json(JsonVal::Obj(ms)) is None,
{
}

/// Every parsed client event is well formed: its detail values all carry
/// standard number literals.
pub proof fn lemma_parse_client_wf(body: Seq<char>)
    ensures
        spec_parse_client(body) matches Some(c) ==> wf_client(c),
{
    crate::json::lemma_dec_document_wf(body);
    match dec_document(body) {
        Some(j) => match j {
            JsonVal::Obj(ms) => {
                if client_of_json(j) is Some {
                    lemma_obj_get_wf(ms, "details"@);
                }
            },
            _ => {},
        },
        None => {},
    }
}

/// A request whose `severity` member is no recognized level name is
/// rejected: no client event is read from it.
pub proof fn lemma_unknown_severity_rejected(ms: Seq<(Seq<char>, JsonVal)>)
    requires
        match str_field(ms, "severity"@) {
            Some(n) => severity_of_name(n) is None,
            None => true,
        },
    ensures
        client_of_json(JsonVal::Obj(ms)) is None,
{
}

// ---------------------------------------------------------------------------
// The request handler
// ---------------------------------------------------------------------------

/// An HTTP response as this core produces it: a status code and a fixed
/// plain-text body.
#[derive(Debug, PartialEq, Eq)]
pub struct ApiResponse {
    pub status: u16,
    pub body: String,
}

/// The response for an accepted and delivered event.
pub open spec fn is_success_response(r: ApiResponse) -> bool {
    r.status == 200 && r.body@ == "Success"@
}

/// The response for a malformed or incomplete request body.
pub open spec fn is_bad_request_response(r: ApiResponse) -> bool {
    r.status == 400 && r.body@ == "Invalid request data"@
}

/// The response for a backend or internal failure; it never carries
/// backend detail.
pub open spec fn is_server_error_response(r: ApiResponse) -> bool {
    r.status == 500 && r.body@ == "An error occurred in the server"@
}

/// The request-level error taxonomy: a client input fault or an internal
/// fault, each mapped to one fixed response.
#[derive(Clone, Copy, Debug)]
enum APIError {
    InvalidRequestData,
    InternalError,
}

impl APIError {
    /// The fixed response this error maps to; no internal detail leaks.
    fn response(&self) -> (r: ApiResponse)
        ensures
            *self is InvalidRequestData ==> is_bad_request_response(r),
            *self is InternalError ==> is_server_error_response(r),
    {
        match self {
            APIError::InvalidRequestData => ApiResponse {
                status: 400,
                body: String::from_str("Invalid request data"),
            },
            APIError::InternalError => ApiResponse {
                status: 500,
                body: String::from_str("An error occurred in the server"),
            },
        }
    }
}

/// One request's decision, free of side effects: parse the body and, if it
/// holds a valid client event, transform it with the given timestamps;
/// otherwise the fixed bad-request response.  This is the whole of the
/// request pipeline up to the enqueue attempt, and it pins exactly which
/// event is handed to the queue.
pub fn receive(body: &str, timestamp: String, utctimestamp: String) -> (r: Result<
    MozDefEvent,
    ApiResponse,
>)
    ensures
        match spec_parse_client(body@) {
            Some(c) => r matches Ok(e) && e@ == spec_transform(c, timestamp@, utctimestamp@),
            None => r matches Err(resp) && is_bad_request_response(resp),
        },
{
    match parse_client_event(body) {
        None => Err(APIError::InvalidRequestData.response()),
        Some(c) => Ok(transform_at(c, timestamp, utctimestamp)),
    }
}

/// A request handler that enqueues events sent by clients for consumption
/// by the downstream log platform.  Its only state is the queue capability
/// it forwards to, set at construction and never reassigned.
pub struct Proxy<Q> {
    message_queue: Q,
}

impl<Q> Proxy<Q> {
    /// The wrapped queue capability.
    pub closed spec fn queue(&self) -> Q {
        self.message_queue
    }

    /// Construct a new proxy server.
    pub fn new(message_queue: Q) -> (p: Proxy<Q>)
        ensures
            p.queue() == message_queue,
    {
        Proxy { message_queue }
    }

    /// Handles one request, making one pass: parse the body, transform the
    /// event, enqueue it, respond.  A body that holds no valid client event
    /// is rejected with the fixed bad-request response and nothing is
    /// enqueued; otherwise exactly one enqueue is attempted, and the
    /// response reports success or the fixed server error, after the
    /// capability's verdict.
    pub fn handle<E>(&self, body: &str) -> (r: ApiResponse) where
        Q: Capability<Enqueue<MozDefEvent>, Output = Result<(), E>>,

        ensures
            spec_parse_client(body@) is None ==> is_bad_request_response(r),
            spec_parse_client(body@) is Some ==> is_success_response(r)
                || is_server_error_response(r),
    {
        let timestamp = now_local_rfc3339();
        let utctimestamp = now_utc_rfc3339();
        match receive(body, timestamp, utctimestamp) {
            Err(resp) => resp,
            Ok(evt) => {
                match self.message_queue.perform(Enqueue(evt)) {
                    Ok(_) => ApiResponse { status: 200, body: String::from_str("Success") },
                    Err(_) => APIError::InternalError.response(),
                }
            },
        }
    }
}

} // verus!

