//! The telemetry side of the HTTP handler: which requests it takes, how the
//! body is gathered, how the path selects the export kind, and which status
//! the acknowledgement carries.
use vstd::prelude::*;
use vstd::utf8::encode_utf8;
use crate::project::{logs_rows, project_logs, rows_view, LogRow, RowView};
use crate::proto::{decode_logs, decode_metrics, decode_traces, decoded_logs, metrics_decodes, traces_decodes};
use opentelemetry_proto::tonic::collector::logs::v1::ExportLogsServiceRequest;
use opentelemetry_proto::tonic::collector::metrics::v1::ExportMetricsServiceRequest;
use opentelemetry_proto::tonic::collector::trace::v1::ExportTraceServiceRequest;

verus! {

/// Bytes asked of the body stream in one read.
pub const CHUNK_SIZE: u64 = 64;

pub const STATUS_OK: u16 = 200;
/// The body, or the request's path, cannot be read as an export request.
pub const STATUS_BAD_REQUEST: u16 = 400;
/// A telemetry path other than the three export routes.
pub const STATUS_NOT_FOUND: u16 = 404;
/// A well-formed export request holding a value kind that has no text rendering.
pub const STATUS_UNPROCESSABLE: u16 = 422;
/// Storing the rows failed.
pub const STATUS_INTERNAL_ERROR: u16 = 500;
/// Reading the body failed.
pub const STATUS_UNAVAILABLE: u16 = 503;

pub const SLASH: u8 = 47;
pub const LOWER_V: u8 = 118;
pub const DIGIT_ONE: u8 = 49;

/// The bytes of `/v1/`.
pub open spec fn telemetry_marker() -> Seq<u8> {
    seq![SLASH, LOWER_V, DIGIT_ONE, SLASH]
}

pub open spec fn marker_at(b: Seq<u8>, i: int) -> bool {
    0 <= i && i + 4 <= b.len() && b.subrange(i, i + 4) == telemetry_marker()
}

/// A path is telemetry traffic when its bytes contain `/v1/`.
pub open spec fn telemetry_path(p: Seq<char>) -> bool {
    exists|i: int| marker_at(encode_utf8(p), i)
}

/// Whether a request path belongs to the telemetry handler: it contains `/v1/`.
pub fn is_telemetry_path(path: &str) -> (r: bool)
    ensures
        r == telemetry_path(path@),
{
    let b = path.as_bytes();
    let mut i: usize = 0;
    while i < b.len() && b.len() - i >= 4
        invariant
            b@ == encode_utf8(path@),
            i <= b.len(),
            forall|j: int| 0 <= j < i ==> !#[trigger] marker_at(b@, j),
        decreases b.len() - i,
    {
        if b[i] == SLASH && b[i + 1] == LOWER_V && b[i + 2] == DIGIT_ONE && b[i + 3] == SLASH {
            proof {
                assert(b@.subrange(i as int, i + 4) =~= telemetry_marker());
                assert(marker_at(b@, i as int));
            }
            return true;
        }
        proof {
            if b@.subrange(i as int, i + 4) == telemetry_marker() {
                assert(b@.subrange(i as int, i + 4)[0] == b@[i as int]);
                assert(b@.subrange(i as int, i + 4)[1] == b@[i + 1]);
                assert(b@.subrange(i as int, i + 4)[2] == b@[i + 2]);
                assert(b@.subrange(i as int, i + 4)[3] == b@[i + 3]);
            }
        }
        i = i + 1;
    }
    false
}

/// The export kinds, one per route.
#[derive(Debug, Clone, Copy, PartialEq, Eq, Structural)]
pub enum Route {
    Metrics,
    Traces,
    Logs,
}

/// The route of a full path-and-query string, matched exactly.
pub open spec fn route_spec(p: Seq<char>) -> Option<Route> {
    if p == "/v1/metrics"@ {
        Some(Route::Metrics)
    } else if p == "/v1/traces"@ {
        Some(Route::Traces)
    } else if p == "/v1/logs"@ {
        Some(Route::Logs)
    } else {
        None
    }
}

/// Selects the export kind by exact match of the full path and query.
pub fn route_of(path: &str) -> (r: Option<Route>)
    ensures
        r == route_spec(path@),
{
    let p: String = path.to_owned();
    if p == "/v1/metrics".to_owned() {
        Some(Route::Metrics)
    } else if p == "/v1/traces".to_owned() {
        Some(Route::Traces)
    } else if p == "/v1/logs".to_owned() {
        Some(Route::Logs)
    } else {
        None
    }
}

/// A decoded export request, one variant per export kind.
#[derive(Debug, PartialEq)]
pub enum ExportRequest {
    Metrics(ExportMetricsServiceRequest),
    Traces(ExportTraceServiceRequest),
    Logs(ExportLogsServiceRequest),
}

/// A body that is not the protobuf message of its route, with the decoder's cause.
#[derive(Debug, PartialEq)]
pub struct UndecodableBody {
    pub cause: prost::DecodeError,
}

pub open spec fn request_route(x: ExportRequest) -> Route {
    match x {
        ExportRequest::Metrics(_) => Route::Metrics,
        ExportRequest::Traces(_) => Route::Traces,
        ExportRequest::Logs(_) => Route::Logs,
    }
}

/// Whether a body decodes as the export request of a route.
pub open spec fn decodes(route: Route, body: Seq<u8>) -> bool {
    match route {
        Route::Metrics => metrics_decodes(body),
        Route::Traces => traces_decodes(body),
        Route::Logs => decoded_logs(body) is Some,
    }
}

/// Decodes a body as the OTLP protobuf export request of its route. An empty
/// body decodes, to a request with no data.
pub fn decode_export(route: Route, body: &[u8]) -> (r: Result<ExportRequest, UndecodableBody>)
    ensures
        r is Ok <==> decodes(route, body@),
        r matches Ok(x) ==> request_route(x) == route,
        r matches Ok(ExportRequest::Logs(m)) ==> decoded_logs(body@) == Some(m),
        body@.len() == 0 ==> r is Ok,
        r matches Ok(ExportRequest::Logs(m)) ==> (body@.len() == 0 ==> m.resource_logs@.len() == 0),
{
    match route {
        Route::Metrics => match decode_metrics(body) {
            Ok(m) => Ok(ExportRequest::Metrics(m)),
            Err(e) => Err(UndecodableBody { cause: e }),
        },
        Route::Traces => match decode_traces(body) {
            Ok(m) => Ok(ExportRequest::Traces(m)),
            Err(e) => Err(UndecodableBody { cause: e }),
        },
        Route::Logs => match decode_logs(body) {
            Ok(m) => Ok(ExportRequest::Logs(m)),
            Err(e) => Err(UndecodableBody { cause: e }),
        },
    }
}

/// What one read of the body stream gave.
#[derive(Debug, PartialEq, Eq)]
pub enum ReadEvent {
    /// A chunk of bytes.
    Data(Vec<u8>),
    /// The stream ended cleanly.
    Closed,
    /// The read failed.
    Failed,
}

/// Gathers a request body from successive reads of its stream. A failed read
/// marks the body as failed; reading goes on until the stream closes or a
/// second read fails.
#[derive(Debug)]
pub struct BodyReader {
    pub bytes: Vec<u8>,
    pub failed: bool,
    pub finished: bool,
}

impl BodyReader {
    pub fn new() -> (r: BodyReader)
        ensures
            r.bytes@ == Seq::<u8>::empty(),
            !r.failed,
            !r.finished,
    {
        BodyReader { bytes: Vec::new(), failed: false, finished: false }
    }

    /// Takes in one read's outcome and says whether to read again. A finished
    /// reader stays as it is.
    pub fn step(&mut self, event: ReadEvent) -> (more: bool)
        ensures
            old(self).finished ==> *final(self) == *old(self) && !more,
            !old(self).finished ==> match event {
                ReadEvent::Data(d) => final(self).bytes@ == old(self).bytes@ + d@
                    && final(self).failed == old(self).failed && !final(self).finished && more,
                ReadEvent::Closed => final(self).bytes@ == old(self).bytes@
                    && final(self).failed == old(self).failed && final(self).finished && !more,
                ReadEvent::Failed => final(self).bytes@ == old(self).bytes@ && final(self).failed
                    && final(self).finished == old(self).failed && more == !old(self).failed,
            },
    {
        if self.finished {
            return false;
        }
        match event {
            ReadEvent::Data(mut d) => {
                self.bytes.append(&mut d);
                true
            },
            ReadEvent::Closed => {
                self.finished = true;
                false
            },
            ReadEvent::Failed => {
                if self.failed {
                    self.finished = true;
                    false
                } else {
                    self.failed = true;
                    true
                }
            },
        }
    }

    /// The status of the acknowledgement: failure once a read has failed.
    pub fn status(&self) -> (r: u16)
        ensures
            r == ack_status(self.failed),
    {
        if self.failed {
            STATUS_UNAVAILABLE
        } else {
            STATUS_OK
        }
    }
}

/// The status of a handled request: success, unless reading its body failed.
pub open spec fn ack_status(read_failed: bool) -> u16 {
    if read_failed {
        STATUS_UNAVAILABLE
    } else {
        STATUS_OK
    }
}

/// What the telemetry handler answers and which rows it stores.
#[derive(Debug)]
pub struct Outcome {
    pub status: u16,
    pub rows: Vec<LogRow>,
}

/// The status and rows for a telemetry request with the given path and query,
/// body, and body-read failure.
pub open spec fn outcome_spec(path: Option<Seq<char>>, body: Seq<u8>, read_failed: bool) -> (u16, Seq<RowView>) {
    match path {
        None => (STATUS_BAD_REQUEST, seq![]),
        Some(p) => match route_spec(p) {
            None => (STATUS_NOT_FOUND, seq![]),
            Some(Route::Metrics) => if metrics_decodes(body) {
                (ack_status(read_failed), seq![])
            } else {
                (STATUS_BAD_REQUEST, seq![])
            },
            Some(Route::Traces) => if traces_decodes(body) {
                (ack_status(read_failed), seq![])
            } else {
                (STATUS_BAD_REQUEST, seq![])
            },
            Some(Route::Logs) => match decoded_logs(body) {
                None => (STATUS_BAD_REQUEST, seq![]),
                Some(m) => match logs_rows(m) {
                    Err(_) => (STATUS_UNPROCESSABLE, seq![]),
                    Ok(rows) => (ack_status(read_failed), rows),
                },
            },
        },
    }
}

pub open spec fn path_view(path: Option<&str>) -> Option<Seq<char>> {
    match path {
        Some(p) => Some(p@),
        None => None,
    }
}

/// Handles a telemetry request whose body has been read: selects the export
/// kind by the exact path and query, decodes the body, and for logs projects
/// the rows to store. A missing path or an undecodable body gives 400, an
/// unknown route 404, a value without a text rendering 422; otherwise the
/// status is 200, or 503 where reading the body failed. Rows come only from a
/// logs request that succeeds.
pub fn handle_otel_request(path: Option<&str>, body: &[u8], read_failed: bool) -> (r: Outcome)
    ensures
        (r.status, rows_view(r.rows@)) == outcome_spec(path_view(path), body@, read_failed),
        path_view(path) matches Some(p) && route_spec(p) is Some && body@.len() == 0 ==> r.status
            == ack_status(read_failed) && r.rows@.len() == 0,
{
    let none: Vec<LogRow> = Vec::new();
    proof {
        assert(rows_view(none@) =~= Seq::<RowView>::empty());
    }
    let p = match path {
        Some(p) => p,
        None => return Outcome { status: STATUS_BAD_REQUEST, rows: none },
    };
    let ok = if read_failed {
        STATUS_UNAVAILABLE
    } else {
        STATUS_OK
    };
    let route = match route_of(p) {
        Some(route) => route,
        None => return Outcome { status: STATUS_NOT_FOUND, rows: none },
    };
    match decode_export(route, body) {
        Err(_) => Outcome { status: STATUS_BAD_REQUEST, rows: none },
        Ok(ExportRequest::Logs(request)) => match project_logs(request) {
            Err(_) => Outcome { status: STATUS_UNPROCESSABLE, rows: none },
            Ok(rows) => Outcome { status: ok, rows },
        },
        Ok(_) => Outcome { status: ok, rows: none },
    }
}

} // verus!
