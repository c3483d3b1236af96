//! The OTLP message types of `opentelemetry-proto`, declared to the verifier so
//! that verified code can read their public fields, and the protobuf decode calls.
use vstd::prelude::*;
use opentelemetry_proto::tonic::collector::logs::v1::ExportLogsServiceRequest;
use opentelemetry_proto::tonic::collector::metrics::v1::ExportMetricsServiceRequest;
use opentelemetry_proto::tonic::collector::trace::v1::ExportTraceServiceRequest;
use opentelemetry_proto::tonic::common::v1::{
    any_value, AnyValue, ArrayValue, EntityRef, InstrumentationScope, KeyValue, KeyValueList,
};
use opentelemetry_proto::tonic::logs::v1::{LogRecord, ResourceLogs, ScopeLogs};
use opentelemetry_proto::tonic::resource::v1::Resource;
use prost::Message;

verus! {

#[verifier::external_type_specification]
pub struct ExAnyValue(AnyValue);

#[verifier::external_type_specification]
pub struct ExValue(any_value::Value);

#[verifier::external_type_specification]
pub struct ExArrayValue(ArrayValue);

#[verifier::external_type_specification]
pub struct ExKeyValueList(KeyValueList);

#[verifier::external_type_specification]
pub struct ExKeyValue(KeyValue);

#[verifier::external_type_specification]
pub struct ExEntityRef(EntityRef);

#[verifier::external_type_specification]
pub struct ExInstrumentationScope(InstrumentationScope);

#[verifier::external_type_specification]
pub struct ExResource(Resource);

#[verifier::external_type_specification]
pub struct ExLogRecord(LogRecord);

#[verifier::external_type_specification]
pub struct ExScopeLogs(ScopeLogs);

#[verifier::external_type_specification]
pub struct ExResourceLogs(ResourceLogs);

#[verifier::external_type_specification]
pub struct ExExportLogsServiceRequest(ExportLogsServiceRequest);

#[verifier::external_type_specification]
#[verifier::external_body]
pub struct ExExportMetricsServiceRequest(ExportMetricsServiceRequest);

#[verifier::external_type_specification]
#[verifier::external_body]
pub struct ExExportTraceServiceRequest(ExportTraceServiceRequest);

#[verifier::external_type_specification]
#[verifier::external_body]
pub struct ExDecodeError(prost::DecodeError);

/// What a byte string decodes to as an `ExportLogsServiceRequest`, or `None`
/// where it is not such a message.
pub uninterp spec fn decoded_logs(b: Seq<u8>) -> Option<ExportLogsServiceRequest>;

/// Whether a byte string decodes as an `ExportMetricsServiceRequest`.
pub uninterp spec fn metrics_decodes(b: Seq<u8>) -> bool;

/// Whether a byte string decodes as an `ExportTraceServiceRequest`.
pub uninterp spec fn traces_decodes(b: Seq<u8>) -> bool;

/// Relies on prost's `Message::decode` for `ExportLogsServiceRequest`: the
/// result depends on the bytes alone, and an empty buffer decodes to the
/// default message, which has no resource logs.
#[verifier::external_body]
pub(crate) fn decode_logs(bytes: &[u8]) -> (r: Result<ExportLogsServiceRequest, prost::DecodeError>)
    ensures
        r matches Ok(m) ==> decoded_logs(bytes@) == Some(m),
        r is Err ==> decoded_logs(bytes@) is None,
        bytes@.len() == 0 ==> r is Ok,
        r matches Ok(m) ==> (bytes@.len() == 0 ==> m.resource_logs@.len() == 0),
{
    ExportLogsServiceRequest::decode(bytes)
}

/// Relies on prost's `Message::decode` for `ExportMetricsServiceRequest`: the
/// outcome depends on the bytes alone, and an empty buffer decodes.
#[verifier::external_body]
pub(crate) fn decode_metrics(bytes: &[u8]) -> (r: Result<ExportMetricsServiceRequest, prost::DecodeError>)
    ensures
        r is Ok == metrics_decodes(bytes@),
        bytes@.len() == 0 ==> r is Ok,
{
    ExportMetricsServiceRequest::decode(bytes)
}

/// Relies on prost's `Message::decode` for `ExportTraceServiceRequest`: the
/// outcome depends on the bytes alone, and an empty buffer decodes.
#[verifier::external_body]
pub(crate) fn decode_traces(bytes: &[u8]) -> (r: Result<ExportTraceServiceRequest, prost::DecodeError>)
    ensures
        r is Ok == traces_decodes(bytes@),
        bytes@.len() == 0 ==> r is Ok,
{
    ExportTraceServiceRequest::decode(bytes)
}

} // verus!
