//! Projection of a decoded logs export request into flat rows, one per record.
use vstd::prelude::*;
use opentelemetry_proto::tonic::collector::logs::v1::ExportLogsServiceRequest;
use opentelemetry_proto::tonic::common::v1::{AnyValue, InstrumentationScope, KeyValue};
use opentelemetry_proto::tonic::logs::v1::{LogRecord, ResourceLogs, ScopeLogs};
use opentelemetry_proto::tonic::resource::v1::Resource;
use crate::canonical::{canonical, parse_key_values_to_sorted_string};
use crate::render::{parse_value_to_str, rendered, ValueKind};

verus! {

/// One stored log row: the canonical texts of the resource, scope and record
/// attributes, and the text of the record's body.
#[derive(Debug, PartialEq, Eq)]
pub struct LogRow {
    pub resource_labels: String,
    pub scope_labels: String,
    pub log_labels: String,
    pub log: String,
}

/// The four texts of a row.
pub type RowView = (Seq<char>, Seq<char>, Seq<char>, Seq<char>);

impl View for LogRow {
    type V = RowView;

    open spec fn view(&self) -> RowView {
        (self.resource_labels@, self.scope_labels@, self.log_labels@, self.log@)
    }
}

pub open spec fn rows_view(v: Seq<LogRow>) -> Seq<RowView> {
    v.map_values(|x: LogRow| x@)
}

/// A row list result as a value of the model.
pub open spec fn rows_result(r: Result<Vec<LogRow>, ValueKind>) -> Result<Seq<RowView>, ValueKind> {
    match r {
        Ok(v) => Ok(rows_view(v@)),
        Err(k) => Err(k),
    }
}

/// The rows of `a` followed by those of `b`; the first failure wins.
pub open spec fn then_append(a: Result<Seq<RowView>, ValueKind>, b: Result<Seq<RowView>, ValueKind>) -> Result<Seq<RowView>, ValueKind> {
    match a {
        Err(k) => Err(k),
        Ok(p) => match b {
            Err(k) => Err(k),
            Ok(q) => Ok(p + q),
        },
    }
}

/// The rows of each item of `s` in turn, concatenated.
pub open spec fn fold_rows<A>(s: Seq<A>, f: spec_fn(A) -> Result<Seq<RowView>, ValueKind>) -> Result<Seq<RowView>, ValueKind>
    decreases s.len(),
{
    if s.len() == 0 {
        Ok(seq![])
    } else {
        then_append(fold_rows(s.drop_last(), f), f(s.last()))
    }
}

/// The text of a record's body: the rendered value, or empty where there is none.
pub open spec fn body_text(rec: LogRecord) -> Result<Seq<char>, ValueKind> {
    match rec.body {
        Some(AnyValue { value: Some(v) }) => rendered(v),
        _ => Ok(seq![]),
    }
}

/// The single row of one record, under the given resource and scope texts.
pub open spec fn record_row(r: Seq<char>, s: Seq<char>, rec: LogRecord) -> Result<Seq<RowView>, ValueKind> {
    match canonical(rec.attributes@) {
        Err(k) => Err(k),
        Ok(l) => match body_text(rec) {
            Err(k) => Err(k),
            Ok(b) => Ok(seq![(r, s, l, b)]),
        },
    }
}

pub open spec fn record_row_fn(r: Seq<char>, s: Seq<char>) -> spec_fn(LogRecord) -> Result<Seq<RowView>, ValueKind> {
    |rec: LogRecord| record_row(r, s, rec)
}

pub open spec fn scope_attributes(scope: Option<InstrumentationScope>) -> Seq<KeyValue> {
    match scope {
        Some(x) => x.attributes@,
        None => seq![],
    }
}

pub open spec fn resource_attributes(resource: Option<Resource>) -> Seq<KeyValue> {
    match resource {
        Some(x) => x.attributes@,
        None => seq![],
    }
}

/// The rows of one scope, under the given resource text.
pub open spec fn scope_rows(r: Seq<char>, sl: ScopeLogs) -> Result<Seq<RowView>, ValueKind> {
    match canonical(scope_attributes(sl.scope)) {
        Err(k) => Err(k),
        Ok(s) => fold_rows(sl.log_records@, record_row_fn(r, s)),
    }
}

pub open spec fn scope_rows_fn(r: Seq<char>) -> spec_fn(ScopeLogs) -> Result<Seq<RowView>, ValueKind> {
    |sl: ScopeLogs| scope_rows(r, sl)
}

/// The rows of one resource.
pub open spec fn resource_rows(rl: ResourceLogs) -> Result<Seq<RowView>, ValueKind> {
    match canonical(resource_attributes(rl.resource)) {
        Err(k) => Err(k),
        Ok(r) => fold_rows(rl.scope_logs@, scope_rows_fn(r)),
    }
}

pub open spec fn resource_rows_fn() -> spec_fn(ResourceLogs) -> Result<Seq<RowView>, ValueKind> {
    |rl: ResourceLogs| resource_rows(rl)
}

/// The rows of a logs export request: one per record, resources, scopes and
/// records taken in order.
pub open spec fn logs_rows(req: ExportLogsServiceRequest) -> Result<Seq<RowView>, ValueKind> {
    fold_rows(req.resource_logs@, resource_rows_fn())
}

proof fn lemma_fold_step<A>(s: Seq<A>, f: spec_fn(A) -> Result<Seq<RowView>, ValueKind>, n: int)
    requires
        0 <= n < s.len(),
    ensures
        fold_rows(s.subrange(0, n + 1), f) == then_append(fold_rows(s.subrange(0, n), f), f(s[n])),
{
    assert(s.subrange(0, n + 1).drop_last() =~= s.subrange(0, n));
}

proof fn lemma_fold_err<A>(s: Seq<A>, f: spec_fn(A) -> Result<Seq<RowView>, ValueKind>, n: int)
    requires
        0 <= n <= s.len(),
        fold_rows(s.subrange(0, n), f) is Err,
    ensures
        fold_rows(s, f) == fold_rows(s.subrange(0, n), f),
    decreases s.len(),
{
    if n == s.len() {
        assert(s.subrange(0, n) =~= s);
    } else {
        assert(s.drop_last().subrange(0, n) =~= s.subrange(0, n));
        lemma_fold_err(s.drop_last(), f, n);
    }
}

proof fn lemma_rows_view_append(a: Seq<LogRow>, b: Seq<LogRow>)
    ensures
        rows_view(a + b) == rows_view(a) + rows_view(b),
{
    assert(rows_view(a + b) =~= rows_view(a) + rows_view(b));
}

fn project_record(resource_labels: &String, scope_labels: &String, rec: LogRecord) -> (r: Result<Vec<LogRow>, ValueKind>)
    ensures
        rows_result(r) == record_row(resource_labels@, scope_labels@, rec),
{
    let ghost g = rec;
    let LogRecord { body, attributes, .. } = rec;
    let log_labels = match parse_key_values_to_sorted_string(attributes) {
        Ok(t) => t,
        Err(k) => return Err(k),
    };
    let log = match body {
        Some(AnyValue { value: Some(v) }) => match parse_value_to_str(v) {
            Ok(t) => t,
            Err(k) => return Err(k),
        },
        _ => String::new(),
    };
    proof {
        assert(body_text(g) == Ok::<Seq<char>, ValueKind>(log@));
    }
    let row = LogRow {
        resource_labels: resource_labels.clone(),
        scope_labels: scope_labels.clone(),
        log_labels,
        log,
    };
    let rows = vec![row];
    proof {
        assert(rows_view(rows@) =~= seq![row@]);
    }
    Ok(rows)
}

fn project_scope(resource_labels: &String, sl: ScopeLogs) -> (r: Result<Vec<LogRow>, ValueKind>)
    ensures
        rows_result(r) == scope_rows(resource_labels@, sl),
{
    let ScopeLogs { scope, log_records, .. } = sl;
    let attributes = match scope {
        Some(x) => x.attributes,
        None => Vec::new(),
    };
    let scope_labels = match parse_key_values_to_sorted_string(attributes) {
        Ok(t) => t,
        Err(k) => return Err(k),
    };
    let ghost f = record_row_fn(resource_labels@, scope_labels@);
    let ghost all = log_records@;
    let mut rest = log_records;
    let mut rows: Vec<LogRow> = Vec::new();
    proof {
        assert(all.subrange(0, 0) =~= Seq::<LogRecord>::empty());
        assert(rows_view(rows@) =~= Seq::<RowView>::empty());
    }
    while rest.len() > 0
        invariant
            rest.len() <= all.len(),
            rest@ == all.subrange(all.len() - rest.len(), all.len() as int),
            fold_rows(all.subrange(0, all.len() - rest.len()), f) == Ok::<Seq<RowView>, ValueKind>(rows_view(rows@)),
            f == record_row_fn(resource_labels@, scope_labels@),
            all == sl.log_records@,
            canonical(scope_attributes(sl.scope)) == Ok::<Seq<char>, ValueKind>(scope_labels@),
        decreases rest.len(),
    {
        let ghost done = all.len() - rest.len();
        let rec = rest.remove(0);
        proof {
            assert(rest@ =~= all.subrange(all.len() - rest.len(), all.len() as int));
            lemma_fold_step(all, f, done);
        }
        match project_record(resource_labels, &scope_labels, rec) {
            Err(k) => {
                proof {
                    lemma_fold_err(all, f, done + 1);
                }
                return Err(k);
            },
            Ok(mut one) => {
                proof {
                    lemma_rows_view_append(rows@, one@);
                }
                rows.append(&mut one);
            },
        }
    }
    proof {
        assert(all.subrange(0, all.len() as int) =~= all);
    }
    Ok(rows)
}

fn project_resource(rl: ResourceLogs) -> (r: Result<Vec<LogRow>, ValueKind>)
    ensures
        rows_result(r) == resource_rows(rl),
{
    let ResourceLogs { resource, scope_logs, .. } = rl;
    let attributes = match resource {
        Some(x) => x.attributes,
        None => Vec::new(),
    };
    let resource_labels = match parse_key_values_to_sorted_string(attributes) {
        Ok(t) => t,
        Err(k) => return Err(k),
    };
    let ghost f = scope_rows_fn(resource_labels@);
    let ghost all = scope_logs@;
    let mut rest = scope_logs;
    let mut rows: Vec<LogRow> = Vec::new();
    proof {
        assert(all.subrange(0, 0) =~= Seq::<ScopeLogs>::empty());
        assert(rows_view(rows@) =~= Seq::<RowView>::empty());
    }
    while rest.len() > 0
        invariant
            rest.len() <= all.len(),
            rest@ == all.subrange(all.len() - rest.len(), all.len() as int),
            fold_rows(all.subrange(0, all.len() - rest.len()), f) == Ok::<Seq<RowView>, ValueKind>(rows_view(rows@)),
            f == scope_rows_fn(resource_labels@),
            all == rl.scope_logs@,
            canonical(resource_attributes(rl.resource)) == Ok::<Seq<char>, ValueKind>(resource_labels@),
        decreases rest.len(),
    {
        let ghost done = all.len() - rest.len();
        let sl = rest.remove(0);
        proof {
            assert(rest@ =~= all.subrange(all.len() - rest.len(), all.len() as int));
            lemma_fold_step(all, f, done);
        }
        match project_scope(&resource_labels, sl) {
            Err(k) => {
                proof {
                    lemma_fold_err(all, f, done + 1);
                }
                return Err(k);
            },
            Ok(mut more) => {
                proof {
                    lemma_rows_view_append(rows@, more@);
                }
                rows.append(&mut more);
            },
        }
    }
    proof {
        assert(all.subrange(0, all.len() as int) =~= all);
    }
    Ok(rows)
}

/// Projects a logs export request into rows, one per log record, in the order
/// of resources, scopes and records. Each row holds the canonical texts of its
/// resource's, scope's and record's attributes (an absent resource or scope
/// counts as no attributes) and the text of the record's body (empty where the
/// record has none). Fails with the kind of the first value met that has no
/// text rendering.
pub fn project_logs(request: ExportLogsServiceRequest) -> (r: Result<Vec<LogRow>, ValueKind>)
    ensures
        rows_result(r) == logs_rows(request),
{
    let ghost f = resource_rows_fn();
    let ghost all = request.resource_logs@;
    let mut rest = request.resource_logs;
    let mut rows: Vec<LogRow> = Vec::new();
    proof {
        assert(all.subrange(0, 0) =~= Seq::<ResourceLogs>::empty());
        assert(rows_view(rows@) =~= Seq::<RowView>::empty());
    }
    while rest.len() > 0
        invariant
            rest.len() <= all.len(),
            rest@ == all.subrange(all.len() - rest.len(), all.len() as int),
            fold_rows(all.subrange(0, all.len() - rest.len()), f) == Ok::<Seq<RowView>, ValueKind>(rows_view(rows@)),
            f == resource_rows_fn(),
            all == request.resource_logs@,
        decreases rest.len(),
    {
        let ghost done = all.len() - rest.len();
        let rl = rest.remove(0);
        proof {
            assert(rest@ =~= all.subrange(all.len() - rest.len(), all.len() as int));
            lemma_fold_step(all, f, done);
        }
        match project_resource(rl) {
            Err(k) => {
                proof {
                    lemma_fold_err(all, f, done + 1);
                }
                return Err(k);
            },
            Ok(mut more) => {
                proof {
                    lemma_rows_view_append(rows@, more@);
                }
                rows.append(&mut more);
            },
        }
    }
    proof {
        assert(all.subrange(0, all.len() as int) =~= all);
    }
    Ok(rows)
}

/// The sum of `g` over the items of `s`.
pub open spec fn total<A>(s: Seq<A>, g: spec_fn(A) -> nat) -> nat
    decreases s.len(),
{
    if s.len() == 0 {
        0
    } else {
        total(s.drop_last(), g) + g(s.last())
    }
}

pub open spec fn one_per_record() -> spec_fn(LogRecord) -> nat {
    |rec: LogRecord| 1nat
}

pub open spec fn scope_record_count() -> spec_fn(ScopeLogs) -> nat {
    |sl: ScopeLogs| total(sl.log_records@, one_per_record())
}

pub open spec fn resource_record_count() -> spec_fn(ResourceLogs) -> nat {
    |rl: ResourceLogs| total(rl.scope_logs@, scope_record_count())
}

/// The number of log records in a logs export request.
pub open spec fn record_count(req: ExportLogsServiceRequest) -> nat {
    total(req.resource_logs@, resource_record_count())
}

proof fn lemma_fold_len<A>(s: Seq<A>, f: spec_fn(A) -> Result<Seq<RowView>, ValueKind>, g: spec_fn(A) -> nat)
    requires
        forall|x: A| (#[trigger] f(x)) is Ok ==> f(x)->Ok_0.len() == g(x),
    ensures
        fold_rows(s, f) matches Ok(p) ==> p.len() == total(s, g),
    decreases s.len(),
{
    if s.len() > 0 {
        lemma_fold_len(s.drop_last(), f, g);
    }
}

/// Every log record yields exactly one row: a successful projection has as
/// many rows as the request has records.
pub proof fn lemma_one_row_per_record(req: ExportLogsServiceRequest)
    ensures
        logs_rows(req) matches Ok(rows) ==> rows.len() == record_count(req),
{
    assert forall|r: Seq<char>, sl: ScopeLogs| (#[trigger] scope_rows_fn(r)(sl)) is Ok
        implies scope_rows_fn(r)(sl)->Ok_0.len() == scope_record_count()(sl) by {
        if let Ok(s) = canonical(scope_attributes(sl.scope)) {
            lemma_fold_len(sl.log_records@, record_row_fn(r, s), one_per_record());
        }
    }
    assert forall|rl: ResourceLogs| (#[trigger] resource_rows_fn()(rl)) is Ok
        implies resource_rows_fn()(rl)->Ok_0.len() == resource_record_count()(rl) by {
        if let Ok(r) = canonical(resource_attributes(rl.resource)) {
            lemma_fold_len(rl.scope_logs@, scope_rows_fn(r), scope_record_count());
        }
    }
    lemma_fold_len(req.resource_logs@, resource_rows_fn(), resource_record_count());
}

} // verus!
