//! Pulling a model from Ollama: the stream of newline-separated JSON records, the
//! layers they report on, and the progress that is shown.

use crate::json;
use crate::json::{JsonField, JsonMember};
use crate::text;
use vstd::prelude::*;

verus! {

/// The last report on one layer of a model.
pub struct Layer {
    pub digest: String,
    pub completed: u64,
    pub total: u64,
}

/// The view of a `Layer`.
pub struct LayerReport {
    pub digest: Seq<char>,
    pub completed: u64,
    pub total: u64,
}

impl View for Layer {
    type V = LayerReport;

    open spec fn view(&self) -> LayerReport {
        LayerReport { digest: self.digest@, completed: self.completed, total: self.total }
    }
}

/// The reports that a list of layers stands for.
pub open spec fn reports_of(layers: Seq<Layer>) -> Seq<LayerReport> {
    layers.map_values(|l: Layer| l@)
}

/// The place of the first report on a digest, or the length where there is none.
pub open spec fn place_of(layers: Seq<LayerReport>, digest: Seq<char>) -> nat
    decreases layers.len(),
{
    if layers.len() == 0 || layers[0].digest == digest {
        0
    } else {
        1 + place_of(layers.drop_first(), digest)
    }
}

/// The layers after a report: it replaces the one on the same digest, or is added.
pub open spec fn with_report(layers: Seq<LayerReport>, report: LayerReport) -> Seq<LayerReport> {
    let place = place_of(layers, report.digest);
    if place < layers.len() {
        layers.update(place as int, report)
    } else {
        layers.push(report)
    }
}

/// The bytes that all layers together have received.
pub open spec fn completed_sum(layers: Seq<LayerReport>) -> nat
    decreases layers.len(),
{
    if layers.len() == 0 {
        0
    } else {
        completed_sum(layers.drop_last()) + layers.last().completed as nat
    }
}

/// The bytes that all layers together hold.
pub open spec fn total_sum(layers: Seq<LayerReport>) -> nat
    decreases layers.len(),
{
    if layers.len() == 0 {
        0
    } else {
        total_sum(layers.drop_last()) + layers.last().total as nat
    }
}

/// Whether no two reports share a digest.
pub open spec fn distinct_digests(layers: Seq<LayerReport>) -> bool {
    forall|i: int, j: int|
        0 <= i < j < layers.len() ==> (#[trigger] layers[i]).digest != (#[trigger] layers[j]).digest
}

/// Progress to show: the status of the last record and the sums over all layers.
pub struct PullProgress {
    pub status: String,
    pub completed: u64,
    pub total: u64,
}

/// The view of a `PullProgress`.
pub struct ProgressReport {
    pub status: Seq<char>,
    pub completed: nat,
    pub total: nat,
}

impl View for PullProgress {
    type V = ProgressReport;

    open spec fn view(&self) -> ProgressReport {
        ProgressReport {
            status: self.status@,
            completed: self.completed as nat,
            total: self.total as nat,
        }
    }
}

/// The progress that a list stands for.
pub open spec fn progress_of(list: Seq<PullProgress>) -> Seq<ProgressReport> {
    list.map_values(|p: PullProgress| p@)
}

/// What one line of the stream calls for.
pub enum LineOutcome {
    /// Nothing: it is not JSON.
    Skipped,
    /// The server reports an error.
    Failed { error: String },
    /// Progress to show.
    Progressed { progress: PullProgress },
    /// The sums over all layers no longer fit their counters.
    TooLarge,
}

/// The view of a `LineOutcome`.
pub enum LineReport {
    Skipped,
    Failed { error: Seq<char> },
    Progressed { progress: ProgressReport },
    TooLarge,
}

impl View for LineOutcome {
    type V = LineReport;

    open spec fn view(&self) -> LineReport {
        match *self {
            LineOutcome::Skipped => LineReport::Skipped,
            LineOutcome::Failed { error } => LineReport::Failed { error: error@ },
            LineOutcome::Progressed { progress } => LineReport::Progressed { progress: progress@ },
            LineOutcome::TooLarge => LineReport::TooLarge,
        }
    }
}

/// The text under a name, empty where there is none.
pub open spec fn text_or_empty(fields: Seq<JsonField>, name: Seq<char>) -> Seq<char> {
    match json::text_at(fields, name) {
        Some(t) => t,
        None => Seq::empty(),
    }
}

/// The layers after a record that is not an error. A record reports on a layer
/// where it has a digest and a total.
pub open spec fn layers_after(layers: Seq<LayerReport>, fields: Seq<JsonField>) -> Seq<LayerReport> {
    match (json::text_at(fields, "digest"@), json::number_at(fields, "total"@)) {
        (Some(digest), Some(total)) => with_report(
            layers,
            LayerReport {
                digest,
                completed: match json::number_at(fields, "completed"@) {
                    Some(n) => n,
                    None => 0,
                },
                total,
            },
        ),
        _ => layers,
    }
}

/// Whether the sums over some layers fit their counters.
pub open spec fn sums_fit(layers: Seq<LayerReport>) -> bool {
    completed_sum(layers) <= u64::MAX && total_sum(layers) <= u64::MAX
}

/// What a line with the given JSON calls for, and the layers after it.
pub open spec fn after_line(layers: Seq<LayerReport>, document: Option<Seq<JsonField>>) -> (
    Seq<LayerReport>,
    LineReport,
) {
    match document {
        None => (layers, LineReport::Skipped),
        Some(fields) => match json::text_at(fields, "error"@) {
            Some(error) => (layers, LineReport::Failed { error }),
            None => {
                let next = layers_after(layers, fields);
                if sums_fit(next) {
                    (
                        next,
                        LineReport::Progressed {
                            progress: ProgressReport {
                                status: text_or_empty(fields, "status"@),
                                completed: completed_sum(next),
                                total: total_sum(next),
                            },
                        },
                    )
                } else {
                    (next, LineReport::TooLarge)
                }
            },
        },
    }
}

fn find_layer(layers: &Vec<Layer>, digest: &str) -> (r: usize)
    ensures
        r == place_of(reports_of(layers@), digest@),
        r <= layers@.len(),
{
    let ghost reports = reports_of(layers@);
    let n: usize = layers.len();
    let mut i: usize = 0;
    assert(reports.skip(0) =~= reports);
    while i < n
        invariant
            i <= n,
            n == layers@.len(),
            reports == reports_of(layers@),
            place_of(reports, digest@) == i + place_of(reports.skip(i as int), digest@),
        decreases n - i,
    {
        assert(reports.skip(i as int)[0] == layers@[i as int]@);
        assert(reports.skip(i as int).drop_first() =~= reports.skip(i + 1));
        if text::same_text(layers[i].digest.as_str(), digest) {
            return i;
        }
        i = i + 1;
    }
    i
}

fn put_layer(layers: &mut Vec<Layer>, layer: Layer)
    ensures
        reports_of(final(layers)@) == with_report(reports_of(old(layers)@), layer@),
{
    let ghost report = layer@;
    let ghost before = reports_of(layers@);
    let place: usize = find_layer(layers, layer.digest.as_str());
    if place < layers.len() {
        layers.set(place, layer);
        assert(reports_of(layers@) =~= before.update(place as int, report));
    } else {
        layers.push(layer);
        assert(reports_of(layers@) =~= before.push(report));
    }
}

proof fn lemma_sums_grow(layers: Seq<LayerReport>, k: int)
    requires
        0 <= k <= layers.len(),
    ensures
        completed_sum(layers.take(k)) <= completed_sum(layers),
        total_sum(layers.take(k)) <= total_sum(layers),
    decreases layers.len(),
{
    if k == layers.len() {
        assert(layers.take(k) =~= layers);
    } else {
        assert(layers.drop_last().take(k) =~= layers.take(k));
        lemma_sums_grow(layers.drop_last(), k);
    }
}

/// The sums over all layers, where they fit their counters.
fn layer_sums(layers: &Vec<Layer>) -> (r: Option<(u64, u64)>)
    ensures
        match r {
            Some((completed, total)) => {
                &&& completed == completed_sum(reports_of(layers@))
                &&& total == total_sum(reports_of(layers@))
            },
            None => !sums_fit(reports_of(layers@)),
        },
{
    let ghost reports = reports_of(layers@);
    let n: usize = layers.len();
    let mut completed: u64 = 0;
    let mut total: u64 = 0;
    let mut i: usize = 0;
    while i < n
        invariant
            i <= n,
            n == layers@.len(),
            reports == reports_of(layers@),
            completed == completed_sum(reports.take(i as int)),
            total == total_sum(reports.take(i as int)),
        decreases n - i,
    {
        proof {
            let next = reports.take(i + 1);
            assert(next.drop_last() =~= reports.take(i as int));
            assert(next.last() == layers@[i as int]@);
            lemma_sums_grow(reports, i + 1);
        }
        if layers[i].completed > u64::MAX - completed || layers[i].total > u64::MAX - total {
            return None;
        }
        completed = completed + layers[i].completed;
        total = total + layers[i].total;
        i = i + 1;
    }
    assert(reports.take(n as int) =~= reports);
    Some((completed, total))
}

/// Takes one record into the layers and says what it calls for.
pub fn read_record(layers: &mut Vec<Layer>, document: &Option<Vec<JsonMember>>) -> (r: LineOutcome)
    ensures
        (reports_of(final(layers)@), r@) == after_line(
            reports_of(old(layers)@),
            json::document_of(*document),
        ),
{
    let members = match document {
        Some(members) => members,
        None => {
            return LineOutcome::Skipped;
        },
    };
    if let Some(error) = json::member_text(members, "error") {
        return LineOutcome::Failed { error };
    }
    let status = match json::member_text(members, "status") {
        Some(s) => s,
        None => String::new(),
    };
    if let Some(digest) = json::member_text(members, "digest") {
        if let Some(total) = json::member_number(members, "total") {
            let completed: u64 = match json::member_number(members, "completed") {
                Some(n) => n,
                None => 0,
            };
            put_layer(layers, Layer { digest, completed, total });
        }
    }
    match layer_sums(layers) {
        Some((completed, total)) => {
            let progress = PullProgress { status, completed, total };
            LineOutcome::Progressed { progress }
        },
        None => LineOutcome::TooLarge,
    }
}

/// How a stretch of the stream ends.
#[derive(Debug)]
pub enum StreamEnd {
    /// It goes on.
    Open,
    /// The server reports an error.
    Failed { error: String },
    /// The sums over all layers no longer fit their counters.
    TooLarge,
}

/// The view of a `StreamEnd`.
pub enum EndReport {
    Open,
    Failed { error: Seq<char> },
    TooLarge,
}

impl View for StreamEnd {
    type V = EndReport;

    open spec fn view(&self) -> EndReport {
        match *self {
            StreamEnd::Open => EndReport::Open,
            StreamEnd::Failed { error } => EndReport::Failed { error: error@ },
            StreamEnd::TooLarge => EndReport::TooLarge,
        }
    }
}

/// What reading some records leads to: the layers, the progress to show, and how it
/// ends.
#[verifier::ext_equal]
pub struct Reading {
    pub layers: Seq<LayerReport>,
    pub progress: Seq<ProgressReport>,
    pub end: EndReport,
}

impl Reading {
    /// The same, with progress in front.
    pub open spec fn behind(self, progress: Seq<ProgressReport>) -> Reading {
        Reading { progress: progress + self.progress, ..self }
    }
}

/// Reads records one after the other. Those that are not JSON are skipped; an error,
/// or sums that do not fit, end the stream.
pub open spec fn reading(layers: Seq<LayerReport>, documents: Seq<Option<Seq<JsonField>>>) -> Reading
    decreases documents.len(),
{
    if documents.len() == 0 {
        Reading { layers, progress: Seq::empty(), end: EndReport::Open }
    } else {
        let (next, outcome) = after_line(layers, documents[0]);
        match outcome {
            LineReport::Skipped => reading(next, documents.drop_first()),
            LineReport::Progressed { progress } => reading(next, documents.drop_first()).behind(
                seq![progress],
            ),
            LineReport::Failed { error } => Reading {
                layers: next,
                progress: Seq::empty(),
                end: EndReport::Failed { error },
            },
            LineReport::TooLarge => Reading {
                layers: next,
                progress: Seq::empty(),
                end: EndReport::TooLarge,
            },
        }
    }
}

/// The fields that a list of parsed lines stands for.
pub open spec fn documents_of(documents: Seq<Option<Vec<JsonMember>>>) -> Seq<
    Option<Seq<JsonField>>,
> {
    documents.map_values(|d: Option<Vec<JsonMember>>| json::document_of(d))
}

/// What a chunk of the stream leads to.
pub struct PullBatch {
    pub progress: Vec<PullProgress>,
    pub end: StreamEnd,
}

/// Takes records into the layers, one after the other, until one ends the stream.
pub fn read_records(layers: &mut Vec<Layer>, documents: &Vec<Option<Vec<JsonMember>>>) -> (r:
    PullBatch)
    ensures
        ({
            let d = reading(reports_of(old(layers)@), documents_of(documents@));
            &&& reports_of(final(layers)@) == d.layers
            &&& progress_of(r.progress@) == d.progress
            &&& r.end@ == d.end
        }),
{
    let ghost whole = documents_of(documents@);
    let ghost all = reading(reports_of(layers@), whole);
    let n: usize = documents.len();
    let mut progress: Vec<PullProgress> = Vec::new();
    let mut i: usize = 0;
    assert(whole.skip(0) =~= whole);
    assert(progress_of(progress@) =~= Seq::empty());
    assert(all.behind(Seq::empty()) =~= all);
    while i < n
        invariant
            i <= n,
            n == documents@.len(),
            whole == documents_of(documents@),
            all == reading(reports_of(old(layers)@), documents_of(documents@)),
            all == reading(reports_of(layers@), whole.skip(i as int)).behind(progress_of(progress@)),
        decreases n - i,
    {
        let ghost shown = progress_of(progress@);
        let ghost rest = whole.skip(i as int);
        assert(rest[0] == json::document_of(documents@[i as int]));
        assert(rest.drop_first() =~= whole.skip(i + 1));
        assert(shown + Seq::empty() =~= shown);
        match read_record(layers, &documents[i]) {
            LineOutcome::Skipped => {},
            LineOutcome::Progressed { progress: next } => {
                let ghost p = next@;
                let ghost later = reading(reports_of(layers@), whole.skip(i + 1));
                progress.push(next);
                assert(progress_of(progress@) =~= shown.push(p));
                assert(later.behind(seq![p]).behind(shown) =~= later.behind(shown.push(p)));
            },
            LineOutcome::Failed { error } => {
                return PullBatch { progress, end: StreamEnd::Failed { error } };
            },
            LineOutcome::TooLarge => {
                return PullBatch { progress, end: StreamEnd::TooLarge };
            },
        }
        i = i + 1;
    }
    let ghost shown = progress_of(progress@);
    assert(shown + Seq::empty() =~= shown);
    PullBatch { progress, end: StreamEnd::Open }
}

/// The byte that ends a line.
pub const NEWLINE: u8 = 10;

/// The place of the first newline, or the length where there is none.
pub open spec fn newline_at(bytes: Seq<u8>) -> nat
    decreases bytes.len(),
{
    if bytes.len() == 0 || bytes[0] == NEWLINE {
        0
    } else {
        1 + newline_at(bytes.drop_first())
    }
}

/// The complete lines of some bytes, without their newlines.
pub open spec fn lines_of(bytes: Seq<u8>) -> Seq<Seq<u8>>
    decreases bytes.len(),
{
    let end = newline_at(bytes) as int;
    if end >= bytes.len() {
        Seq::empty()
    } else {
        seq![bytes.take(end)] + lines_of(bytes.skip(end + 1))
    }
}

/// The bytes after the last newline.
pub open spec fn rest_of(bytes: Seq<u8>) -> Seq<u8>
    decreases bytes.len(),
{
    let end = newline_at(bytes) as int;
    if end >= bytes.len() {
        bytes
    } else {
        rest_of(bytes.skip(end + 1))
    }
}

/// The lines that a list of byte strings stands for.
pub open spec fn byte_lines(lines: Seq<Vec<u8>>) -> Seq<Seq<u8>> {
    lines.map_values(|line: Vec<u8>| line@)
}

proof fn lemma_newline_at(bytes: Seq<u8>)
    ensures
        newline_at(bytes) <= bytes.len(),
        newline_at(bytes) < bytes.len() ==> bytes[newline_at(bytes) as int] == NEWLINE,
        forall|i: int| 0 <= i < newline_at(bytes) ==> #[trigger] bytes[i] != NEWLINE,
    decreases bytes.len(),
{
    if bytes.len() > 0 && bytes[0] != NEWLINE {
        let tail = bytes.drop_first();
        lemma_newline_at(tail);
        assert forall|i: int| 0 <= i < newline_at(bytes) implies #[trigger] bytes[i] != NEWLINE by {
            if i > 0 {
                assert(bytes[i] == tail[i - 1]);
            }
        }
    }
}

proof fn lemma_newline_is(bytes: Seq<u8>, end: int)
    requires
        0 <= end < bytes.len(),
        bytes[end] == NEWLINE,
        forall|i: int| 0 <= i < end ==> #[trigger] bytes[i] != NEWLINE,
    ensures
        newline_at(bytes) == end,
{
    lemma_newline_at(bytes);
    let found = newline_at(bytes) as int;
    if found < end {
        assert(bytes[found] != NEWLINE);
    }
}

/// Parts bytes into their complete lines and the bytes after the last newline.
pub fn split_lines(bytes: &[u8]) -> (r: (Vec<Vec<u8>>, Vec<u8>))
    ensures
        byte_lines(r.0@) == lines_of(bytes@),
        r.1@ == rest_of(bytes@),
{
    let n: usize = bytes.len();
    let mut lines: Vec<Vec<u8>> = Vec::new();
    let mut current: Vec<u8> = Vec::new();
    let ghost mut start: int = 0;
    let mut i: usize = 0;
    assert(bytes@.skip(0) =~= bytes@);
    assert(byte_lines(lines@) + lines_of(bytes@) =~= lines_of(bytes@));
    while i < n
        invariant
            0 <= start <= i <= n,
            n == bytes@.len(),
            current@ == bytes@.subrange(start, i as int),
            forall|j: int| start <= j < i ==> #[trigger] bytes@[j] != NEWLINE,
            byte_lines(lines@) + lines_of(bytes@.skip(start)) == lines_of(bytes@),
            rest_of(bytes@.skip(start)) == rest_of(bytes@),
        decreases n - i,
    {
        if bytes[i] == NEWLINE {
            let ghost tail = bytes@.skip(start);
            let ghost before = byte_lines(lines@);
            proof {
                assert(tail[i - start] == bytes@[i as int]);
                lemma_newline_is(tail, i - start);
                assert(tail.take(i - start) =~= current@);
                assert(tail.skip(i - start + 1) =~= bytes@.skip(i + 1));
            }
            let ghost line = current@;
            lines.push(current);
            current = Vec::new();
            proof {
                assert(byte_lines(lines@) =~= before.push(line));
                let later = lines_of(bytes@.skip(i + 1));
                assert(before + (seq![line] + later) =~= before.push(line) + later);
                start = i + 1;
            }
        } else {
            current.push(bytes[i]);
            assert(bytes@.subrange(start, i + 1) =~= bytes@.subrange(start, i as int).push(
                bytes@[i as int],
            ));
        }
        i = i + 1;
    }
    proof {
        let tail = bytes@.skip(start);
        lemma_newline_at(tail);
        let found = newline_at(tail) as int;
        if found < tail.len() {
            assert(tail[found] == bytes@[start + found]);
        }
        assert(tail =~= current@);
        assert(byte_lines(lines@) + lines_of(tail) =~= byte_lines(lines@));
    }
    (lines, current)
}

/// What is read in a line. Nothing is in an empty one.
pub open spec fn line_document(line: Seq<u8>) -> Option<Seq<JsonField>> {
    if line.len() == 0 {
        None
    } else {
        json::json_of_bytes(line)
    }
}

/// What is read in some lines.
pub open spec fn line_documents(lines: Seq<Seq<u8>>) -> Seq<Option<Seq<JsonField>>> {
    lines.map_values(|line: Seq<u8>| line_document(line))
}

fn parse_lines(lines: &Vec<Vec<u8>>) -> (r: Vec<Option<Vec<JsonMember>>>)
    ensures
        documents_of(r@) == line_documents(byte_lines(lines@)),
{
    let n: usize = lines.len();
    let mut out: Vec<Option<Vec<JsonMember>>> = Vec::new();
    let mut i: usize = 0;
    while i < n
        invariant
            i <= n,
            n == lines@.len(),
            out@.len() == i,
            forall|j: int|
                0 <= j < i ==> json::document_of(#[trigger] out@[j]) == line_document(lines@[j]@),
        decreases n - i,
    {
        let document = if lines[i].len() == 0 {
            None
        } else {
            json::parse_bytes(lines[i].as_slice())
        };
        out.push(document);
        i = i + 1;
    }
    assert(documents_of(out@) =~= line_documents(byte_lines(lines@)));
    out
}

/// What reading the complete lines of some bytes leads to.
pub open spec fn drained(layers: Seq<LayerReport>, bytes: Seq<u8>) -> Reading {
    reading(layers, line_documents(lines_of(bytes)))
}

/// A pull under way: the bytes of the line that is not complete yet, and the
/// layers reported so far.
pub struct PullStream {
    pub buffer: Vec<u8>,
    pub layers: Vec<Layer>,
}

impl PullStream {
    /// A pull of which nothing was received yet.
    pub fn new() -> (r: Self)
        ensures
            r.buffer@ == Seq::<u8>::empty(),
            reports_of(r.layers@) == Seq::<LayerReport>::empty(),
    {
        let layers: Vec<Layer> = Vec::new();
        assert(reports_of(layers@) =~= Seq::empty());
        PullStream { buffer: Vec::new(), layers }
    }

    /// What reading the lines that a chunk completes leads to.
    pub open spec fn after_chunk(self, chunk: Seq<u8>) -> Reading {
        drained(reports_of(self.layers@), self.buffer@ + chunk)
    }

    /// Takes a chunk of the stream and reads the lines that it completes.
    pub fn feed(&mut self, chunk: &[u8]) -> (r: PullBatch)
        ensures
            ({
                let d = old(self).after_chunk(chunk@);
                &&& final(self).buffer@ == rest_of(old(self).buffer@ + chunk@)
                &&& reports_of(final(self).layers@) == d.layers
                &&& progress_of(r.progress@) == d.progress
                &&& r.end@ == d.end
            }),
    {
        let ghost whole = self.buffer@ + chunk@;
        self.buffer.extend_from_slice(chunk);
        assert(self.buffer@ =~= whole);
        let (lines, rest) = split_lines(self.buffer.as_slice());
        self.buffer = rest;
        let documents = parse_lines(&lines);
        read_records(&mut self.layers, &documents)
    }
}

/// Why a pull failed.
#[derive(Debug)]
pub enum PullFault {
    /// The server was not reached.
    Unreachable { detail: String },
    /// The server refused to pull.
    Refused { status: String, body: String },
    /// The stream broke off.
    Broken { detail: String },
    /// The server reported an error in the stream.
    Reported { error: String },
}

/// A failed pull: the error to return, and whether listeners are told of it.
#[derive(Debug)]
pub struct PullFailure {
    pub error: String,
    pub announced: bool,
}

impl PullFault {
    /// The error text of a failed pull from the server at `base`.
    pub open spec fn message(self, base: Seq<char>) -> Seq<char> {
        match self {
            PullFault::Unreachable { detail } => "Failed to reach Ollama at "@ + base + ": "@
                + detail@,
            PullFault::Refused { status, body } => "Ollama returned "@ + status@ + ": "@ + body@,
            PullFault::Broken { detail } => "Download stream error: "@ + detail@,
            PullFault::Reported { error } => error@,
        }
    }
}

/// Whether a failure is that of a pull from the server at `base`. Listeners are
/// told of every fault but that the server was not reached.
pub open spec fn failure_of(failure: PullFailure, base: Seq<char>, fault: PullFault) -> bool {
    failure.error@ == fault.message(base) && failure.announced == !(fault is Unreachable)
}

/// How a pull from the server at `base` fails.
pub fn pull_failure(base: &str, fault: PullFault) -> (r: PullFailure)
    ensures
        failure_of(r, base@, fault),
{
    match fault {
        PullFault::Unreachable { detail } => {
            let mut error = "Failed to reach Ollama at ".to_string();
            error.append(base);
            error.append(": ");
            error.append(detail.as_str());
            PullFailure { error, announced: false }
        },
        PullFault::Refused { status, body } => {
            let mut error = "Ollama returned ".to_string();
            error.append(status.as_str());
            error.append(": ");
            error.append(body.as_str());
            PullFailure { error, announced: true }
        },
        PullFault::Broken { detail } => {
            let mut error = "Download stream error: ".to_string();
            error.append(detail.as_str());
            PullFailure { error, announced: true }
        },
        PullFault::Reported { error } => PullFailure { error, announced: true },
    }
}

/// How far a pull has come.
#[derive(Clone, Copy, Debug, PartialEq, Eq, Structural)]
pub enum PullPhase {
    /// The request was sent.
    Requested,
    /// The server streams.
    Streaming,
    /// It is over.
    Over,
}

/// A pull.
pub struct PullSession {
    /// The root of the server.
    pub base: String,
    pub phase: PullPhase,
    pub stream: PullStream,
}

/// What a pull learns.
#[derive(Debug)]
pub enum PullEvent {
    Unreachable { detail: String },
    Refused { status: String, body: String },
    Accepted,
    Chunk { bytes: Vec<u8> },
    Broken { detail: String },
    Ended,
}

/// What becomes of a pull.
#[derive(Debug)]
pub enum PullVerdict {
    GoOn,
    Complete,
    Failed { failure: PullFailure },
    /// The sums over all layers no longer fit their counters.
    TooLarge,
}

/// What an event leads to: progress to show, then a verdict.
pub struct PullReport {
    pub progress: Vec<PullProgress>,
    pub verdict: PullVerdict,
}

impl PullSession {
    /// A pull whose request was sent to the server at `base`.
    pub fn new(base: String) -> (r: Self)
        ensures
            r.base == base,
            r.phase == PullPhase::Requested,
            r.stream.buffer@ == Seq::<u8>::empty(),
            reports_of(r.stream.layers@) == Seq::<LayerReport>::empty(),
    {
        PullSession { base, phase: PullPhase::Requested, stream: PullStream::new() }
    }

    /// The fault that an event is.
    pub open spec fn fault_in(self, event: PullEvent) -> Option<PullFault> {
        match (self.phase, event) {
            (PullPhase::Requested, PullEvent::Unreachable { detail }) => Some(
                PullFault::Unreachable { detail },
            ),
            (PullPhase::Requested, PullEvent::Refused { status, body }) => Some(
                PullFault::Refused { status, body },
            ),
            (PullPhase::Streaming, PullEvent::Broken { detail }) => Some(
                PullFault::Broken { detail },
            ),
            _ => None,
        }
    }

    /// What the bytes of an event lead to.
    pub open spec fn read_of(self, event: PullEvent) -> Option<Reading> {
        match (self.phase, event) {
            (PullPhase::Streaming, PullEvent::Chunk { bytes }) => Some(
                self.stream.after_chunk(bytes@),
            ),
            _ => None,
        }
    }

    /// The phase after an event. An event that the phase does not wait for changes
    /// nothing.
    pub open spec fn next_phase(self, event: PullEvent) -> PullPhase {
        match (self.phase, event) {
            (PullPhase::Requested, PullEvent::Accepted) => PullPhase::Streaming,
            (PullPhase::Streaming, PullEvent::Ended) => PullPhase::Over,
            _ => match self.read_of(event) {
                Some(d) => if d.end is Open {
                    PullPhase::Streaming
                } else {
                    PullPhase::Over
                },
                None => if self.fault_in(event) is Some {
                    PullPhase::Over
                } else {
                    self.phase
                },
            },
        }
    }

    /// Whether an event leads to a session and a report. The progress shown is that of
    /// the lines which the event completes.
    pub open spec fn leads_to(
        self,
        event: PullEvent,
        next: PullSession,
        report: PullReport,
    ) -> bool {
        &&& next.base == self.base
        &&& next.phase == self.next_phase(event)
        &&& self.judges(event, report.verdict)
        &&& match self.read_of(event) {
            Some(d) => {
                &&& progress_of(report.progress@) == d.progress
                &&& next.stream.buffer@ == rest_of(self.stream.buffer@ + event->bytes@)
                &&& reports_of(next.stream.layers@) == d.layers
            },
            None => report.progress@.len() == 0 && next.stream == self.stream,
        }
    }

    /// Whether a verdict is the one on an event.
    pub open spec fn judges(self, event: PullEvent, verdict: PullVerdict) -> bool {
        match self.fault_in(event) {
            Some(fault) => verdict matches PullVerdict::Failed { failure } && failure_of(
                failure,
                self.base@,
                fault,
            ),
            None => match self.read_of(event) {
                Some(d) => match d.end {
                    EndReport::Open => verdict == PullVerdict::GoOn,
                    EndReport::Failed { error } => verdict matches PullVerdict::Failed { failure }
                        && failure.error@ == error && failure.announced,
                    EndReport::TooLarge => verdict == PullVerdict::TooLarge,
                },
                None => verdict == (if self.phase == PullPhase::Streaming && event is Ended {
                    PullVerdict::Complete
                } else {
                    PullVerdict::GoOn
                }),
            },
        }
    }
}

/// Pulls a model: takes an event and says what to show and what becomes of the
/// pull. A stream that ends within a line is complete; that line is not read.
pub fn pull_post_process_model(session: &mut PullSession, event: PullEvent) -> (r: PullReport)
    ensures
        old(session).leads_to(event, *final(session), r),
{
    let mut progress: Vec<PullProgress> = Vec::new();
    let verdict = match (session.phase, event) {
        (PullPhase::Requested, PullEvent::Unreachable { detail }) => {
            session.phase = PullPhase::Over;
            let failure = pull_failure(session.base.as_str(), PullFault::Unreachable { detail });
            PullVerdict::Failed { failure }
        },
        (PullPhase::Requested, PullEvent::Refused { status, body }) => {
            session.phase = PullPhase::Over;
            let failure = pull_failure(session.base.as_str(), PullFault::Refused { status, body });
            PullVerdict::Failed { failure }
        },
        (PullPhase::Requested, PullEvent::Accepted) => {
            session.phase = PullPhase::Streaming;
            PullVerdict::GoOn
        },
        (PullPhase::Streaming, PullEvent::Chunk { bytes }) => {
            let batch = session.stream.feed(bytes.as_slice());
            progress = batch.progress;
            match batch.end {
                StreamEnd::Open => PullVerdict::GoOn,
                StreamEnd::Failed { error } => {
                    session.phase = PullPhase::Over;
                    let failure = pull_failure(
                        session.base.as_str(),
                        PullFault::Reported { error },
                    );
                    PullVerdict::Failed { failure }
                },
                StreamEnd::TooLarge => {
                    session.phase = PullPhase::Over;
                    PullVerdict::TooLarge
                },
            }
        },
        (PullPhase::Streaming, PullEvent::Broken { detail }) => {
            session.phase = PullPhase::Over;
            let failure = pull_failure(session.base.as_str(), PullFault::Broken { detail });
            PullVerdict::Failed { failure }
        },
        (PullPhase::Streaming, PullEvent::Ended) => {
            session.phase = PullPhase::Over;
            PullVerdict::Complete
        },
        _ => PullVerdict::GoOn,
    };
    PullReport { progress, verdict }
}

/// A pull that is over shows nothing more and stays over; it is over as soon as it
/// is complete or has failed.
pub proof fn law_finished_pulls_rest(session: PullSession, event: PullEvent, verdict: PullVerdict)
    requires
        session.judges(event, verdict),
    ensures
        session.phase == PullPhase::Over ==> {
            &&& session.next_phase(event) == PullPhase::Over
            &&& session.read_of(event) is None
            &&& verdict == PullVerdict::GoOn
        },
        verdict != PullVerdict::GoOn ==> session.next_phase(event) == PullPhase::Over,
{
}

proof fn lemma_lines_add(first: Seq<u8>, second: Seq<u8>)
    ensures
        lines_of(first + second) == lines_of(first) + lines_of(rest_of(first) + second),
        rest_of(first + second) == rest_of(rest_of(first) + second),
    decreases first.len(),
{
    let both = first + second;
    let end = newline_at(first) as int;
    lemma_newline_at(first);
    if end >= first.len() {
        assert(Seq::<Seq<u8>>::empty() + lines_of(both) =~= lines_of(both));
    } else {
        assert(both[end] == first[end]);
        assert forall|i: int| 0 <= i < end implies #[trigger] both[i] != NEWLINE by {
            assert(both[i] == first[i]);
        }
        lemma_newline_is(both, end);
        let tail = first.skip(end + 1);
        assert(both.take(end) =~= first.take(end));
        assert(both.skip(end + 1) =~= tail + second);
        lemma_lines_add(tail, second);
        let line = seq![first.take(end)];
        let later = lines_of(rest_of(tail) + second);
        assert(line + (lines_of(tail) + later) =~= (line + lines_of(tail)) + later);
    }
}

proof fn lemma_reading_adds(
    layers: Seq<LayerReport>,
    first: Seq<Option<Seq<JsonField>>>,
    second: Seq<Option<Seq<JsonField>>>,
)
    ensures
        ({
            let d = reading(layers, first);
            reading(layers, first + second) == (if d.end is Open {
                reading(d.layers, second).behind(d.progress)
            } else {
                d
            })
        }),
    decreases first.len(),
{
    let both = first + second;
    let d = reading(layers, first);
    if first.len() == 0 {
        assert(both =~= second);
        assert(reading(layers, second).behind(Seq::empty()) =~= reading(layers, second));
    } else {
        assert(both[0] == first[0]);
        assert(both.drop_first() =~= first.drop_first() + second);
        let (next, outcome) = after_line(layers, first[0]);
        lemma_reading_adds(next, first.drop_first(), second);
        if outcome is Progressed {
            let shown = seq![outcome->progress];
            let inner = reading(next, first.drop_first());
            if inner.end is Open {
                let later = reading(inner.layers, second);
                assert(later.behind(inner.progress).behind(shown) =~= later.behind(
                    shown + inner.progress,
                ));
            }
        }
    }
}

/// How the stream is cut into chunks does not matter: where a first chunk leaves
/// the stream open, the second goes on from there as if both had come at once, and
/// where it ends the stream, nothing that comes later is read.
pub proof fn law_chunk_boundaries_do_not_matter(
    layers: Seq<LayerReport>,
    first: Seq<u8>,
    second: Seq<u8>,
)
    ensures
        ({
            let d = drained(layers, first);
            drained(layers, first + second) == (if d.end is Open {
                drained(d.layers, rest_of(first) + second).behind(d.progress)
            } else {
                d
            })
        }),
        rest_of(first + second) == rest_of(rest_of(first) + second),
{
    lemma_lines_add(first, second);
    let a = lines_of(first);
    let b = lines_of(rest_of(first) + second);
    lemma_reading_adds(layers, line_documents(a), line_documents(b));
    assert(line_documents(a + b) =~= line_documents(a) + line_documents(b));
}

/// Chunks one after the other.
pub open spec fn joined_chunks(chunks: Seq<Seq<u8>>) -> Seq<u8>
    decreases chunks.len(),
{
    if chunks.len() == 0 {
        Seq::empty()
    } else {
        chunks[0] + joined_chunks(chunks.drop_first())
    }
}

/// What reading chunks one after the other leads to, until one ends the stream.
pub open spec fn read_in_turn(
    layers: Seq<LayerReport>,
    buffer: Seq<u8>,
    chunks: Seq<Seq<u8>>,
) -> Reading
    decreases chunks.len(),
{
    if chunks.len() == 0 {
        Reading { layers, progress: Seq::empty(), end: EndReport::Open }
    } else {
        let d = drained(layers, buffer + chunks[0]);
        if d.end is Open {
            read_in_turn(d.layers, rest_of(buffer + chunks[0]), chunks.drop_first()).behind(
                d.progress,
            )
        } else {
            d
        }
    }
}

proof fn lemma_no_line(bytes: Seq<u8>)
    requires
        !bytes.contains(NEWLINE),
    ensures
        lines_of(bytes) == Seq::<Seq<u8>>::empty(),
        rest_of(bytes) == bytes,
{
    lemma_newline_at(bytes);
    let found = newline_at(bytes) as int;
    if found < bytes.len() {
        assert(bytes.contains(bytes[found]));
    }
}

/// Into however many chunks the stream is cut, and wherever, what is read is what all
/// the bytes together give.
pub proof fn law_any_chunks_read_alike(
    layers: Seq<LayerReport>,
    buffer: Seq<u8>,
    chunks: Seq<Seq<u8>>,
)
    requires
        !buffer.contains(NEWLINE),
    ensures
        read_in_turn(layers, buffer, chunks) == drained(layers, buffer + joined_chunks(chunks)),
    decreases chunks.len(),
{
    let all = buffer + joined_chunks(chunks);
    if chunks.len() == 0 {
        assert(all =~= buffer);
        lemma_no_line(buffer);
        assert(line_documents(lines_of(buffer)).len() == 0);
    } else {
        let first = buffer + chunks[0];
        let later = joined_chunks(chunks.drop_first());
        assert(all =~= first + later);
        law_chunk_boundaries_do_not_matter(layers, first, later);
        law_lines_keep_every_byte(first);
        law_any_chunks_read_alike(
            drained(layers, first).layers,
            rest_of(first),
            chunks.drop_first(),
        );
    }
}

/// Whether sessions and reports are those of a pull that takes chunks one after the
/// other.
pub open spec fn pulls(
    sessions: Seq<PullSession>,
    chunks: Seq<Seq<u8>>,
    events: Seq<PullEvent>,
    reports: Seq<PullReport>,
) -> bool {
    &&& sessions.len() == chunks.len() + 1
    &&& events.len() == chunks.len()
    &&& reports.len() == chunks.len()
    &&& forall|i: int|
        0 <= i < chunks.len() ==> (#[trigger] events[i]) is Chunk && events[i]->bytes@ == chunks[i]
            && sessions[i].leads_to(events[i], sessions[i + 1], reports[i])
}

/// The progress that reports show, one after the other.
pub open spec fn shown_by(reports: Seq<PullReport>) -> Seq<ProgressReport>
    decreases reports.len(),
{
    if reports.len() == 0 {
        Seq::empty()
    } else {
        progress_of(reports[0].progress@) + shown_by(reports.drop_first())
    }
}

/// How reports end the stream: with the first verdict but that it goes on.
pub open spec fn ended_by(reports: Seq<PullReport>) -> EndReport
    decreases reports.len(),
{
    if reports.len() == 0 {
        EndReport::Open
    } else {
        match reports[0].verdict {
            PullVerdict::Failed { failure } => EndReport::Failed { error: failure.error@ },
            PullVerdict::TooLarge => EndReport::TooLarge,
            _ => ended_by(reports.drop_first()),
        }
    }
}

proof fn lemma_over(
    sessions: Seq<PullSession>,
    chunks: Seq<Seq<u8>>,
    events: Seq<PullEvent>,
    reports: Seq<PullReport>,
)
    requires
        pulls(sessions, chunks, events, reports),
        sessions[0].phase == PullPhase::Over,
    ensures
        shown_by(reports) == Seq::<ProgressReport>::empty(),
        ended_by(reports) == EndReport::Open,
        sessions.last().phase == PullPhase::Over,
    decreases chunks.len(),
{
    if chunks.len() > 0 {
        assert(events[0] is Chunk);
        lemma_pulls_on(sessions, chunks, events, reports);
        lemma_over(
            sessions.drop_first(),
            chunks.drop_first(),
            events.drop_first(),
            reports.drop_first(),
        );
        assert(progress_of(reports[0].progress@) =~= Seq::empty());
        assert(shown_by(reports) =~= Seq::empty());
    }
}

proof fn lemma_pulls_on(
    sessions: Seq<PullSession>,
    chunks: Seq<Seq<u8>>,
    events: Seq<PullEvent>,
    reports: Seq<PullReport>,
)
    requires
        pulls(sessions, chunks, events, reports),
        chunks.len() > 0,
    ensures
        pulls(
            sessions.drop_first(),
            chunks.drop_first(),
            events.drop_first(),
            reports.drop_first(),
        ),
        sessions.drop_first().last() == sessions.last(),
        sessions.drop_first()[0] == sessions[1],
{
    let rest = events.drop_first();
    assert forall|i: int| 0 <= i < chunks.len() - 1 implies (#[trigger] rest[i]) is Chunk
        && rest[i]->bytes@ == chunks.drop_first()[i] && sessions.drop_first()[i].leads_to(
        rest[i],
        sessions.drop_first()[i + 1],
        reports.drop_first()[i],
    ) by {
        assert(rest[i] == events[i + 1]);
    }
}

/// A pull shows the same progress in the same order, and ends in the same way, into
/// whatever chunks its bytes were cut: both are what all the bytes together give.
pub proof fn law_pulls_depend_on_the_bytes_alone(
    sessions: Seq<PullSession>,
    chunks: Seq<Seq<u8>>,
    events: Seq<PullEvent>,
    reports: Seq<PullReport>,
)
    requires
        pulls(sessions, chunks, events, reports),
        sessions[0].phase == PullPhase::Streaming,
        !sessions[0].stream.buffer@.contains(NEWLINE),
    ensures
        ({
            let d = drained(
                reports_of(sessions[0].stream.layers@),
                sessions[0].stream.buffer@ + joined_chunks(chunks),
            );
            &&& shown_by(reports) == d.progress
            &&& ended_by(reports) == d.end
            &&& sessions.last().phase == (if d.end is Open {
                PullPhase::Streaming
            } else {
                PullPhase::Over
            })
        }),
    decreases chunks.len(),
{
    let layers = reports_of(sessions[0].stream.layers@);
    let buffer = sessions[0].stream.buffer@;
    law_any_chunks_read_alike(layers, buffer, chunks);
    if chunks.len() > 0 {
        assert(events[0] is Chunk);
        let first = buffer + chunks[0];
        let d = drained(layers, first);
        lemma_pulls_on(sessions, chunks, events, reports);
        law_lines_keep_every_byte(first);
        if d.end is Open {
            law_pulls_depend_on_the_bytes_alone(
                sessions.drop_first(),
                chunks.drop_first(),
                events.drop_first(),
                reports.drop_first(),
            );
            law_any_chunks_read_alike(d.layers, rest_of(first), chunks.drop_first());
        } else {
            lemma_over(
                sessions.drop_first(),
                chunks.drop_first(),
                events.drop_first(),
                reports.drop_first(),
            );
            assert(shown_by(reports) =~= d.progress);
        }
    }
}

/// A line that is empty or not JSON changes nothing wherever it stands between lines:
/// neither progress, nor layers, nor the end, nor the bytes that are left.
pub proof fn law_lines_without_a_record_change_nothing(
    layers: Seq<LayerReport>,
    before: Seq<u8>,
    line: Seq<u8>,
    after: Seq<u8>,
)
    requires
        rest_of(before) == Seq::<u8>::empty(),
        !line.contains(NEWLINE),
    ensures
        line_document(line) is None ==> drained(
            layers,
            before + line.push(NEWLINE) + after,
        ) == drained(layers, before + after),
        rest_of(before + line.push(NEWLINE) + after) == rest_of(before + after),
        line_document(Seq::empty()) is None,
{
    let added = line.push(NEWLINE) + after;
    assert(before + line.push(NEWLINE) + after =~= before + added);
    lemma_lines_add(before, added);
    lemma_lines_add(before, after);
    assert(Seq::<u8>::empty() + added =~= added);
    assert(Seq::<u8>::empty() + after =~= after);
    let end = line.len() as int;
    assert forall|i: int| 0 <= i < end implies #[trigger] added[i] != NEWLINE by {
        assert(line.contains(line[i]));
    }
    lemma_newline_is(added, end);
    assert(added.take(end) =~= line);
    assert(added.skip(end + 1) =~= after);
    if line_document(line) is None {
        let head = line_documents(lines_of(before));
        let rest = line_documents(lines_of(after));
        let gap = seq![line_document(line)];
        assert(line_documents(lines_of(added)) =~= gap + rest);
        assert(line_documents(lines_of(before) + lines_of(added)) =~= head + (gap + rest));
        assert(line_documents(lines_of(before) + lines_of(after)) =~= head + rest);
        let d = reading(layers, head);
        lemma_reading_adds(layers, head, gap + rest);
        lemma_reading_adds(layers, head, rest);
        assert((gap + rest).drop_first() =~= rest);
        assert((gap + rest)[0] == line_document(line));
        assert(reading(d.layers, gap + rest) == reading(d.layers, rest));
    }
}

/// Bytes after the last newline have no effect.
pub proof fn law_unfinished_lines_are_not_read(
    layers: Seq<LayerReport>,
    bytes: Seq<u8>,
    unfinished: Seq<u8>,
)
    requires
        !unfinished.contains(NEWLINE),
    ensures
        drained(layers, bytes + unfinished) == drained(layers, bytes),
{
    lemma_lines_add(bytes, unfinished);
    law_lines_keep_every_byte(bytes);
    let tail = rest_of(bytes) + unfinished;
    assert(!tail.contains(NEWLINE)) by {
        if tail.contains(NEWLINE) {
            let i = choose|i: int| 0 <= i < tail.len() && tail[i] == NEWLINE;
            if i < rest_of(bytes).len() {
                assert(rest_of(bytes).contains(rest_of(bytes)[i]));
            } else {
                assert(unfinished.contains(unfinished[i - rest_of(bytes).len()]));
            }
        }
    }
    lemma_no_line(tail);
    assert(lines_of(bytes) + lines_of(tail) =~= lines_of(bytes));
}

/// No byte of the stream is lost: the lines, each with its newline, and the bytes
/// that are left make up what was received, and no line holds a newline.
pub proof fn law_lines_keep_every_byte(bytes: Seq<u8>)
    ensures
        rejoined(lines_of(bytes)) + rest_of(bytes) == bytes,
        forall|i: int, j: int|
            0 <= i < lines_of(bytes).len() && 0 <= j < lines_of(bytes)[i].len()
                ==> #[trigger] lines_of(bytes)[i][j] != NEWLINE,
        !rest_of(bytes).contains(NEWLINE),
    decreases bytes.len(),
{
    let end = newline_at(bytes) as int;
    lemma_newline_at(bytes);
    if end >= bytes.len() {
        assert(rejoined(lines_of(bytes)) + bytes =~= bytes);
    } else {
        let tail = bytes.skip(end + 1);
        let line = bytes.take(end);
        law_lines_keep_every_byte(tail);
        let lines = lines_of(bytes);
        assert(lines.drop_first() =~= lines_of(tail));
        assert(lines[0] == line);
        assert(line.push(NEWLINE) + tail =~= bytes);
        assert(line.push(NEWLINE) + rejoined(lines_of(tail)) + rest_of(tail) =~= line.push(NEWLINE)
            + (rejoined(lines_of(tail)) + rest_of(tail)));
        assert forall|i: int, j: int|
            0 <= i < lines.len() && 0 <= j < lines[i].len() implies #[trigger] lines[i][j]
            != NEWLINE by {
            if i > 0 {
                assert(lines[i] == lines_of(tail)[i - 1]);
            } else {
                assert(lines[0][j] == bytes[j]);
            }
        }
    }
}

/// Lines, each with its newline, one after the other.
pub open spec fn rejoined(lines: Seq<Seq<u8>>) -> Seq<u8>
    decreases lines.len(),
{
    if lines.len() == 0 {
        Seq::empty()
    } else {
        lines[0].push(NEWLINE) + rejoined(lines.drop_first())
    }
}

proof fn lemma_place_of(layers: Seq<LayerReport>, digest: Seq<char>)
    ensures
        place_of(layers, digest) <= layers.len(),
        place_of(layers, digest) < layers.len() ==> layers[place_of(layers, digest) as int].digest
            == digest,
        forall|i: int| 0 <= i < place_of(layers, digest) ==> (#[trigger] layers[i]).digest != digest,
    decreases layers.len(),
{
    if layers.len() > 0 && layers[0].digest != digest {
        let tail = layers.drop_first();
        lemma_place_of(tail, digest);
        assert forall|i: int| 0 <= i < place_of(layers, digest) implies (#[trigger] layers[i]).digest
            != digest by {
            if i > 0 {
                assert(layers[i] == tail[i - 1]);
            }
        }
    }
}

/// The report on a digest, where there is one.
pub open spec fn report_on(layers: Seq<LayerReport>, digest: Seq<char>) -> Option<LayerReport> {
    let place = place_of(layers, digest);
    if place < layers.len() {
        Some(layers[place as int])
    } else {
        None
    }
}

proof fn lemma_place_is(layers: Seq<LayerReport>, digest: Seq<char>, place: int)
    requires
        0 <= place <= layers.len(),
        place < layers.len() ==> layers[place].digest == digest,
        forall|i: int| 0 <= i < place ==> (#[trigger] layers[i]).digest != digest,
    ensures
        place_of(layers, digest) == place,
{
    lemma_place_of(layers, digest);
    let found = place_of(layers, digest) as int;
    if found < place {
        assert(layers[found].digest != digest);
    } else if place < found {
        assert(layers[place].digest != digest);
    }
}

/// Of each layer the last report stands, and a report on one layer changes no
/// other; each digest stands at most once.
pub proof fn law_the_last_report_on_a_layer_stands(
    layers: Seq<LayerReport>,
    report: LayerReport,
    digest: Seq<char>,
)
    requires
        distinct_digests(layers),
    ensures
        distinct_digests(with_report(layers, report)),
        report_on(with_report(layers, report), digest) == (if digest == report.digest {
            Some(report)
        } else {
            report_on(layers, digest)
        }),
{
    let next = with_report(layers, report);
    let at = place_of(layers, report.digest) as int;
    lemma_place_of(layers, report.digest);
    assert forall|i: int, j: int| 0 <= i < j < next.len() implies (#[trigger] next[i]).digest != (
    #[trigger] next[j]).digest by {
        if i < layers.len() {
            assert(next[i].digest == layers[i].digest);
        }
        if j < layers.len() {
            assert(next[j].digest == layers[j].digest);
        }
    }
    lemma_place_of(layers, digest);
    let place = place_of(layers, digest) as int;
    if digest == report.digest {
        assert forall|i: int| 0 <= i < place implies (#[trigger] next[i]).digest != digest by {
            assert(next[i] == layers[i]);
        }
        lemma_place_is(next, digest, place);
    } else {
        let expected = if place < layers.len() {
            place
        } else {
            next.len() as int
        };
        assert forall|i: int| 0 <= i < expected implies (#[trigger] next[i]).digest != digest by {
            if i < layers.len() {
                assert(next[i].digest == layers[i].digest);
                assert(layers[i].digest != digest);
            }
        }
        lemma_place_is(next, digest, expected);
    }
}

proof fn lemma_sums_update(layers: Seq<LayerReport>, at: int, report: LayerReport)
    requires
        0 <= at < layers.len(),
    ensures
        completed_sum(layers.update(at, report)) == completed_sum(layers) - layers[at].completed
            + report.completed,
        total_sum(layers.update(at, report)) == total_sum(layers) - layers[at].total
            + report.total,
    decreases layers.len(),
{
    let next = layers.update(at, report);
    if at == layers.len() - 1 {
        assert(next.drop_last() =~= layers.drop_last());
    } else {
        assert(next.drop_last() =~= layers.drop_last().update(at, report));
        lemma_sums_update(layers.drop_last(), at, report);
    }
}

/// A report changes the sums by what it says of its layer beyond the report that
/// it replaces.
pub proof fn law_sums_follow_the_reports(layers: Seq<LayerReport>, report: LayerReport)
    ensures
        ({
            let next = with_report(layers, report);
            match report_on(layers, report.digest) {
                Some(before) => {
                    &&& completed_sum(next) == completed_sum(layers) - before.completed
                        + report.completed
                    &&& total_sum(next) == total_sum(layers) - before.total + report.total
                },
                None => {
                    &&& completed_sum(next) == completed_sum(layers) + report.completed
                    &&& total_sum(next) == total_sum(layers) + report.total
                },
            }
        }),
{
    let at = place_of(layers, report.digest) as int;
    if at < layers.len() {
        lemma_sums_update(layers, at, report);
    } else {
        assert(layers.push(report).drop_last() =~= layers);
    }
}

/// Whatever records are read, no two layers share a digest.
pub proof fn law_layers_stay_distinct(
    layers: Seq<LayerReport>,
    documents: Seq<Option<Seq<JsonField>>>,
)
    requires
        distinct_digests(layers),
    ensures
        distinct_digests(reading(layers, documents).layers),
    decreases documents.len(),
{
    if documents.len() > 0 {
        let (next, outcome) = after_line(layers, documents[0]);
        assert(distinct_digests(next)) by {
            if documents[0] is Some {
                let fields = documents[0]->0;
                let digest = json::text_at(fields, "digest"@);
                let total = json::number_at(fields, "total"@);
                if digest is Some && total is Some {
                    let completed = match json::number_at(fields, "completed"@) {
                        Some(n) => n,
                        None => 0,
                    };
                    law_the_last_report_on_a_layer_stands(
                        layers,
                        LayerReport { digest: digest->0, completed, total: total->0 },
                        Seq::empty(),
                    );
                }
            }
        }
        law_layers_stay_distinct(next, documents.drop_first());
    }
}

/// A record that is no error and has a digest and a total leaves the report on that digest
/// with exactly the count of received bytes that it gives, or zero where it gives none,
/// and exactly that total; the reports on all other digests stay.
pub proof fn law_records_are_taken_as_they_come(
    layers: Seq<LayerReport>,
    fields: Seq<JsonField>,
    other: Seq<char>,
)
    requires
        distinct_digests(layers),
        json::text_at(fields, "error"@) is None,
        json::text_at(fields, "digest"@) is Some,
        json::number_at(fields, "total"@) is Some,
    ensures
        ({
            let digest = json::text_at(fields, "digest"@)->0;
            let next = after_line(layers, Some(fields)).0;
            &&& next.contains(
                LayerReport {
                    digest,
                    completed: match json::number_at(fields, "completed"@) {
                        Some(n) => n,
                        None => 0,
                    },
                    total: json::number_at(fields, "total"@)->0,
                },
            )
            &&& report_on(next, digest) is Some
            &&& report_on(next, digest)->0.total == json::number_at(fields, "total"@)->0
            &&& json::number_at(fields, "completed"@) matches Some(n) ==> report_on(
                next,
                digest,
            )->0.completed == n
            &&& json::number_at(fields, "completed"@) is None ==> report_on(
                next,
                digest,
            )->0.completed == 0
            &&& other != digest ==> report_on(next, other) == report_on(layers, other)
        }),
{
    let digest = json::text_at(fields, "digest"@)->0;
    let total = json::number_at(fields, "total"@)->0;
    let completed = match json::number_at(fields, "completed"@) {
        Some(n) => n,
        None => 0,
    };
    let report = LayerReport { digest, completed, total };
    law_the_last_report_on_a_layer_stands(layers, report, digest);
    law_the_last_report_on_a_layer_stands(layers, report, other);
    let next = with_report(layers, report);
    assert(next[place_of(next, digest) as int] == report);
}

/// A record without a digest or without a total, a record that is an error, and a line
/// that is not JSON leave the layers as they are.
pub proof fn law_other_records_leave_the_layers(
    layers: Seq<LayerReport>,
    document: Option<Seq<JsonField>>,
)
    requires
        document matches Some(fields) ==> json::text_at(fields, "error"@) is Some || json::text_at(
            fields,
            "digest"@,
        ) is None || json::number_at(fields, "total"@) is None,
    ensures
        after_line(layers, document).0 == layers,
{
}

/// What a line calls for: nothing where it is not JSON; its error, word for word, where it
/// has one; else progress with its status, or an empty one, and the sums over all layers
/// after it, unless these do not fit 64 bits.
pub proof fn law_lines_call_for_what_they_hold(
    layers: Seq<LayerReport>,
    document: Option<Seq<JsonField>>,
)
    ensures
        ({
            let (next, outcome) = after_line(layers, document);
            match document {
                None => outcome == LineReport::Skipped,
                Some(fields) => match json::text_at(fields, "error"@) {
                    Some(error) => outcome == (LineReport::Failed { error }),
                    None => if completed_sum(next) <= 0xffff_ffff_ffff_ffff && total_sum(next)
                        <= 0xffff_ffff_ffff_ffff {
                        &&& outcome is Progressed
                        &&& outcome->progress.completed == completed_sum(next)
                        &&& outcome->progress.total == total_sum(next)
                        &&& json::text_at(fields, "status"@) matches Some(status)
                            ==> outcome->progress.status == status
                        &&& json::text_at(fields, "status"@) is None
                            ==> outcome->progress.status.len() == 0
                    } else {
                        outcome == LineReport::TooLarge
                    },
                },
            }
        }),
{
}

/// The sums over no layers are zero, and each layer adds what it has received and what it
/// holds.
pub proof fn law_sums_add_up_the_layers(layers: Seq<LayerReport>, layer: LayerReport)
    ensures
        completed_sum(Seq::empty()) == 0 && total_sum(Seq::empty()) == 0,
        completed_sum(layers.push(layer)) == completed_sum(layers) + layer.completed,
        total_sum(layers.push(layer)) == total_sum(layers) + layer.total,
{
    assert(layers.push(layer).drop_last() =~= layers);
}

/// Records are read one after the other: those that are progress are all shown, in order,
/// up to the first that ends the stream.
pub proof fn law_records_are_read_in_order(
    layers: Seq<LayerReport>,
    first: Option<Seq<JsonField>>,
    rest: Seq<Option<Seq<JsonField>>>,
)
    ensures
        ({
            let (next, outcome) = after_line(layers, first);
            let all = reading(layers, seq![first] + rest);
            let later = reading(next, rest);
            &&& outcome is Skipped ==> all == later
            &&& outcome is Progressed ==> all.progress == seq![outcome->progress]
                + later.progress && all.layers == later.layers && all.end == later.end
            &&& outcome is Failed ==> all.progress.len() == 0 && all.end == (EndReport::Failed {
                error: outcome->error,
            })
            &&& outcome is TooLarge ==> all.progress.len() == 0 && all.end == EndReport::TooLarge
        }),
        reading(layers, Seq::empty()) == (Reading {
            layers,
            progress: Seq::empty(),
            end: EndReport::Open,
        }),
{
    assert((seq![first] + rest).drop_first() =~= rest);
}

/// A pull goes from the request over the stream to its end: a server that accepts starts
/// the stream, the end of the stream completes the pull, and an unreachable or unwilling
/// server, a stream that breaks, an error in it, and sums that do not fit end it without
/// completing it.
pub proof fn law_pulls_take_their_course(
    session: PullSession,
    event: PullEvent,
    next: PullSession,
    report: PullReport,
)
    requires
        session.leads_to(event, next, report),
    ensures
        session.phase == PullPhase::Requested && event is Accepted ==> next.phase
            == PullPhase::Streaming && report.verdict == PullVerdict::GoOn,
        report.verdict == PullVerdict::Complete <==> session.phase == PullPhase::Streaming
            && event is Ended,
        session.phase == PullPhase::Requested ==> (event matches PullEvent::Unreachable { detail }
            ==> next.phase == PullPhase::Over && report.verdict is Failed
            && report.verdict->failure.error@ == "Failed to reach Ollama at "@ + session.base@
            + ": "@ + detail@ && !report.verdict->failure.announced),
        session.phase == PullPhase::Requested ==> (event matches PullEvent::Refused { status, body }
            ==> next.phase == PullPhase::Over && report.verdict is Failed
            && report.verdict->failure.error@ == "Ollama returned "@ + status@ + ": "@ + body@
            && report.verdict->failure.announced),
        session.phase == PullPhase::Streaming ==> (event matches PullEvent::Broken { detail }
            ==> next.phase == PullPhase::Over && report.verdict is Failed
            && report.verdict->failure.error@ == "Download stream error: "@ + detail@
            && report.verdict->failure.announced),
        session.phase == PullPhase::Streaming ==> (event matches PullEvent::Chunk { bytes } ==> {
            let d = drained(
                reports_of(session.stream.layers@),
                session.stream.buffer@ + bytes@,
            );
            &&& progress_of(report.progress@) == d.progress
            &&& reports_of(next.stream.layers@) == d.layers
            &&& next.stream.buffer@ == rest_of(session.stream.buffer@ + bytes@)
            &&& d.end is Open ==> next.phase == PullPhase::Streaming && report.verdict
                == PullVerdict::GoOn
            &&& d.end is TooLarge ==> next.phase == PullPhase::Over && report.verdict
                == PullVerdict::TooLarge
            &&& d.end is Failed ==> next.phase == PullPhase::Over && report.verdict is Failed
                && report.verdict->failure.error@ == d.end->error
                && report.verdict->failure.announced
        }),
        !(event is Chunk && session.phase == PullPhase::Streaming) ==> report.progress@.len() == 0,
        next.base == session.base,
{
}

/// What is read in a line is what its JSON holds; an empty line holds nothing.
pub proof fn law_each_line_is_read_as_json(lines: Seq<Seq<u8>>, i: int)
    requires
        0 <= i < lines.len(),
    ensures
        line_documents(lines).len() == lines.len(),
        lines[i].len() == 0 ==> line_documents(lines)[i] is None,
        lines[i].len() > 0 ==> line_documents(lines)[i] == json::json_of_bytes(lines[i]),
{
}

/// What bytes lead to is what the JSON of their complete lines leads to.
pub proof fn law_bytes_are_read_line_by_line(layers: Seq<LayerReport>, bytes: Seq<u8>)
    ensures
        drained(layers, bytes) == reading(layers, line_documents(lines_of(bytes))),
{
}

/// A record that reports on a layer changes no report on another digest, nor where it
/// stands; it adds a report exactly where there was none on its digest.
pub proof fn law_reports_change_only_their_own_layer(
    layers: Seq<LayerReport>,
    fields: Seq<JsonField>,
    i: int,
)
    requires
        json::text_at(fields, "error"@) is None,
        json::text_at(fields, "digest"@) is Some,
        json::number_at(fields, "total"@) is Some,
        0 <= i < layers.len(),
    ensures
        ({
            let digest = json::text_at(fields, "digest"@)->0;
            let next = after_line(layers, Some(fields)).0;
            let known = exists|j: int|
                0 <= j < layers.len() && (#[trigger] layers[j]).digest == digest;
            &&& layers[i].digest != digest ==> next[i] == layers[i]
            &&& known ==> next.len() == layers.len()
            &&& !known ==> next.len() == layers.len() + 1
        }),
{
    let digest = json::text_at(fields, "digest"@)->0;
    lemma_place_of(layers, digest);
    let place = place_of(layers, digest) as int;
    if place < layers.len() {
        assert(layers[place].digest == digest);
    }
}

/// Lines end with the byte 10, and with no other.
pub proof fn law_lines_end_with_line_feeds(line: Seq<u8>, rest: Seq<u8>)
    requires
        !line.contains(10),
    ensures
        lines_of(line.push(10) + rest) == seq![line] + lines_of(rest),
        rest_of(line.push(10) + rest) == rest_of(rest),
        lines_of(line) == Seq::<Seq<u8>>::empty(),
        rest_of(line) == line,
{
    let s = line.push(10) + rest;
    let end = line.len() as int;
    assert forall|i: int| 0 <= i < end implies #[trigger] s[i] != NEWLINE by {
        assert(line.contains(line[i]));
    }
    lemma_newline_is(s, end);
    assert(s.take(end) =~= line);
    assert(s.skip(end + 1) =~= rest);
    lemma_no_line(line);
}

} // verus!
