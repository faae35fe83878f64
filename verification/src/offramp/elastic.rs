//! Elastic Search sink.
//!
//! Events are written in batches with the bulk API. Every batch becomes one
//! unit of asynchronous work; the number of units in flight is bounded, and a
//! batch that finds no room is dropped with an error instead of being queued.
//!
//! Each event names its destination in its metadata:
//!   * `index`: the index to write to (required)
//!   * `doc_type`: the document type (required)
//!   * `pipeline`: the ingest pipeline to use (optional)

use crate::async_sink::AsyncSink;
use crate::async_sink::SinkModel;
use crate::async_sink::WorkHandle;
use crate::channel;
use crate::errors::error_views;
use crate::errors::ErrorKind;
use crate::errors::ErrorView;
use crate::event::Event;
use crate::event::event_views;
use crate::event::EventValue;
use crate::event::EventValueView;
use crate::event::EventView;
use crate::event::Insight;
use crate::event::InsightView;
use crate::event::MetaValueView;
use crate::system::broadcast;
use crate::system::deliver;
use crate::system::distinct_ids;
use crate::system::has_id;
use crate::system::is_broadcast;
use crate::system::no_pipelines;
use crate::system::outcome_ids;
use crate::system::plan_ids;
use crate::system::Delivery;
use crate::system::PipelineAddr;
use crate::system::PipelineTable;
use crate::text::json_string;
use crate::text::json_string_text;
use std::sync::mpsc::Sender;
use vstd::prelude::*;

verus! {

/// Settings of the sink.
#[derive(Debug)]
pub struct Config {
    /// Urls of the endpoints; batches go to them in turn.
    pub endpoints: Vec<String>,
    /// Greatest number of batches in flight at a time.
    pub concurrency: usize,
}

/// Mathematical value of a [`Config`].
pub ghost struct ConfigView {
    pub endpoints: Seq<Seq<char>>,
    pub concurrency: usize,
}

impl View for Config {
    type V = ConfigView;

    open spec fn view(&self) -> ConfigView {
        ConfigView {
            endpoints: Seq::new(self.endpoints@.len(), |i: int| self.endpoints@[i]@),
            concurrency: self.concurrency,
        }
    }
}

/// The concurrency of a sink whose settings name none.
pub fn default_concurrency() -> (limit: usize)
    ensures
        limit == 4,
{
    4
}

impl Config {
    /// Settings with the given endpoints and the default concurrency of 4.
    pub fn new(endpoints: Vec<String>) -> (config: Self)
        ensures
            config.endpoints == endpoints,
            config.concurrency == 4,
    {
        Config { endpoints, concurrency: default_concurrency() }
    }
}

/// Address of the bulk API of an endpoint.
pub open spec fn spec_bulk_url(endpoint: Seq<char>) -> Seq<char> {
    endpoint + "/_bulk"@
}

/// Address of the bulk API of an endpoint.
pub fn bulk_url(endpoint: &str) -> (url: String)
    ensures
        url@ == spec_bulk_url(endpoint@),
{
    let mut url = String::from_str(endpoint);
    url.append("/_bulk");
    url
}

/// A duration of whole seconds and a rest of milliseconds, in milliseconds;
/// the greatest number where the true one does not fit.
pub open spec fn spec_duration_to_millis(secs: u64, subsec_millis: u32) -> u64 {
    if secs * 1000 + subsec_millis <= u64::MAX {
        (secs * 1000 + subsec_millis) as u64
    } else {
        u64::MAX
    }
}

/// Turns a duration into milliseconds. See [`spec_duration_to_millis`].
pub fn duration_to_millis(secs: u64, subsec_millis: u32) -> (millis: u64)
    ensures
        millis == spec_duration_to_millis(secs, subsec_millis),
{
    if secs > (u64::MAX - subsec_millis as u64) / 1000 {
        assert(secs * 1000 + subsec_millis > u64::MAX) by (nonlinear_arith)
            requires
                secs > (u64::MAX - subsec_millis as u64) / 1000,
        ;
        u64::MAX
    } else {
        assert(secs * 1000 + subsec_millis <= u64::MAX) by (nonlinear_arith)
            requires
                secs <= (u64::MAX - subsec_millis as u64) / 1000,
        ;
        secs * 1000 + subsec_millis as u64
    }
}

/// The string under `key` in the metadata of the event, if there is one.
pub open spec fn spec_text_meta(event: EventView, key: Seq<char>) -> Option<Seq<char>> {
    if event.meta.contains_key(key) {
        match event.meta[key] {
            MetaValueView::Text(text) => Some(text),
            _ => None,
        }
    } else {
        None
    }
}

fn text_meta<'a>(event: &'a Event, key: &str) -> (found: Option<&'a String>)
    ensures
        match found {
            Some(text) => spec_text_meta(event@, key@) == Some(text@),
            None => spec_text_meta(event@, key@) is None,
        },
{
    match event.meta.get(key) {
        Some(value) => value.as_text(),
        None => None,
    }
}

/// The action line of the bulk format for one document: a JSON object that
/// names the index, the document type and, where one is given, the pipeline.
pub open spec fn spec_bulk_header(
    index: Seq<char>,
    doc_type: Seq<char>,
    pipeline: Option<Seq<char>>,
) -> Result<Seq<char>, ErrorView> {
    match json_string_text(index) {
        None => Err(ErrorView::InvalidJsonData(index)),
        Some(index_json) => match json_string_text(doc_type) {
            None => Err(ErrorView::InvalidJsonData(doc_type)),
            Some(doc_type_json) => {
                let start = "{\"index\":{\"_index\":"@ + index_json + ",\"_type\":"@
                    + doc_type_json;
                match pipeline {
                    None => Ok(start + "}}"@),
                    Some(name) => match json_string_text(name) {
                        None => Err(ErrorView::InvalidJsonData(name)),
                        Some(name_json) => Ok(start + ",\"pipeline\":"@ + name_json + "}}"@),
                    },
                }
            },
        },
    }
}

/// Writes the action line for one document. See [`spec_bulk_header`].
pub fn bulk_header(index: &String, doc_type: &String, pipeline: Option<&String>) -> (r: Result<
    String,
    ErrorKind,
>)
    ensures
        match r {
            Ok(line) => spec_bulk_header(index@, doc_type@, crate::text::text_of_ref(pipeline))
                == Ok::<Seq<char>, ErrorView>(line@),
            Err(e) => spec_bulk_header(index@, doc_type@, crate::text::text_of_ref(pipeline))
                == Err::<Seq<char>, ErrorView>(e@),
        },
{
    let index_json = match json_string(index.as_str()) {
        Some(text) => text,
        None => {
            return Err(ErrorKind::InvalidJsonData(index.clone()));
        },
    };
    let doc_type_json = match json_string(doc_type.as_str()) {
        Some(text) => text,
        None => {
            return Err(ErrorKind::InvalidJsonData(doc_type.clone()));
        },
    };
    let mut line = String::from_str("{\"index\":{\"_index\":");
    line.append(index_json.as_str());
    line.append(",\"_type\":");
    line.append(doc_type_json.as_str());
    match pipeline {
        None => {
            line.append("}}");
        },
        Some(name) => {
            let name_json = match json_string(name.as_str()) {
                Some(text) => text,
                None => {
                    return Err(ErrorKind::InvalidJsonData(name.clone()));
                },
            };
            line.append(",\"pipeline\":");
            line.append(name_json.as_str());
            line.append("}}");
        },
    }
    Ok(line)
}

/// What one event adds to a bulk request: its action line, and after it the
/// document on a line of its own. An event without `index` or `doc_type` in
/// its metadata, or whose value is no structured data, is refused.
pub open spec fn spec_bulk_entry(event: EventView) -> Result<Seq<char>, ErrorView> {
    match spec_text_meta(event, "index"@) {
        None => Err(ErrorView::Msg("'index' not set for elastic offramp!"@)),
        Some(index) => match spec_text_meta(event, "doc_type"@) {
            None => Err(ErrorView::Msg("'doc-type' not set for elastic offramp!"@)),
            Some(doc_type) => match event.value {
                EventValueView::Json(document) => match spec_bulk_header(
                    index,
                    doc_type,
                    spec_text_meta(event, "pipeline"@),
                ) {
                    Err(e) => Err(e),
                    Ok(header) => Ok(header + "\n"@ + document + "\n"@),
                },
                _ => Err(ErrorView::Msg("Event data needs to be json"@)),
            },
        },
    }
}

/// Writes what one event adds to a bulk request. See [`spec_bulk_entry`].
pub fn bulk_entry(event: &Event) -> (r: Result<String, ErrorKind>)
    ensures
        match r {
            Ok(text) => spec_bulk_entry(event@) == Ok::<Seq<char>, ErrorView>(text@),
            Err(e) => spec_bulk_entry(event@) == Err::<Seq<char>, ErrorView>(e@),
        },
{
    let index = match text_meta(event, "index") {
        Some(text) => text,
        None => {
            return Err(ErrorKind::Msg(String::from_str("'index' not set for elastic offramp!")));
        },
    };
    let doc_type = match text_meta(event, "doc_type") {
        Some(text) => text,
        None => {
            return Err(
                ErrorKind::Msg(String::from_str("'doc-type' not set for elastic offramp!")),
            );
        },
    };
    let document = match &event.value {
        EventValue::Json(document) => document,
        _ => {
            return Err(ErrorKind::Msg(String::from_str("Event data needs to be json")));
        },
    };
    let pipeline = text_meta(event, "pipeline");
    let mut text = match bulk_header(index, doc_type, pipeline) {
        Ok(header) => header,
        Err(e) => {
            return Err(e);
        },
    };
    text.append("\n");
    text.append(document.as_str());
    text.append("\n");
    Ok(text)
}

/// The body of the bulk request for the given events: the entries of those
/// that can be written, one after the other. An event that is refused is
/// left out and does not keep the others from being written.
pub open spec fn spec_bulk_payload(events: Seq<EventView>) -> Seq<char>
    decreases events.len(),
{
    if events.len() == 0 {
        Seq::empty()
    } else {
        match spec_bulk_entry(events.last()) {
            Ok(entry) => spec_bulk_payload(events.drop_last()) + entry,
            Err(_) => spec_bulk_payload(events.drop_last()),
        }
    }
}

/// The errors of the events that are left out of the bulk request, in the
/// order of the events.
pub open spec fn spec_bulk_skipped(events: Seq<EventView>) -> Seq<ErrorView>
    decreases events.len(),
{
    if events.len() == 0 {
        Seq::empty()
    } else {
        match spec_bulk_entry(events.last()) {
            Ok(_) => spec_bulk_skipped(events.drop_last()),
            Err(e) => spec_bulk_skipped(events.drop_last()).push(e),
        }
    }
}

/// Writes the body of the bulk request, and gives with it the errors of the
/// events that were left out. See [`spec_bulk_payload`] and
/// [`spec_bulk_skipped`].
pub fn bulk_payload(events: &Vec<Event>) -> (r: (String, Vec<ErrorKind>))
    ensures
        r.0@ == spec_bulk_payload(event_views(events@)),
        error_views(r.1@) == spec_bulk_skipped(event_views(events@)),
{
    let mut payload = String::new();
    let mut skipped: Vec<ErrorKind> = Vec::new();
    let mut i: usize = 0;
    let ghost views = event_views(events@);
    assert(views.take(0) =~= Seq::<EventView>::empty());
    assert(error_views(skipped@) =~= Seq::<ErrorView>::empty());
    while i < events.len()
        invariant
            i <= events@.len(),
            views == event_views(events@),
            payload@ == spec_bulk_payload(views.take(i as int)),
            error_views(skipped@) == spec_bulk_skipped(views.take(i as int)),
        decreases events@.len() - i,
    {
        assert(views.take(i + 1).drop_last() =~= views.take(i as int));
        assert(views.take(i + 1).last() == events@[i as int]@);
        let ghost before = error_views(skipped@);
        match bulk_entry(&events[i]) {
            Ok(entry) => {
                payload.append(entry.as_str());
            },
            Err(e) => {
                let ghost refusal = e@;
                skipped.push(e);
                assert(error_views(skipped@) =~= before.push(refusal));
            },
        }
        i = i + 1;
    }
    assert(views.take(i as int) =~= views);
    (payload, skipped)
}

/// The endpoint that follows `current` when there are `count` of them: the
/// next one, and the first one after the last.
pub open spec fn next_client(current: nat, count: nat) -> nat {
    if current + 1 >= count {
        0
    } else {
        current + 1
    }
}

/// Taking the endpoints in turn visits them round-robin.
pub proof fn lemma_next_client_is_round_robin(current: nat, count: nat)
    requires
        current < count,
    ensures
        next_client(current, count) == ((current + 1) as int) % (count as int),
        next_client(current, count) < count,
{
    if current + 1 < count {
        vstd::arithmetic::div_mod::lemma_small_mod((current + 1) as nat, count);
    } else {
        vstd::arithmetic::div_mod::lemma_mod_self_0(count as int);
    }
}

/// One batch on its way to Elastic Search: where it goes, what is sent, who
/// is told of the outcome, and the channel on which the sink waits for it.
pub struct Submission {
    /// Url of the endpoint.
    pub destination: String,
    /// Body of the bulk request.
    pub payload: String,
    /// The pipelines that were wired to the sink when the batch was admitted.
    pub pipelines: Vec<(String, PipelineAddr)>,
    /// Where the worker hands in the outcome.
    pub reply: Sender<Result<u64, ErrorKind>>,
}

/// The insight that reports an outcome: the duration in milliseconds for a
/// batch that was written, the fixed reason for one that was not.
pub open spec fn spec_outcome_insight(outcome: Result<u64, ErrorKind>, now: u64) -> InsightView {
    match outcome {
        Ok(millis) => InsightView::delivered(0, millis, now),
        Err(_) => InsightView::failed(0, "Failed to send to ES"@, now),
    }
}

/// Makes the insight that reports an outcome. See [`spec_outcome_insight`].
pub fn outcome_insight(outcome: &Result<u64, ErrorKind>, now: u64) -> (insight: Insight)
    ensures
        insight@ == spec_outcome_insight(*outcome, now),
{
    match outcome {
        Ok(millis) => Insight::delivered(0, *millis, now),
        Err(_) => Insight::failed(0, "Failed to send to ES", now),
    }
}

impl Submission {
    /// Plans the report of an outcome: one insight, a copy of it for every
    /// pipeline that was wired to the sink when the batch was admitted.
    pub fn report(pipelines: Vec<(String, PipelineAddr)>, outcome: &Result<u64, ErrorKind>, now: u64) -> (plan: Vec<Delivery>)
        ensures
            is_broadcast(plan@, spec_outcome_insight(*outcome, now), pipelines@),
    {
        let insight = outcome_insight(outcome, now);
        broadcast(&insight, pipelines)
    }

    /// Finishes the unit of work once the endpoint has answered, at the time
    /// `now`: every pipeline is sent the insight, whether or not the batch
    /// was written and whatever became of the deliveries before, and the
    /// outcome is handed to the sink. The result names each pipeline, in the
    /// order in which they were noted, and says whether its channel took the
    /// insight.
    pub fn complete(self, outcome: Result<u64, ErrorKind>, now: u64) -> (outcomes: Vec<
        (String, bool),
    >)
        ensures
            outcome_ids(outcomes@) == pipeline_ids(self.pipelines@),
    {
        let ghost noted = self.pipelines@;
        let plan = Submission::report(self.pipelines, &outcome, now);
        assert(plan_ids(plan@) =~= pipeline_ids(noted));
        let outcomes = deliver(plan);
        let _ = channel::send(&self.reply, outcome);
        outcomes
    }
}

/// The ids of a list of pipelines, in its order.
pub open spec fn pipeline_ids(pipelines: Seq<(String, PipelineAddr)>) -> Seq<Seq<char>> {
    Seq::new(pipelines.len(), |i: int| pipelines[i].0@)
}

/// Sink that writes batches of events to Elastic Search.
pub struct Elastic {
    client_idx: usize,
    config: Config,
    queue: AsyncSink<u64>,
    hostname: String,
    pipelines: PipelineTable,
}

/// Mathematical value of an [`Elastic`].
pub ghost struct ElasticView {
    /// Position of the endpoint that got the last batch.
    pub client_idx: nat,
    pub endpoints: Seq<Seq<char>>,
    pub queue: SinkModel<WorkHandle<u64>>,
    pub hostname: Seq<char>,
    pub pipelines: Map<Seq<char>, PipelineAddr>,
}

impl View for Elastic {
    type V = ElasticView;

    closed spec fn view(&self) -> ElasticView {
        ElasticView {
            client_idx: self.client_idx as nat,
            endpoints: self.config@.endpoints,
            queue: self.queue@,
            hostname: self.hostname@,
            pipelines: self.pipelines@,
        }
    }
}

/// The name of this host, through `hostname::get_hostname`. It is read from
/// the system, so nothing is claimed of it.
#[verifier::external_body]
fn system_hostname() -> (name: Option<String>) {
    hostname::get_hostname()
}

/// What [`Elastic::enqueue_send_future`] does with a payload. Where the
/// queue has room and there is an endpoint, the batch goes to the endpoint
/// whose turn it is, the pipelines that are wired to the sink at this moment
/// are noted for the report, and the sink waits for the outcome. Otherwise
/// nothing changes.
pub open spec fn enqueued(
    before: ElasticView,
    after: ElasticView,
    payload: Seq<char>,
    r: Result<Submission, ErrorKind>,
) -> bool {
    if !before.queue.has_capacity() || before.endpoints.len() == 0 {
        &&& r matches Err(e)
        &&& e@ == ErrorView::Msg("Failed to enqueue send request to elastic"@)
        &&& after == before
    } else {
        &&& r matches Ok(submission)
        &&& after.endpoints == before.endpoints
        &&& after.hostname == before.hostname
        &&& after.pipelines == before.pipelines
        &&& after.client_idx == next_client(before.client_idx, before.endpoints.len())
        &&& submission.destination@ == before.endpoints[after.client_idx as int]
        &&& submission.payload@ == payload
        &&& distinct_ids(submission.pipelines@)
        &&& forall|id: Seq<char>| #[trigger]
            before.pipelines.contains_key(id) <==> has_id(submission.pipelines@, id)
        &&& after.queue.limit == before.queue.limit
        &&& after.queue.pending.len() == before.queue.pending.len() + 1
        &&& after.queue.pending.drop_last() == before.queue.pending
    }
}

/// What [`Elastic::submit`] does with a payload, given whether the oldest
/// batch in flight had finished when it was polled. A finished batch leaves
/// the queue. If the queue has no room after that, the payload is dropped
/// with the error that tells of the overload.
pub open spec fn submit_outcome(
    before: ElasticView,
    after: ElasticView,
    finished: bool,
    payload: Seq<char>,
    r: Result<Submission, ErrorKind>,
) -> bool {
    let polled = ElasticView { queue: before.queue.settle(finished), ..before };
    if !polled.queue.has_capacity() {
        &&& r matches Err(e)
        &&& e@ == ErrorView::Msg("Dropped data due to es overload"@)
        &&& after == polled
    } else {
        enqueued(polled, after, payload, r)
    }
}

impl Elastic {
    /// Builds the sink from its settings and the name of the host; a host
    /// without a name is called `tremor-host.local`.
    pub fn assemble(config: Config, hostname: Option<String>) -> (sink: Self)
        ensures
            sink@.client_idx == 0,
            sink@.endpoints == config@.endpoints,
            sink@.queue.pending.len() == 0,
            sink@.queue.limit == config.concurrency,
            sink@.pipelines == no_pipelines(),
            sink@.hostname == match hostname {
                Some(name) => name@,
                None => "tremor-host.local"@,
            },
    {
        let queue = AsyncSink::new(config.concurrency);
        let hostname = match hostname {
            Some(name) => name,
            None => String::from_str("tremor-host.local"),
        };
        Elastic { client_idx: 0, config, queue, hostname, pipelines: PipelineTable::new() }
    }

    /// Builds the sink from its settings. Without settings there is no sink.
    pub fn from_config(config: Option<Config>) -> (r: Result<Self, ErrorKind>)
        ensures
            match r {
                Ok(sink) => {
                    &&& config matches Some(given)
                    &&& sink@.client_idx == 0
                    &&& sink@.endpoints == given@.endpoints
                    &&& sink@.queue.pending.len() == 0
                    &&& sink@.queue.limit == given.concurrency
                    &&& sink@.pipelines == no_pipelines()
                },
                Err(e) => {
                    &&& config is None
                    &&& e@ == ErrorView::Msg("Elastic offramp requires a configuration."@)
                },
            },
    {
        match config {
            Some(config) => Ok(Elastic::assemble(config, system_hostname())),
            None => Err(
                ErrorKind::Msg(String::from_str("Elastic offramp requires a configuration.")),
            ),
        }
    }

    /// Name of the host that the sink runs on.
    pub fn hostname(&self) -> (name: &String)
        ensures
            name@ == self@.hostname,
    {
        &self.hostname
    }

    /// Name of the codec that the sink asks for when none is configured.
    pub fn default_codec(&self) -> (name: &'static str)
        ensures
            name@ == "pass"@,
    {
        "pass"
    }

    /// Wires the pipeline `id` to the sink.
    pub fn add_pipeline(&mut self, id: String, addr: PipelineAddr)
        ensures
            final(self)@ == (ElasticView {
                pipelines: old(self)@.pipelines.insert(id@, addr),
                ..old(self)@
            }),
    {
        self.pipelines.add_pipeline(id, addr);
    }

    /// Unwires the pipeline `id` and says whether the sink is left without
    /// any pipeline.
    pub fn remove_pipeline(&mut self, id: String) -> (orphaned: bool)
        ensures
            final(self)@ == (ElasticView {
                pipelines: old(self)@.pipelines.remove(id@),
                ..old(self)@
            }),
            orphaned == (final(self)@.pipelines == no_pipelines()),
    {
        self.pipelines.remove_pipeline(id)
    }

    /// Hands a batch to the endpoint whose turn it is and makes the sink
    /// wait for the outcome, if the queue has room. See [`enqueued`].
    pub fn enqueue_send_future(&mut self, payload: String) -> (r: Result<Submission, ErrorKind>)
        ensures
            enqueued(old(self)@, final(self)@, payload@, r),
    {
        let count = self.config.endpoints.len();
        if count == 0 || !self.queue.has_capacity() {
            return Err(
                ErrorKind::Msg(String::from_str("Failed to enqueue send request to elastic")),
            );
        }
        let next = if self.client_idx >= count - 1 {
            0
        } else {
            self.client_idx + 1
        };
        let destination = self.config.endpoints[next].clone();
        let pipelines = self.pipelines.snapshot();
        let (reply, handle) = channel::open::<Result<u64, ErrorKind>>();
        match self.queue.enqueue(handle) {
            Ok(()) => {
                self.client_idx = next;
                assert(self.queue@.pending.drop_last() =~= old(self).queue@.pending);
                Ok(Submission { destination, payload, pipelines, reply })
            },
            Err(_) => Err(
                ErrorKind::Msg(String::from_str("Failed to enqueue send request to elastic")),
            ),
        }
    }

    /// Admits a batch or refuses it, once the oldest batch in flight was
    /// polled; `polled` is its result if it had finished. See
    /// [`submit_outcome`].
    pub fn submit(&mut self, polled: Option<Result<u64, ErrorKind>>, payload: String) -> (r:
        Result<Submission, ErrorKind>)
        ensures
            submit_outcome(old(self)@, final(self)@, polled is Some, payload@, r),
    {
        let _ = self.queue.settle(polled);
        if !self.queue.has_capacity() {
            Err(ErrorKind::Msg(String::from_str("Dropped data due to es overload")))
        } else {
            self.enqueue_send_future(payload)
        }
    }

    /// Polls the oldest batch in flight and then admits or refuses the
    /// payload. See [`Elastic::submit`].
    pub fn maybe_enque(&mut self, payload: String) -> (r: Result<Submission, ErrorKind>)
        ensures
            submit_outcome(old(self)@, final(self)@, true, payload@, r) || submit_outcome(
                old(self)@,
                final(self)@,
                false,
                payload@,
                r,
            ),
    {
        let polled = self.queue.poll();
        self.submit(polled, payload)
    }

    /// Takes an event, single or batch, and turns it into one bulk request.
    /// The events that cannot be written are left out; their errors come
    /// back beside the result. A request that finds the sink at its limit is
    /// dropped: the error tells the caller of the overload.
    pub fn on_event(&mut self, event: Event) -> (r: (Result<Submission, ErrorKind>, Vec<ErrorKind>))
        ensures
            error_views(r.1@) == spec_bulk_skipped(event@.sub_events()),
            submit_outcome(
                old(self)@,
                final(self)@,
                true,
                spec_bulk_payload(event@.sub_events()),
                r.0,
            ) || submit_outcome(
                old(self)@,
                final(self)@,
                false,
                spec_bulk_payload(event@.sub_events()),
                r.0,
            ),
    {
        let events = event.into_iter();
        let (payload, skipped) = bulk_payload(&events);
        (self.maybe_enque(payload), skipped)
    }
}

/// The report of an outcome reaches every pipeline that was wired to the
/// sink when the batch was admitted, each of them once, and no one else: in
/// the plan that [`Submission::report`] makes for the pipelines that
/// [`Elastic::enqueue_send_future`] noted, one delivery goes to each
/// pipeline of the table, and each one carries the insight.
pub proof fn lemma_every_pipeline_hears_once(
    table: Map<Seq<char>, PipelineAddr>,
    pipelines: Seq<(String, PipelineAddr)>,
    plan: Seq<Delivery>,
    outcome: Result<u64, ErrorKind>,
    now: u64,
    id: Seq<char>,
)
    requires
        distinct_ids(pipelines),
        forall|id: Seq<char>| #[trigger] table.contains_key(id) <==> has_id(pipelines, id),
        is_broadcast(plan, spec_outcome_insight(outcome, now), pipelines),
    ensures
        crate::system::deliveries_to(plan, id) == if table.contains_key(id) {
            1nat
        } else {
            0nat
        },
        forall|i: int|
            0 <= i < plan.len() ==> (#[trigger] plan[i]).insight@ == spec_outcome_insight(
                outcome,
                now,
            ),
        outcome is Ok ==> spec_outcome_insight(outcome, now).meta.contains_key("time"@)
            && !spec_outcome_insight(outcome, now).meta.contains_key("error"@),
        outcome is Err ==> spec_outcome_insight(outcome, now).meta.contains_key("error"@)
            && !spec_outcome_insight(outcome, now).meta.contains_key("time"@),
{
    crate::system::lemma_broadcast_reaches_each_once(
        plan,
        spec_outcome_insight(outcome, now),
        pipelines,
        id,
    );
    assert(table.contains_key(id) <==> has_id(pipelines, id));
    reveal_strlit("time");
    reveal_strlit("error");
    assert("time"@ != "error"@) by {
        assert("time"@.len() == 4);
        assert("error"@.len() == 5);
    }
}

} // verus!
