//! New Relic log sink.
//!
//! Turns events into the request that carries them to the log API of New
//! Relic. The request is sent by the owner of the sink.

use crate::errors::error_views;
use crate::errors::ErrorKind;
use crate::errors::ErrorView;
use crate::event::event_views;
use crate::event::lemma_value_view;
use crate::event::Event;
use crate::event::EventValue;
use crate::event::EventValueView;
use crate::event::EventView;
use crate::system::no_pipelines;
use crate::system::PipelineAddr;
use crate::system::PipelineTable;
use crate::text::i64_field;
use crate::text::json_i64_field;
use crate::text::json_string;
use crate::text::json_string_text;
use crate::text::signed_decimal;
use crate::text::signed_decimal_text;
use vstd::prelude::*;
use vstd::utf8::encode_utf8;

verus! {

/// Settings of the sink.
#[derive(Debug)]
pub struct Config {
    /// License key or insert key of the account.
    pub key: Key,
    /// Whether the logs are compressed before they are sent. This saves
    /// traffic and costs processor time.
    pub compress_logs: bool,
    /// Region that the logs are sent to.
    pub region: Region,
}

/// Key that gives the right to send logs.
#[derive(Debug)]
pub enum Key {
    /// License key of the account.
    LicenseKey(String),
    /// Key that can insert and nothing else.
    InsertKey(String),
}

/// Data centre that receives the logs.
#[derive(Debug, Clone, Copy, PartialEq, Eq, Structural)]
pub enum Region {
    Usa,
    Europe,
}

impl Default for Region {
    fn default() -> (region: Self)
        ensures
            region == Region::Usa,
    {
        Region::Usa
    }
}

impl Region {
    /// Address of the log API in this region.
    pub open spec fn spec_logs_url(self) -> Seq<char> {
        match self {
            Region::Usa => "https://log-api.newrelic.com/log/v1"@,
            Region::Europe => "https://log-api.eu.newrelic.com/log/v1"@,
        }
    }

    /// Address of the log API in this region.
    pub fn logs_url(&self) -> (url: &'static str)
        ensures
            url@ == self.spec_logs_url(),
    {
        match self {
            Region::Usa => "https://log-api.newrelic.com/log/v1",
            Region::Europe => "https://log-api.eu.newrelic.com/log/v1",
        }
    }
}

impl Region {
    /// Name of the region in a written configuration.
    pub open spec fn spec_name(self) -> Seq<char> {
        match self {
            Region::Usa => "usa"@,
            Region::Europe => "europe"@,
        }
    }

    /// Name of the region in a written configuration.
    pub fn name(&self) -> (name: &'static str)
        ensures
            name@ == self.spec_name(),
    {
        match self {
            Region::Usa => "usa",
            Region::Europe => "europe",
        }
    }
}

/// The settings as a JSON object: the key under `license_key` or
/// `insert_key`, then `compress_logs` and `region`; `None` where the key
/// cannot be written.
pub open spec fn spec_config_json(config: Config) -> Option<Seq<char>> {
    let (name, key) = match config.key {
        Key::LicenseKey(key) => ("{\"license_key\":"@, key@),
        Key::InsertKey(key) => ("{\"insert_key\":"@, key@),
    };
    match json_string_text(key) {
        Some(literal) => Some(
            name + literal + ",\"compress_logs\":"@ + if config.compress_logs {
                "true"@
            } else {
                "false"@
            } + ",\"region\":\""@ + config.region.spec_name() + "\"}"@,
        ),
        None => None,
    }
}

impl Config {
    /// Writes the settings as a JSON object. See [`spec_config_json`].
    pub fn to_json(&self) -> (r: Option<String>)
        ensures
            crate::text::text_of(r) == spec_config_json(*self),
    {
        let (name, key) = match &self.key {
            Key::LicenseKey(key) => ("{\"license_key\":", key),
            Key::InsertKey(key) => ("{\"insert_key\":", key),
        };
        let literal = match json_string(key.as_str()) {
            Some(literal) => literal,
            None => {
                return None;
            },
        };
        let mut text = String::from_str(name);
        text.append(literal.as_str());
        text.append(",\"compress_logs\":");
        text.append(if self.compress_logs {
            "true"
        } else {
            "false"
        });
        text.append(",\"region\":\"");
        text.append(self.region.name());
        text.append("\"}");
        Some(text)
    }
}

/// One log entry as New Relic takes it.
#[derive(Debug)]
pub struct NewRelicLog {
    /// Time of the entry in milliseconds since the epoch.
    pub timestamp: i64,
    pub message: String,
}

/// Mathematical value of a [`NewRelicLog`].
pub ghost struct LogView {
    pub timestamp: i64,
    pub message: Seq<char>,
}

impl View for NewRelicLog {
    type V = LogView;

    open spec fn view(&self) -> LogView {
        LogView { timestamp: self.timestamp, message: self.message@ }
    }
}

/// The log entries of one request.
#[derive(Debug)]
pub struct NewRelicPayload {
    pub logs: Vec<NewRelicLog>,
}

/// The mathematical values of a list of log entries.
pub open spec fn log_views(logs: Seq<NewRelicLog>) -> Seq<LogView> {
    Seq::new(logs.len(), |i: int| logs[i]@)
}

/// The log entry for a value at the time `now`: the message is the JSON text
/// of the value, the time is what the value holds under `timestamp`, or `now`
/// where it holds no whole number there. A value that is no structured data
/// has no log entry.
pub open spec fn spec_log(value: EventValueView, now: i64) -> Result<LogView, ErrorView> {
    match value {
        EventValueView::Json(text) => Ok(
            LogView {
                timestamp: match json_i64_field(text, "timestamp"@) {
                    Some(timestamp) => timestamp,
                    None => now,
                },
                message: text,
            },
        ),
        _ => Err(ErrorView::Msg("Event data needs to be json"@)),
    }
}

/// The log entries for the given events at the time `now`: one for every
/// event that has one, in the order of the events.
pub open spec fn spec_logs(events: Seq<EventView>, now: i64) -> Seq<LogView>
    decreases events.len(),
{
    if events.len() == 0 {
        Seq::empty()
    } else {
        match spec_log(events.last().value, now) {
            Ok(log) => spec_logs(events.drop_last(), now).push(log),
            Err(_) => spec_logs(events.drop_last(), now),
        }
    }
}

/// The errors of the events that have no log entry, in the order of the
/// events.
pub open spec fn spec_skipped(events: Seq<EventView>, now: i64) -> Seq<ErrorView>
    decreases events.len(),
{
    if events.len() == 0 {
        Seq::empty()
    } else {
        match spec_log(events.last().value, now) {
            Ok(_) => spec_skipped(events.drop_last(), now),
            Err(e) => spec_skipped(events.drop_last(), now).push(e),
        }
    }
}

/// One log entry as JSON; `None` where the message cannot be written.
pub open spec fn spec_log_json(log: LogView) -> Option<Seq<char>> {
    match json_string_text(log.message) {
        Some(message) => Some(
            "{\"timestamp\":"@ + signed_decimal_text(log.timestamp as int) + ",\"message\":"@
                + message + "}"@,
        ),
        None => None,
    }
}

/// The log entries as JSON, with a comma between one and the next; `None`
/// where one of them cannot be written.
pub open spec fn spec_logs_json(logs: Seq<LogView>) -> Option<Seq<char>>
    decreases logs.len(),
{
    if logs.len() == 0 {
        Some(Seq::empty())
    } else {
        match (spec_logs_json(logs.drop_last()), spec_log_json(logs.last())) {
            (Some(before), Some(entry)) => Some(
                if logs.len() == 1 {
                    entry
                } else {
                    before + ","@ + entry
                },
            ),
            _ => None,
        }
    }
}

/// The body of a request as JSON: an object that holds the log entries
/// under `logs`.
pub open spec fn spec_payload_json(logs: Seq<LogView>) -> Option<Seq<char>> {
    match spec_logs_json(logs) {
        Some(entries) => Some("{\"logs\":["@ + entries + "]}"@),
        None => None,
    }
}

/// Writes one log entry as JSON. See [`spec_log_json`].
fn log_json(log: &NewRelicLog) -> (r: Option<String>)
    ensures
        crate::text::text_of(r) == spec_log_json(log@),
{
    let message = match json_string(log.message.as_str()) {
        Some(text) => text,
        None => {
            return None;
        },
    };
    let mut text = String::from_str("{\"timestamp\":");
    let timestamp = signed_decimal(log.timestamp);
    text.append(timestamp.as_str());
    text.append(",\"message\":");
    text.append(message.as_str());
    text.append("}");
    Some(text)
}

impl NewRelicPayload {
    /// Writes the payload as JSON; `None` where a message cannot be written.
    /// See [`spec_payload_json`].
    pub fn to_json(&self) -> (r: Option<String>)
        ensures
            crate::text::text_of(r) == spec_payload_json(log_views(self.logs@)),
    {
        let ghost views = log_views(self.logs@);
        let mut entries = String::new();
        let mut i: usize = 0;
        assert(views.take(0) =~= Seq::<LogView>::empty());
        while i < self.logs.len()
            invariant
                i <= self.logs@.len(),
                views == log_views(self.logs@),
                spec_logs_json(views.take(i as int)) == Some(entries@),
            decreases self.logs@.len() - i,
        {
            assert(views.take(i + 1).drop_last() =~= views.take(i as int));
            assert(views.take(i + 1).last() == self.logs@[i as int]@);
            match log_json(&self.logs[i]) {
                Some(entry) => {
                    if i > 0 {
                        entries.append(",");
                    }
                    entries.append(entry.as_str());
                },
                None => {
                    proof {
                        lemma_unwritten_prefix(views, i + 1);
                    }
                    return None;
                },
            }
            i = i + 1;
        }
        assert(views.take(i as int) =~= views);
        let mut text = String::from_str("{\"logs\":[");
        text.append(entries.as_str());
        text.append("]}");
        Some(text)
    }
}

/// Entries cannot be written as soon as a leading part of them cannot.
proof fn lemma_unwritten_prefix(logs: Seq<LogView>, n: int)
    requires
        0 <= n <= logs.len(),
        spec_logs_json(logs.take(n)) is None,
    ensures
        spec_logs_json(logs) is None,
    decreases logs.len() - n,
{
    if n < logs.len() {
        assert(logs.take(n + 1).drop_last() =~= logs.take(n));
        lemma_unwritten_prefix(logs, n + 1);
    } else {
        assert(logs.take(n) =~= logs);
    }
}

/// The time in milliseconds since the epoch, through `chrono::Utc::now` and
/// `timestamp_millis`. It is read from the clock, so nothing is claimed of it.
#[verifier::external_body]
fn now_millis() -> (now: i64) {
    chrono::Utc::now().timestamp_millis()
}

/// Compresses bytes into the gzip format, through `libflate::gzip::Encoder`.
/// The header that the encoder writes holds the time of the call, so nothing
/// is claimed of the result; `None` where the encoder reports an error.
#[verifier::external_body]
fn gzip(data: &Vec<u8>) -> (packed: Option<Vec<u8>>) {
    let mut encoder = libflate::gzip::Encoder::new(Vec::new()).ok()?;
    std::io::Write::write_all(&mut encoder, data.as_slice()).ok()?;
    encoder.finish().into_result().ok()
}

/// A request to the log API, ready to be sent.
#[derive(Debug)]
pub struct Request {
    /// Address that the request is posted to.
    pub url: String,
    /// Name and value of the header that carries the key.
    pub auth: (String, String),
    /// Value of the `Content-Type` header.
    pub content_type: String,
    pub body: Vec<u8>,
}

/// Sink that sends events to New Relic as log entries.
pub struct NewRelic {
    config: Config,
    pipelines: PipelineTable,
    postprocessors: Vec<String>,
}

/// Mathematical value of a [`NewRelic`].
pub ghost struct NewRelicView {
    /// Whether the key is a license key, and not an insert key.
    pub license: bool,
    pub key: Seq<char>,
    pub compress_logs: bool,
    pub region: Region,
    pub pipelines: Map<Seq<char>, PipelineAddr>,
    /// Names of the postprocessors that the sink was started with.
    pub postprocessors: Seq<Seq<char>>,
}

impl View for NewRelic {
    type V = NewRelicView;

    closed spec fn view(&self) -> NewRelicView {
        NewRelicView {
            license: self.config.key is LicenseKey,
            key: match self.config.key {
                Key::LicenseKey(key) => key@,
                Key::InsertKey(key) => key@,
            },
            compress_logs: self.config.compress_logs,
            region: self.config.region,
            pipelines: self.pipelines@,
            postprocessors: Seq::new(
                self.postprocessors@.len(),
                |i: int| self.postprocessors@[i]@,
            ),
        }
    }
}

impl NewRelicView {
    /// Name of the header that carries the key.
    pub open spec fn auth_name(self) -> Seq<char> {
        if self.license {
            "X-License-Key"@
        } else {
            "X-Insert-Key"@
        }
    }

    /// Value of the `Content-Type` header.
    pub open spec fn content_type(self) -> Seq<char> {
        if self.compress_logs {
            "application/gzip"@
        } else {
            "application/json"@
        }
    }
}

/// What [`NewRelic::request`] makes of a body: the request that carries it,
/// or the error that keeps it from being sent. A body that is to be
/// compressed is replaced by what the compression made of it.
pub open spec fn framed(
    sink: NewRelicView,
    json: Option<Seq<char>>,
    packed: Option<Seq<u8>>,
    r: Result<Request, ErrorKind>,
) -> bool {
    match json {
        None => r matches Err(e) && e@ == ErrorView::InvalidJsonData(
            "a log message cannot be written as JSON"@,
        ),
        Some(text) => if sink.compress_logs && packed is None {
            r matches Err(e) && e@ == ErrorView::Msg("failed to compress the logs"@)
        } else {
            &&& r matches Ok(request)
            &&& request.url@ == sink.region.spec_logs_url()
            &&& request.auth.0@ == sink.auth_name()
            &&& request.auth.1@ == sink.key
            &&& request.content_type@ == sink.content_type()
            &&& request.body@ == if sink.compress_logs {
                packed.unwrap()
            } else {
                encode_utf8(text)
            }
        },
    }
}

/// What [`NewRelic::on_event`] makes of events, given the time `now` at which
/// it looked at the clock and what the compression made of the body.
pub open spec fn handled(
    sink: NewRelicView,
    events: Seq<EventView>,
    now: i64,
    packed: Option<Seq<u8>>,
    r: (Result<Request, ErrorKind>, Vec<ErrorKind>),
) -> bool {
    &&& error_views(r.1@) == spec_skipped(events, now)
    &&& framed(sink, spec_payload_json(spec_logs(events, now)), packed, r.0)
}

/// The error that reports a response that was no success, with the response
/// and its body in the message.
pub open spec fn spec_send_error(response: Seq<char>, body: Seq<char>) -> ErrorView {
    ErrorView::Msg(
        "error sending newrelic logs\nresponse: "@ + response + "\nreturned body: "@ + body,
    )
}

impl NewRelic {
    /// Builds the sink from its settings. Without settings there is no sink.
    pub fn from_config(config: Option<Config>) -> (r: Result<Self, ErrorKind>)
        ensures
            match r {
                Ok(sink) => {
                    &&& config matches Some(given)
                    &&& sink@.license == (given.key is LicenseKey)
                    &&& sink@.key == match given.key {
                        Key::LicenseKey(key) => key@,
                        Key::InsertKey(key) => key@,
                    }
                    &&& sink@.compress_logs == given.compress_logs
                    &&& sink@.region == given.region
                    &&& sink@.pipelines == no_pipelines()
                    &&& sink@.postprocessors.len() == 0
                },
                Err(e) => {
                    &&& config is None
                    &&& e@ == ErrorView::Msg("Missing config for newrelic offramp"@)
                },
            },
    {
        match config {
            Some(config) => Ok(
                NewRelic { config, pipelines: PipelineTable::new(), postprocessors: Vec::new() },
            ),
            None => Err(ErrorKind::Msg(String::from_str("Missing config for newrelic offramp"))),
        }
    }

    /// Starts the sink with the postprocessors of the given names.
    pub fn start(&mut self, postprocessors: Vec<String>)
        ensures
            final(self)@ == (NewRelicView {
                postprocessors: Seq::new(postprocessors@.len(), |i: int| postprocessors@[i]@),
                ..old(self)@
            }),
    {
        self.postprocessors = postprocessors;
    }

    /// Name of the codec that the sink asks for when none is configured.
    pub fn default_codec(&self) -> (name: &'static str)
        ensures
            name@ == "json"@,
    {
        "json"
    }

    /// Wires the pipeline `id` to the sink.
    pub fn add_pipeline(&mut self, id: String, addr: PipelineAddr)
        ensures
            final(self)@ == (NewRelicView {
                pipelines: old(self)@.pipelines.insert(id@, addr),
                ..old(self)@
            }),
    {
        self.pipelines.add_pipeline(id, addr);
    }

    /// Unwires the pipeline `id` and says whether the sink is left without
    /// any pipeline.
    pub fn remove_pipeline(&mut self, id: String) -> (orphaned: bool)
        ensures
            final(self)@ == (NewRelicView {
                pipelines: old(self)@.pipelines.remove(id@),
                ..old(self)@
            }),
            orphaned == (final(self)@.pipelines == no_pipelines()),
    {
        self.pipelines.remove_pipeline(id)
    }

    /// Name and value of the header that carries the key.
    pub fn auth_headers(&self) -> (header: (&str, &str))
        ensures
            header.0@ == self@.auth_name(),
            header.1@ == self@.key,
    {
        match &self.config.key {
            Key::LicenseKey(key) => ("X-License-Key", key.as_str()),
            Key::InsertKey(key) => ("X-Insert-Key", key.as_str()),
        }
    }

    /// Value of the `Content-Type` header: gzip for compressed logs, JSON for
    /// plain ones.
    pub fn content_type(&self) -> (name: &'static str)
        ensures
            name@ == self@.content_type(),
    {
        if self.config.compress_logs {
            "application/gzip"
        } else {
            "application/json"
        }
    }

    /// Makes the log entry for a value at the time `now`. See [`spec_log`].
    pub fn value_to_newrelic_log(value: &EventValue, now: i64) -> (r: Result<
        NewRelicLog,
        ErrorKind,
    >)
        ensures
            match r {
                Ok(log) => spec_log(value@, now) == Ok::<LogView, ErrorView>(log@),
                Err(e) => spec_log(value@, now) == Err::<LogView, ErrorView>(e@),
            },
    {
        match value {
            EventValue::Json(text) => {
                let timestamp = match i64_field(text.as_str(), "timestamp") {
                    Some(timestamp) => timestamp,
                    None => now,
                };
                Ok(NewRelicLog { timestamp, message: text.clone() })
            },
            _ => Err(ErrorKind::Msg(String::from_str("Event data needs to be json"))),
        }
    }

    /// Makes the log entries for the given events at the time `now`, and
    /// gives with them the errors of the events that have none. See
    /// [`spec_logs`] and [`spec_skipped`].
    pub fn payload(events: &Vec<Event>, now: i64) -> (r: (NewRelicPayload, Vec<ErrorKind>))
        ensures
            log_views(r.0.logs@) == spec_logs(event_views(events@), now),
            error_views(r.1@) == spec_skipped(event_views(events@), now),
    {
        let ghost views = event_views(events@);
        let mut logs: Vec<NewRelicLog> = Vec::new();
        let mut skipped: Vec<ErrorKind> = Vec::new();
        let mut i: usize = 0;
        assert(views.take(0) =~= Seq::<EventView>::empty());
        assert(log_views(logs@) =~= Seq::<LogView>::empty());
        assert(error_views(skipped@) =~= Seq::<ErrorView>::empty());
        while i < events.len()
            invariant
                i <= events@.len(),
                views == event_views(events@),
                log_views(logs@) == spec_logs(views.take(i as int), now),
                error_views(skipped@) == spec_skipped(views.take(i as int), now),
            decreases events@.len() - i,
        {
            assert(views.take(i + 1).drop_last() =~= views.take(i as int));
            assert(views.take(i + 1).last() == events@[i as int]@);
            proof {
                lemma_value_view(events@[i as int]);
            }
            let ghost logs_before = log_views(logs@);
            let ghost skipped_before = error_views(skipped@);
            match NewRelic::value_to_newrelic_log(&events[i].value, now) {
                Ok(log) => {
                    let ghost made = log@;
                    logs.push(log);
                    assert(log_views(logs@) =~= logs_before.push(made));
                },
                Err(e) => {
                    let ghost refusal = e@;
                    skipped.push(e);
                    assert(error_views(skipped@) =~= skipped_before.push(refusal));
                },
            }
            i = i + 1;
        }
        assert(views.take(i as int) =~= views);
        (NewRelicPayload { logs }, skipped)
    }

    /// Makes the request for a body that was written, and compressed where
    /// the sink compresses; `json` is the body as JSON, if it could be
    /// written, and `packed` what the compression made of it, if it was
    /// tried and went well. See [`framed`].
    pub fn request(&self, json: Option<String>, packed: Option<Vec<u8>>) -> (r: Result<
        Request,
        ErrorKind,
    >)
        ensures
            framed(self@, crate::text::text_of(json), crate::text::bytes_of(packed), r),
    {
        let text = match json {
            Some(text) => text,
            None => {
                return Err(
                    ErrorKind::InvalidJsonData(
                        String::from_str("a log message cannot be written as JSON"),
                    ),
                );
            },
        };
        let body = if self.config.compress_logs {
            match packed {
                Some(bytes) => bytes,
                None => {
                    return Err(ErrorKind::Msg(String::from_str("failed to compress the logs")));
                },
            }
        } else {
            text.as_str().as_bytes_vec()
        };
        let header = self.auth_headers();
        Ok(
            Request {
                url: String::from_str(self.config.region.logs_url()),
                auth: (String::from_str(header.0), String::from_str(header.1)),
                content_type: String::from_str(self.content_type()),
                body,
            },
        )
    }

    /// Takes an event, single or batch, and turns it into one request. The
    /// events that have no log entry are left out; their errors come back
    /// beside the result. Where the logs are not compressed the body is the
    /// payload as JSON; the time of an entry without one is the time of the
    /// call.
    pub fn on_event(&self, event: Event) -> (r: (Result<Request, ErrorKind>, Vec<ErrorKind>))
        ensures
            exists|now: i64, packed: Option<Seq<u8>>| #[trigger]
                handled(self@, event@.sub_events(), now, packed, r),
    {
        let ghost all = event@.sub_events();
        let events = event.into_iter();
        let now = now_millis();
        let (payload, skipped) = NewRelic::payload(&events, now);
        let json = payload.to_json();
        let packed = match &json {
            Some(text) => if self.config.compress_logs {
                gzip(&text.as_str().as_bytes_vec())
            } else {
                None
            },
            None => None,
        };
        let ghost packed_view = crate::text::bytes_of(packed);
        let r = self.request(json, packed);
        assert(handled(self@, all, now, packed_view, (r, skipped)));
        (r, skipped)
    }

    /// Judges the response to a request: a success is accepted, anything
    /// else is an error that shows the response and the body it came with.
    pub fn sent(success: bool, response: &str, body: &str) -> (r: Result<(), ErrorKind>)
        ensures
            match r {
                Ok(_) => success,
                Err(e) => !success && e@ == spec_send_error(response@, body@),
            },
    {
        if success {
            Ok(())
        } else {
            let mut message = String::from_str("error sending newrelic logs\nresponse: ");
            message.append(response);
            message.append("\nreturned body: ");
            message.append(body);
            Err(ErrorKind::Msg(message))
        }
    }
}

} // verus!
