//! File sink: writes events to a file, one event per line.
//!
//! The sink decides what is written; the file itself is opened and written
//! by its owner.

use crate::codec::accepted;
use crate::codec::Codec;
use crate::errors::ErrorKind;
use crate::errors::ErrorView;
use crate::event::event_views;
use crate::event::lemma_value_view;
use crate::event::Event;
use crate::event::EventValue;
use crate::event::EventValueView;
use crate::event::EventView;
use crate::system::no_pipelines;
use crate::system::PipelineAddr;
use crate::system::PipelineTable;
use vstd::prelude::*;

verus! {

/// Settings of the sink.
#[derive(Debug)]
pub struct Config {
    /// Name of the file to write to.
    pub file: String,
}

/// Sink that writes events to a file.
pub struct File {
    config: Config,
    pipelines: PipelineTable,
}

/// Mathematical value of a [`File`].
pub ghost struct FileView {
    /// Name of the file.
    pub file: Seq<char>,
    pub pipelines: Map<Seq<char>, PipelineAddr>,
}

impl View for File {
    type V = FileView;

    closed spec fn view(&self) -> FileView {
        FileView { file: self.config.file@, pipelines: self.pipelines@ }
    }
}

/// What an event adds to the file, given what the codec made of its value:
/// the bytes and a line feed after them. A value that the codec refused, or
/// turned into something other than bytes, adds nothing.
pub open spec fn spec_line(data: Option<EventValueView>) -> Seq<u8> {
    match data {
        Some(EventValueView::Raw(bytes)) => bytes.push(10u8),
        _ => Seq::empty(),
    }
}

/// `bytes` is what the given events may add to the file: the line of each
/// of them, in their order, for something that the codec may make of its
/// value.
pub open spec fn writes<C: Codec>(codec: C, events: Seq<EventView>, bytes: Seq<u8>) -> bool
    decreases events.len(),
{
    if events.len() == 0 {
        bytes == Seq::<u8>::empty()
    } else {
        exists|before: Seq<u8>, data: Option<EventValueView>|
            {
                &&& #[trigger] codec.encodes(events.last().value, data)
                &&& (#[trigger] before.len()) <= bytes.len()
                &&& writes(codec, events.drop_last(), before)
                &&& bytes == before + spec_line(data)
            }
    }
}

/// What the given events add to the file when the codec leaves every value
/// as it is: the bytes of each event that carries bytes, and a line feed
/// after them.
pub open spec fn spec_raw_lines(events: Seq<EventView>) -> Seq<u8>
    decreases events.len(),
{
    if events.len() == 0 {
        Seq::empty()
    } else {
        spec_raw_lines(events.drop_last()) + spec_line(Some(events.last().value))
    }
}

/// With the codec that leaves every value as it is, what is written is
/// fixed by the events.
pub proof fn lemma_pass_writes_raw_lines(events: Seq<EventView>, bytes: Seq<u8>)
    requires
        writes(crate::codec::Pass {}, events, bytes),
    ensures
        bytes == spec_raw_lines(events),
    decreases events.len(),
{
    if events.len() > 0 {
        let codec = crate::codec::Pass {};
        let (before, data) = choose|before: Seq<u8>, data: Option<EventValueView>|
            {
                &&& #[trigger] codec.encodes(events.last().value, data)
                &&& (#[trigger] before.len()) <= bytes.len()
                &&& writes(codec, events.drop_last(), before)
                &&& bytes == before + spec_line(data)
            };
        lemma_pass_writes_raw_lines(events.drop_last(), before);
    }
}

impl File {
    /// Builds the sink from its settings. Without settings there is no sink.
    pub fn from_config(config: Option<Config>) -> (r: Result<Self, ErrorKind>)
        ensures
            match r {
                Ok(sink) => {
                    &&& config matches Some(given)
                    &&& sink@.file == given.file@
                    &&& sink@.pipelines == no_pipelines()
                },
                Err(e) => {
                    &&& config is None
                    &&& e@ == ErrorView::Msg("Blackhole offramp requires a config"@)
                },
            },
    {
        match config {
            Some(config) => Ok(File { config, pipelines: PipelineTable::new() }),
            None => Err(ErrorKind::Msg(String::from_str("Blackhole offramp requires a config"))),
        }
    }

    /// Name of the file that the sink writes to.
    pub fn file(&self) -> (name: &String)
        ensures
            name@ == self@.file,
    {
        &self.config.file
    }

    /// Name of the codec that the sink asks for when none is configured.
    pub fn default_codec(&self) -> (name: &'static str)
        ensures
            name@ == "json"@,
    {
        "json"
    }

    /// Wires the pipeline `id` to the sink.
    pub fn add_pipeline(&mut self, id: String, addr: PipelineAddr)
        ensures
            final(self)@ == (FileView {
                pipelines: old(self)@.pipelines.insert(id@, addr),
                ..old(self)@
            }),
    {
        self.pipelines.add_pipeline(id, addr);
    }

    /// Unwires the pipeline `id` and says whether the sink is left without
    /// any pipeline.
    pub fn remove_pipeline(&mut self, id: String) -> (orphaned: bool)
        ensures
            final(self)@ == (FileView {
                pipelines: old(self)@.pipelines.remove(id@),
                ..old(self)@
            }),
            orphaned == (final(self)@.pipelines == no_pipelines()),
    {
        self.pipelines.remove_pipeline(id)
    }

    /// Takes an event, single or batch, and gives the bytes that are to be
    /// appended to the file: one line for every event that the codec turns
    /// into bytes.
    pub fn on_event<C: Codec>(&self, codec: &C, event: Event) -> (bytes: Vec<u8>)
        ensures
            writes(*codec, event@.sub_events(), bytes@),
    {
        let events = event.into_iter();
        let ghost views = event_views(events@);
        let mut bytes: Vec<u8> = Vec::new();
        let mut i: usize = 0;
        assert(views.take(0) =~= Seq::<EventView>::empty());
        while i < events.len()
            invariant
                i <= events@.len(),
                views == event_views(events@),
                writes(*codec, views.take(i as int), bytes@),
            decreases events@.len() - i,
        {
            assert(views.take(i + 1).drop_last() =~= views.take(i as int));
            assert(views.take(i + 1).last() == events@[i as int]@);
            let copy = events[i].clone();
            proof {
                lemma_value_view(copy);
            }
            let ghost before = bytes@;
            let made = codec.encode(copy.value);
            let ghost data = accepted(made);
            match made {
                Ok(EventValue::Raw(raw)) => {
                    let mut raw = raw;
                    let ghost line = raw@;
                    bytes.append(&mut raw);
                    bytes.push(10u8);
                    assert(bytes@ =~= before + line.push(10u8));
                },
                _ => {
                    assert(bytes@ =~= before + Seq::<u8>::empty());
                },
            }
            proof {
                assert(codec.encodes(views.take(i + 1).last().value, data));
                assert(writes(*codec, views.take(i + 1).drop_last(), before));
                assert(bytes@ == before + spec_line(data));
            }
            i = i + 1;
        }
        assert(views.take(i as int) =~= views);
        bytes
    }
}

} // verus!
