//! The envelopes that travel through a pipeline: events forward, insights
//! backward.

use vstd::prelude::*;

verus! {

/// One value of an event's metadata.
#[derive(Debug)]
pub enum MetaValue {
    /// A string, such as the name of a destination index.
    Text(String),
    /// A count or a duration.
    Number(u64),
    /// Any other structured value, as its JSON text.
    Json(String),
}

/// Mathematical value of a [`MetaValue`].
pub ghost enum MetaValueView {
    Text(Seq<char>),
    Number(u64),
    Json(Seq<char>),
}

impl View for MetaValue {
    type V = MetaValueView;

    open spec fn view(&self) -> MetaValueView {
        match self {
            MetaValue::Text(t) => MetaValueView::Text(t@),
            MetaValue::Number(n) => MetaValueView::Number(*n),
            MetaValue::Json(j) => MetaValueView::Json(j@),
        }
    }
}

impl Clone for MetaValue {
    fn clone(&self) -> (copy: Self)
        ensures
            copy@ == self@,
    {
        match self {
            MetaValue::Text(t) => MetaValue::Text(t.clone()),
            MetaValue::Number(n) => MetaValue::Number(*n),
            MetaValue::Json(j) => MetaValue::Json(j.clone()),
        }
    }
}

impl MetaValue {
    /// The string, if this value is one.
    pub fn as_text(&self) -> (text: Option<&String>)
        ensures
            match text {
                Some(t) => self@ == MetaValueView::Text(t@),
                None => !(self@ is Text),
            },
    {
        match self {
            MetaValue::Text(t) => Some(t),
            _ => None,
        }
    }
}

/// The mapping that a list of entries stands for: a later entry replaces an
/// earlier one with the same key.
pub open spec fn meta_of(entries: Seq<(String, MetaValue)>) -> Map<Seq<char>, MetaValueView>
    decreases entries.len(),
{
    if entries.len() == 0 {
        Map::empty()
    } else {
        meta_of(entries.drop_last()).insert(entries.last().0@, entries.last().1@)
    }
}

/// A key is mapped exactly when some entry carries it.
proof fn lemma_meta_keys(entries: Seq<(String, MetaValue)>, key: Seq<char>)
    ensures
        meta_of(entries).contains_key(key) <==> exists|j: int|
            0 <= j < entries.len() && (#[trigger] entries[j]).0@ == key,
    decreases entries.len(),
{
    if entries.len() > 0 {
        let init = entries.drop_last();
        lemma_meta_keys(init, key);
        if meta_of(entries).contains_key(key) {
            if entries.last().0@ == key {
                assert(entries[entries.len() - 1].0@ == key);
            } else {
                let j = choose|j: int| 0 <= j < init.len() && (#[trigger] init[j]).0@ == key;
                assert(entries[j].0@ == key);
            }
        }
        if exists|j: int| 0 <= j < entries.len() && (#[trigger] entries[j]).0@ == key {
            let j = choose|j: int| 0 <= j < entries.len() && (#[trigger] entries[j]).0@ == key;
            if j < init.len() {
                assert(init[j].0@ == key);
            }
        }
    }
}

/// The last entry with a key decides what the key is mapped to.
proof fn lemma_meta_last_wins(entries: Seq<(String, MetaValue)>, i: int)
    requires
        0 <= i < entries.len(),
        forall|j: int| i < j < entries.len() ==> (#[trigger] entries[j]).0@ != entries[i].0@,
    ensures
        meta_of(entries).contains_key(entries[i].0@),
        meta_of(entries)[entries[i].0@] == entries[i].1@,
    decreases entries.len(),
{
    if i < entries.len() - 1 {
        let init = entries.drop_last();
        assert(entries[entries.len() - 1].0@ != entries[i].0@);
        assert forall|j: int| i < j < init.len() implies (#[trigger] init[j]).0@ != init[i].0@ by {
            assert(entries[j].0@ != entries[i].0@);
        }
        lemma_meta_last_wins(init, i);
    }
}

/// Taking out an entry does not change what the other keys are mapped to.
proof fn lemma_meta_remove_entry(entries: Seq<(String, MetaValue)>, i: int)
    requires
        0 <= i < entries.len(),
    ensures
        meta_of(entries.remove(i)).remove(entries[i].0@) == meta_of(entries).remove(
            entries[i].0@,
        ),
    decreases entries.len(),
{
    let key = entries[i].0@;
    if i == entries.len() - 1 {
        assert(entries.remove(i) =~= entries.drop_last());
        assert(meta_of(entries.drop_last()).remove(key) =~= meta_of(entries).remove(key));
    } else {
        let init = entries.drop_last();
        lemma_meta_remove_entry(init, i);
        assert(entries.remove(i).drop_last() =~= init.remove(i));
        assert(entries.remove(i).last() == entries.last());
        assert(meta_of(entries.remove(i)) == meta_of(init.remove(i)).insert(
            entries.last().0@,
            entries.last().1@,
        ));
        assert(meta_of(init.remove(i)).insert(entries.last().0@, entries.last().1@).remove(key)
            =~= meta_of(init.remove(i)).remove(key).insert(
            entries.last().0@,
            entries.last().1@,
        ).remove(key));
        assert(meta_of(init).insert(entries.last().0@, entries.last().1@).remove(key)
            =~= meta_of(init).remove(key).insert(entries.last().0@, entries.last().1@).remove(
            key,
        ));
    }
}

/// Lists that agree entry by entry stand for the same mapping.
proof fn lemma_meta_same(a: Seq<(String, MetaValue)>, b: Seq<(String, MetaValue)>)
    requires
        a.len() == b.len(),
        forall|j: int|
            0 <= j < a.len() ==> (#[trigger] a[j]).0@ == b[j].0@ && a[j].1@ == b[j].1@,
    ensures
        meta_of(a) == meta_of(b),
    decreases a.len(),
{
    if a.len() > 0 {
        assert(a[a.len() - 1].0@ == b[a.len() - 1].0@);
        assert forall|j: int| 0 <= j < a.drop_last().len() implies (#[trigger] a.drop_last()[j]).0@
            == b.drop_last()[j].0@ && a.drop_last()[j].1@ == b.drop_last()[j].1@ by {
            assert(a[j].0@ == b[j].0@);
        }
        lemma_meta_same(a.drop_last(), b.drop_last());
    }
}

/// Metadata of an event: a mapping from string keys to values, in which the
/// order of the entries means nothing.
#[derive(Debug)]
pub struct MetaMap {
    entries: Vec<(String, MetaValue)>,
}

impl View for MetaMap {
    type V = Map<Seq<char>, MetaValueView>;

    closed spec fn view(&self) -> Map<Seq<char>, MetaValueView> {
        meta_of(self.entries@)
    }
}

impl MetaMap {
    /// The empty mapping.
    pub fn new() -> (meta: Self)
        ensures
            meta@ == Map::<Seq<char>, MetaValueView>::empty(),
    {
        MetaMap { entries: Vec::new() }
    }

    /// The value under `key`, if there is one.
    pub fn get(&self, key: &str) -> (found: Option<&MetaValue>)
        ensures
            match found {
                Some(value) => self@.contains_key(key@) && self@[key@] == value@,
                None => !self@.contains_key(key@),
            },
    {
        let wanted = key.to_owned();
        let mut i: usize = self.entries.len();
        while i > 0
            invariant
                wanted@ == key@,
                i <= self.entries@.len(),
                forall|j: int|
                    i <= j < self.entries@.len() ==> (#[trigger] self.entries@[j]).0@ != key@,
            decreases i,
        {
            i = i - 1;
            if self.entries[i].0 == wanted {
                proof {
                    lemma_meta_last_wins(self.entries@, i as int);
                }
                return Some(&self.entries[i].1);
            }
        }
        proof {
            lemma_meta_keys(self.entries@, key@);
        }
        None
    }

    /// Maps `key` to `value`, in place of what it was mapped to before.
    pub fn insert(&mut self, key: String, value: MetaValue)
        ensures
            final(self)@ == old(self)@.insert(key@, value@),
    {
        let mut i: usize = 0;
        while i < self.entries.len()
            invariant
                i <= self.entries@.len(),
                forall|j: int| 0 <= j < i ==> (#[trigger] self.entries@[j]).0@ != key@,
                meta_of(self.entries@).remove(key@) == meta_of(old(self).entries@).remove(key@),
            decreases self.entries@.len() - i,
        {
            if self.entries[i].0 == key {
                proof {
                    lemma_meta_remove_entry(self.entries@, i as int);
                }
                let _ = self.entries.remove(i);
            } else {
                i = i + 1;
            }
        }
        proof {
            lemma_meta_keys(self.entries@, key@);
            assert(meta_of(self.entries@).remove(key@) =~= meta_of(self.entries@));
            assert(self.entries@.push((key, value)).drop_last() =~= self.entries@);
            assert(meta_of(old(self).entries@).remove(key@).insert(key@, value@) =~= meta_of(
                old(self).entries@,
            ).insert(key@, value@));
        }
        self.entries.push((key, value));
    }
}

impl Clone for MetaMap {
    fn clone(&self) -> (copy: Self)
        ensures
            copy@ == self@,
    {
        let mut entries: Vec<(String, MetaValue)> = Vec::new();
        let mut i: usize = 0;
        while i < self.entries.len()
            invariant
                i <= self.entries@.len(),
                entries@.len() == i,
                forall|j: int|
                    0 <= j < i ==> (#[trigger] entries@[j]).0@ == self.entries@[j].0@
                        && entries@[j].1@ == self.entries@[j].1@,
            decreases self.entries@.len() - i,
        {
            let key = self.entries[i].0.clone();
            let value = self.entries[i].1.clone();
            entries.push((key, value));
            i = i + 1;
        }
        proof {
            lemma_meta_same(entries@, self.entries@);
        }
        MetaMap { entries }
    }
}

/// Marker of an event that carries no data of its own.
#[derive(Debug, Clone, Copy, PartialEq, Eq, Structural)]
pub enum SignalKind {
    /// A signal of the runtime to the operators.
    Control,
}

/// Payload of an event.
#[derive(Debug)]
pub enum EventValue {
    /// Nothing.
    Absent,
    /// Bytes that no codec has looked at.
    Raw(Vec<u8>),
    /// A structured value, as its JSON text.
    Json(String),
    /// The events that a batch was made of, in their order.
    Batch(Vec<Event>),
}

/// One unit of data on its way through a pipeline.
#[derive(Debug)]
pub struct Event {
    pub id: u64,
    pub meta: MetaMap,
    pub value: EventValue,
    /// Time of ingestion, in nanoseconds.
    pub ingest_ns: u64,
    pub kind: Option<SignalKind>,
    /// Whether `value` holds sub-events to be handled one by one.
    pub is_batch: bool,
}

/// Mathematical value of an [`EventValue`].
pub ghost enum EventValueView {
    Absent,
    Raw(Seq<u8>),
    Json(Seq<char>),
    Batch(Seq<EventView>),
}

/// Mathematical value of an [`Event`].
pub ghost struct EventView {
    pub id: u64,
    pub meta: Map<Seq<char>, MetaValueView>,
    pub value: EventValueView,
    pub ingest_ns: u64,
    pub kind: Option<SignalKind>,
    pub is_batch: bool,
}

/// The mathematical value of an event, with that of every event inside it.
pub open spec fn event_view(event: Event) -> EventView
    decreases event,
{
    EventView {
        id: event.id,
        meta: event.meta@,
        value: match event.value {
            EventValue::Absent => EventValueView::Absent,
            EventValue::Raw(bytes) => EventValueView::Raw(bytes@),
            EventValue::Json(text) => EventValueView::Json(text@),
            EventValue::Batch(events) => EventValueView::Batch(
                Seq::new(
                    events@.len(),
                    |i: int|
                        if 0 <= i < events@.len() {
                            event_view(events@[i])
                        } else {
                            arbitrary()
                        },
                ),
            ),
        },
        ingest_ns: event.ingest_ns,
        kind: event.kind,
        is_batch: event.is_batch,
    }
}

impl View for Event {
    type V = EventView;

    open spec fn view(&self) -> EventView {
        event_view(*self)
    }
}

/// The mathematical values of a list of events.
pub open spec fn event_views(events: Seq<Event>) -> Seq<EventView> {
    Seq::new(events.len(), |i: int| events[i]@)
}

impl View for EventValue {
    type V = EventValueView;

    open spec fn view(&self) -> EventValueView {
        match self {
            EventValue::Absent => EventValueView::Absent,
            EventValue::Raw(bytes) => EventValueView::Raw(bytes@),
            EventValue::Json(text) => EventValueView::Json(text@),
            EventValue::Batch(events) => EventValueView::Batch(event_views(events@)),
        }
    }
}

/// The value of an event is the value of what it carries.
pub proof fn lemma_value_view(event: Event)
    ensures
        event@.value == event.value@,
{
    if event.value is Batch {
        assert(event@.value->Batch_0 =~= event_views(event.value->Batch_0@));
    }
}

/// A copy of the event and of every event inside it.
fn copy_event(event: &Event) -> (copy: Event)
    ensures
        copy@ == event@,
    decreases event,
{
    let value = match &event.value {
        EventValue::Absent => EventValue::Absent,
        EventValue::Raw(bytes) => {
            let copy = bytes.clone();
            assert(copy@ =~= bytes@);
            EventValue::Raw(copy)
        },
        EventValue::Json(text) => EventValue::Json(text.clone()),
        EventValue::Batch(events) => {
            let mut copies: Vec<Event> = Vec::new();
            let mut i: usize = 0;
            while i < events.len()
                invariant
                    i <= events@.len(),
                    event.value == EventValue::Batch(*events),
                    copies@.len() == i,
                    forall|k: int| 0 <= k < i ==> (#[trigger] copies@[k])@ == events@[k]@,
                decreases events@.len() - i,
            {
                proof {
                    assert(decreases_to!(*event => event.value));
                    assert(event.value->Batch_0 == *events);
                    assert(decreases_to!(event.value => event.value->Batch_0));
                    assert(decreases_to!(*events => events@[i as int]));
                }
                let copy = copy_event(&events[i]);
                copies.push(copy);
                i = i + 1;
            }
            EventValue::Batch(copies)
        },
    };
    let copy = Event {
        id: event.id,
        meta: event.meta.clone(),
        value,
        ingest_ns: event.ingest_ns,
        kind: event.kind,
        is_batch: event.is_batch,
    };
    assert(event.value is Batch ==> copy@.value->Batch_0 =~= event@.value->Batch_0);
    copy
}

impl Clone for Event {
    fn clone(&self) -> (copy: Self)
        ensures
            copy@ == self@,
    {
        copy_event(self)
    }
}

impl EventView {
    /// The events that this one stands for: those of the batch, in their
    /// order, or the event itself where it is no batch. A batch whose value
    /// holds no events stands for none.
    pub open spec fn sub_events(self) -> Seq<EventView> {
        if self.is_batch {
            match self.value {
                EventValueView::Batch(events) => events,
                _ => Seq::empty(),
            }
        } else {
            seq![self]
        }
    }
}

impl Event {
    /// Unfolds the event into the events it stands for, so that single events
    /// and batches are handled alike.
    pub fn into_iter(self) -> (events: Vec<Event>)
        ensures
            event_views(events@) == self@.sub_events(),
    {
        if self.is_batch {
            proof {
                lemma_value_view(self);
            }
            match self.value {
                EventValue::Batch(events) => events,
                _ => {
                    let events: Vec<Event> = Vec::new();
                    assert(event_views(events@) =~= Seq::<EventView>::empty());
                    events
                },
            }
        } else {
            let ghost view = self@;
            let mut events: Vec<Event> = Vec::new();
            events.push(self);
            assert(event_views(events@) =~= seq![view]);
            events
        }
    }
}

/// An event that is no batch unfolds into itself and nothing else.
pub proof fn lemma_single_event_unfolds_to_itself(event: EventView)
    requires
        !event.is_batch,
    ensures
        event.sub_events().len() == 1,
        event.sub_events()[0] == event,
{
}

/// A batch unfolds into the events it wraps, as many and in the same order.
pub proof fn lemma_batch_unfolds_in_order(event: EventView, wrapped: Seq<EventView>)
    requires
        event.is_batch,
        event.value == EventValueView::Batch(wrapped),
    ensures
        event.sub_events().len() == wrapped.len(),
        forall|i: int| 0 <= i < wrapped.len() ==> event.sub_events()[i] == wrapped[i],
{
}

/// Feedback that travels from a sink back to the pipelines that feed it. It
/// carries an outcome in its metadata and no payload.
#[derive(Debug)]
pub struct Insight {
    /// Id of the event that this answers, or 0 where there is no single one.
    pub id: u64,
    pub meta: MetaMap,
    /// Time at which the outcome was known, in nanoseconds.
    pub ingest_ns: u64,
}

/// Mathematical value of an [`Insight`].
pub ghost struct InsightView {
    pub id: u64,
    pub meta: Map<Seq<char>, MetaValueView>,
    pub ingest_ns: u64,
}

impl View for Insight {
    type V = InsightView;

    open spec fn view(&self) -> InsightView {
        InsightView { id: self.id, meta: self.meta@, ingest_ns: self.ingest_ns }
    }
}

impl Clone for Insight {
    fn clone(&self) -> (copy: Self)
        ensures
            copy@ == self@,
    {
        Insight { id: self.id, meta: self.meta.clone(), ingest_ns: self.ingest_ns }
    }
}

impl InsightView {
    /// Report of a delivery that took `millis` milliseconds.
    pub open spec fn delivered(id: u64, millis: u64, now: u64) -> InsightView {
        InsightView {
            id,
            meta: Map::<Seq<char>, MetaValueView>::empty().insert(
                "time"@,
                MetaValueView::Number(millis),
            ),
            ingest_ns: now,
        }
    }

    /// Report of a delivery that failed for `reason`.
    pub open spec fn failed(id: u64, reason: Seq<char>, now: u64) -> InsightView {
        InsightView {
            id,
            meta: Map::<Seq<char>, MetaValueView>::empty().insert(
                "error"@,
                MetaValueView::Text(reason),
            ),
            ingest_ns: now,
        }
    }
}

impl Insight {
    /// Report of a delivery that took `millis` milliseconds: the metadata
    /// holds the duration under `time` and nothing else.
    pub fn delivered(id: u64, millis: u64, now: u64) -> (insight: Self)
        ensures
            insight@ == InsightView::delivered(id, millis, now),
    {
        let mut meta = MetaMap::new();
        meta.insert(String::from_str("time"), MetaValue::Number(millis));
        Insight { id, meta, ingest_ns: now }
    }

    /// Report of a delivery that failed: the metadata holds the reason under
    /// `error` and nothing else.
    pub fn failed(id: u64, reason: &str, now: u64) -> (insight: Self)
        ensures
            insight@ == InsightView::failed(id, reason@, now),
    {
        let mut meta = MetaMap::new();
        meta.insert(String::from_str("error"), MetaValue::Text(String::from_str(reason)));
        Insight { id, meta, ingest_ns: now }
    }
}

} // verus!
