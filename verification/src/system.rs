//! How a sink reaches the pipelines that feed it: their addresses, the table
//! a sink keeps of them, and the delivery of insights to all of them.

use crate::channel;
use crate::event::Event;
use crate::event::Insight;
use crate::event::InsightView;
use hashbrown::HashMap;
use std::sync::mpsc::Sender;
use vstd::prelude::*;

verus! {

/// What a pipeline is sent.
#[derive(Debug)]
pub enum PipelineMsg {
    /// An event that enters at the named input.
    Event { input: String, event: Event },
    /// Feedback of a sink.
    Insight(Insight),
    /// A signal of the runtime.
    Signal(Event),
}

/// Address of a running pipeline: the sending end of its channel.
pub struct PipelineAddr {
    addr: Sender<PipelineMsg>,
}

impl PipelineAddr {
    /// The sending end that the address holds.
    pub closed spec fn sender(self) -> Sender<PipelineMsg> {
        self.addr
    }

    /// The address of the pipeline that listens at the other end of `addr`.
    pub fn new(addr: Sender<PipelineMsg>) -> (created: Self)
        ensures
            created.sender() == addr,
    {
        PipelineAddr { addr }
    }

    /// Sends the message and says whether the pipeline's channel took it; a
    /// pipeline that is gone takes nothing.
    pub fn send(&self, msg: PipelineMsg) -> (accepted: bool) {
        channel::send(&self.addr, msg)
    }
}

impl Clone for PipelineAddr {
    fn clone(&self) -> (copy: Self) {
        PipelineAddr { addr: channel::share(&self.addr) }
    }
}

/// The pipelines that are wired to a sink, by their ids, held in a hash map
/// of `hashbrown`.
#[verifier::external_body]
pub struct PipelineTable {
    map: HashMap<String, PipelineAddr>,
}

/// The table in which nothing is registered.
pub open spec fn no_pipelines() -> Map<Seq<char>, PipelineAddr> {
    Map::empty()
}

/// What a table holds: the address registered under each id.
pub uninterp spec fn table_entries(table: PipelineTable) -> Map<Seq<char>, PipelineAddr>;

/// `HashMap::new`: a map without entries.
#[verifier::external_body]
fn table_new() -> (created: PipelineTable)
    ensures
        table_entries(created) == no_pipelines(),
{
    PipelineTable { map: HashMap::new() }
}

/// `HashMap::insert`: afterwards the key is mapped to the new value, whether
/// or not it was mapped before, and every other key is as it was.
#[verifier::external_body]
fn table_insert(table: &mut PipelineTable, id: String, addr: PipelineAddr)
    ensures
        table_entries(*final(table)) == table_entries(*old(table)).insert(id@, addr),
{
    let _ = table.map.insert(id, addr);
}

/// `HashMap::remove`: afterwards the key is not mapped, and every other key is
/// as it was.
#[verifier::external_body]
fn table_remove(table: &mut PipelineTable, id: &String)
    ensures
        table_entries(*final(table)) == table_entries(*old(table)).remove(id@),
{
    let _ = table.map.remove(id);
}

/// `HashMap::is_empty`: whether the map has no entry.
#[verifier::external_body]
fn table_is_empty(table: &PipelineTable) -> (empty: bool)
    ensures
        empty == (table_entries(*table) == no_pipelines()),
{
    table.map.is_empty()
}

/// `HashMap::iter`, collected: every entry is visited once, in an order that
/// is not fixed. So the ids that come out are those of the table, none of
/// them twice. Each address is copied with [`copy_entry`].
#[verifier::external_body]
fn table_snapshot(table: &PipelineTable) -> (entries: Vec<(String, PipelineAddr)>)
    ensures
        distinct_ids(entries@),
        forall|id: Seq<char>| #[trigger]
            table_entries(*table).contains_key(id) <==> has_id(entries@, id),
{
    table.map.iter().map(|(id, addr)| copy_entry(id, addr)).collect()
}

/// A copy of one entry of the table.
fn copy_entry(id: &String, addr: &PipelineAddr) -> (entry: (String, PipelineAddr))
    ensures
        entry.0@ == id@,
{
    (id.clone(), addr.clone())
}

/// No id occurs twice in the list.
pub open spec fn distinct_ids(entries: Seq<(String, PipelineAddr)>) -> bool {
    forall|i: int, j: int|
        0 <= i < j < entries.len() ==> (#[trigger] entries[i]).0@ != (#[trigger] entries[j]).0@
}

/// The id occurs in the list.
pub open spec fn has_id(entries: Seq<(String, PipelineAddr)>, id: Seq<char>) -> bool {
    exists|i: int| 0 <= i < entries.len() && (#[trigger] entries[i]).0@ == id
}

impl View for PipelineTable {
    type V = Map<Seq<char>, PipelineAddr>;

    open spec fn view(&self) -> Map<Seq<char>, PipelineAddr> {
        table_entries(*self)
    }
}

impl PipelineTable {
    /// A table without entries.
    pub fn new() -> (table: Self)
        ensures
            table@ == no_pipelines(),
    {
        table_new()
    }

    /// Registers the pipeline `id`; an address registered under the same id
    /// before is replaced.
    pub fn add_pipeline(&mut self, id: String, addr: PipelineAddr)
        ensures
            final(self)@ == old(self)@.insert(id@, addr),
    {
        table_insert(self, id, addr);
    }

    /// Takes the pipeline `id` out, if it is there, and says whether the table
    /// is empty afterwards: a sink without pipelines can be torn down.
    pub fn remove_pipeline(&mut self, id: String) -> (orphaned: bool)
        ensures
            final(self)@ == old(self)@.remove(id@),
            orphaned == (final(self)@ == no_pipelines()),
    {
        table_remove(self, &id);
        table_is_empty(self)
    }

    /// Whether no pipeline is registered.
    pub fn is_empty(&self) -> (empty: bool)
        ensures
            empty == (self@ == no_pipelines()),
    {
        table_is_empty(self)
    }

    /// The pipelines registered at this moment, each once, in no fixed order.
    pub fn snapshot(&self) -> (entries: Vec<(String, PipelineAddr)>)
        ensures
            distinct_ids(entries@),
            forall|id: Seq<char>| #[trigger] self@.contains_key(id) <==> has_id(entries@, id),
    {
        table_snapshot(self)
    }
}

/// Taking out the only pipeline of a table leaves the table empty.
pub proof fn lemma_remove_last_pipeline(table: Map<Seq<char>, PipelineAddr>, id: Seq<char>)
    requires
        forall|other: Seq<char>| table.contains_key(other) ==> other == id,
    ensures
        table.remove(id) == no_pipelines(),
{
    assert(table.remove(id) =~= no_pipelines());
}

/// Registering a pipeline and taking it out again leaves what was there under
/// the other ids; where there was nothing, the table is empty.
pub proof fn lemma_add_then_remove_pipeline(
    table: Map<Seq<char>, PipelineAddr>,
    id: Seq<char>,
    addr: PipelineAddr,
)
    ensures
        table.insert(id, addr).remove(id) == table.remove(id),
        (forall|other: Seq<char>| table.contains_key(other) ==> other == id) ==> table.insert(
            id,
            addr,
        ).remove(id) == no_pipelines(),
{
    assert(table.insert(id, addr).remove(id) =~= table.remove(id));
    if forall|other: Seq<char>| table.contains_key(other) ==> other == id {
        lemma_remove_last_pipeline(table, id);
    }
}

/// One insight on its way to one pipeline.
pub struct Delivery {
    /// Id of the pipeline.
    pub pipeline: String,
    pub addr: PipelineAddr,
    pub insight: Insight,
}

impl Delivery {
    /// Hands the insight to the pipeline and says whether its channel took it.
    pub fn send(self) -> (accepted: bool) {
        self.addr.send(PipelineMsg::Insight(self.insight))
    }
}

/// The plan is the broadcast of `insight` to `pipelines`: one delivery for
/// each of them, in their order, each with a copy of the insight.
pub open spec fn is_broadcast(
    plan: Seq<Delivery>,
    insight: InsightView,
    pipelines: Seq<(String, PipelineAddr)>,
) -> bool {
    &&& plan.len() == pipelines.len()
    &&& forall|i: int|
        0 <= i < plan.len() ==> {
            &&& (#[trigger] plan[i]).pipeline@ == pipelines[i].0@
            &&& plan[i].addr == pipelines[i].1
            &&& plan[i].insight@ == insight
        }
}

/// Number of deliveries of the plan that go to the pipeline `id`.
pub open spec fn deliveries_to(plan: Seq<Delivery>, id: Seq<char>) -> nat
    decreases plan.len(),
{
    if plan.len() == 0 {
        0
    } else {
        deliveries_to(plan.drop_last(), id) + if plan.last().pipeline@ == id {
            1nat
        } else {
            0nat
        }
    }
}

/// Plans the delivery of an insight to every one of the given pipelines. An
/// insight is not routed through the graph: it goes straight to each pipeline.
pub fn broadcast(insight: &Insight, pipelines: Vec<(String, PipelineAddr)>) -> (plan: Vec<
    Delivery,
>)
    ensures
        is_broadcast(plan@, insight@, pipelines@),
{
    let mut plan: Vec<Delivery> = Vec::new();
    let mut pipelines = pipelines;
    let ghost all = pipelines@;
    let mut rest: Vec<(String, PipelineAddr)> = Vec::new();
    // Reverse once, so that the entries can be moved out in their own order.
    while pipelines.len() > 0
        invariant
            rest@.len() + pipelines@.len() == all.len(),
            forall|i: int| 0 <= i < pipelines@.len() ==> pipelines@[i] == all[i],
            forall|i: int|
                0 <= i < rest@.len() ==> rest@[i] == all[all.len() - 1 - i],
        decreases pipelines@.len(),
    {
        let entry = pipelines.pop().unwrap();
        rest.push(entry);
    }
    while rest.len() > 0
        invariant
            rest@.len() + plan@.len() == all.len(),
            forall|i: int|
                0 <= i < rest@.len() ==> rest@[i] == all[all.len() - 1 - i],
            forall|i: int|
                0 <= i < plan@.len() ==> {
                    &&& (#[trigger] plan@[i]).pipeline@ == all[i].0@
                    &&& plan@[i].addr == all[i].1
                    &&& plan@[i].insight@ == insight@
                },
        decreases rest@.len(),
    {
        let entry = rest.pop().unwrap();
        plan.push(Delivery { pipeline: entry.0, addr: entry.1, insight: insight.clone() });
    }
    plan
}

/// The ids of the pipelines of a plan, in its order.
pub open spec fn plan_ids(plan: Seq<Delivery>) -> Seq<Seq<char>> {
    Seq::new(plan.len(), |i: int| plan[i].pipeline@)
}

/// The ids of a list of outcomes, in its order.
pub open spec fn outcome_ids(outcomes: Seq<(String, bool)>) -> Seq<Seq<char>> {
    Seq::new(outcomes.len(), |i: int| outcomes[i].0@)
}

/// Carries out a plan: every delivery is attempted, whatever became of the
/// ones before it. The result names each pipeline of the plan, in the order
/// of the plan, and says whether its channel took the insight.
pub fn deliver(plan: Vec<Delivery>) -> (outcomes: Vec<(String, bool)>)
    ensures
        outcome_ids(outcomes@) == plan_ids(plan@),
{
    let mut outcomes: Vec<(String, bool)> = Vec::new();
    let mut plan = plan;
    let ghost all = plan@;
    let mut rest: Vec<Delivery> = Vec::new();
    // Reverse once, so that the deliveries can be moved out in their own order.
    while plan.len() > 0
        invariant
            rest@.len() + plan@.len() == all.len(),
            forall|i: int| 0 <= i < plan@.len() ==> plan@[i] == all[i],
            forall|i: int| 0 <= i < rest@.len() ==> rest@[i] == all[all.len() - 1 - i],
        decreases plan@.len(),
    {
        let delivery = plan.pop().unwrap();
        rest.push(delivery);
    }
    while rest.len() > 0
        invariant
            rest@.len() + outcomes@.len() == all.len(),
            forall|i: int| 0 <= i < rest@.len() ==> rest@[i] == all[all.len() - 1 - i],
            forall|i: int|
                0 <= i < outcomes@.len() ==> (#[trigger] outcomes@[i]).0@ == all[i].pipeline@,
        decreases rest@.len(),
    {
        let delivery = rest.pop().unwrap();
        let id = delivery.pipeline.clone();
        let accepted = delivery.send();
        outcomes.push((id, accepted));
    }
    assert(outcome_ids(outcomes@) =~= plan_ids(all));
    outcomes
}

/// In a broadcast to pipelines with distinct ids, each of them gets the
/// insight once, and no one else gets anything.
pub proof fn lemma_broadcast_reaches_each_once(
    plan: Seq<Delivery>,
    insight: InsightView,
    pipelines: Seq<(String, PipelineAddr)>,
    id: Seq<char>,
)
    requires
        is_broadcast(plan, insight, pipelines),
        distinct_ids(pipelines),
    ensures
        deliveries_to(plan, id) == if has_id(pipelines, id) {
            1nat
        } else {
            0nat
        },
    decreases plan.len(),
{
    if plan.len() > 0 {
        let n = plan.len() - 1;
        let plan0 = plan.drop_last();
        let pipes0 = pipelines.drop_last();
        assert(is_broadcast(plan0, insight, pipes0)) by {
            assert forall|i: int| 0 <= i < plan0.len() implies {
                &&& (#[trigger] plan0[i]).pipeline@ == pipes0[i].0@
                &&& plan0[i].addr == pipes0[i].1
                &&& plan0[i].insight@ == insight
            } by {
                assert(plan[i].pipeline@ == pipelines[i].0@);
            }
        }
        assert(distinct_ids(pipes0)) by {
            assert forall|i: int, j: int| 0 <= i < j < pipes0.len() implies (#[trigger] pipes0[i]).0@
                != (#[trigger] pipes0[j]).0@ by {
                assert(pipelines[i].0@ != pipelines[j].0@);
            }
        }
        lemma_broadcast_reaches_each_once(plan0, insight, pipes0, id);
        assert(plan[n].pipeline@ == pipelines[n].0@);
        if plan.last().pipeline@ == id {
            assert(pipelines[n].0@ == id);
            assert(has_id(pipelines, id));
            if has_id(pipes0, id) {
                let i = choose|i: int| 0 <= i < pipes0.len() && (#[trigger] pipes0[i]).0@ == id;
                assert(pipelines[i].0@ != pipelines[n].0@);
            }
        } else {
            if has_id(pipelines, id) {
                let i = choose|i: int|
                    0 <= i < pipelines.len() && (#[trigger] pipelines[i]).0@ == id;
                assert(i < n);
                assert(pipes0[i].0@ == id);
            }
            if has_id(pipes0, id) {
                let i = choose|i: int| 0 <= i < pipes0.len() && (#[trigger] pipes0[i]).0@ == id;
                assert(pipelines[i].0@ == id);
            }
        }
    } else {
        assert(!has_id(pipelines, id));
    }
}

} // verus!
