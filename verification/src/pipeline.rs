//! The layer pipeline: all layers of a sector, one after the other.
//!
//! Generating a layer alternates decisions with work on files: the parent
//! cache is asked for a node's parents, labels that have left the write
//! buffer are read back, full blocks are written. The pipeline takes the
//! decisions and leaves the files to its caller. It is a state machine:
//! [`LayerPipeline::step`] takes the answer to the last action and names the
//! next one.
//!
//! Layers are taken in rising order and, within a layer, nodes in rising
//! order. A layer that is already on file is not generated again; like every
//! other layer it is loaded once it is sealed, to serve the next layer as the
//! source of expander parents.

use vstd::prelude::*;
use crate::buffer::{copy_label, Location, NodesFile};
use crate::error::Error;
use crate::label::{
    base_label, create_label, create_label_exp, exp_label, prefetch, read_node,
};

verus! {

/// The checkpoint record of one layer: where its labels are kept and whether
/// they are complete.
pub struct LayerState {
    /// The directory of the layer's file.
    pub path: String,
    /// The identifier of the layer's file within that directory.
    pub id: String,
    /// Whether the file holds the whole layer.
    pub generated: bool,
}

/// Whether a layer that is found on disk counts as generated: its record
/// was read back and says so, and its file holds one label per node.
pub open spec fn counts_as_generated(
    recorded: Option<bool>,
    file_len: Option<u64>,
    node_count: usize,
) -> bool {
    recorded == Some(true) && match file_len {
        Some(len) => len == 32 * node_count,
        None => false,
    }
}

/// Decides whether a layer that is found on disk counts as generated.
///
/// `recorded` is the flag of the layer's record, if there is a record;
/// `file_len` is the length of the layer's file in bytes, if there is a file.
pub fn is_generated(recorded: Option<bool>, file_len: Option<u64>, node_count: usize) -> (generated:
    bool)
    ensures
        generated == counts_as_generated(recorded, file_len, node_count),
{
    match (recorded, file_len) {
        (Some(true), Some(len)) => len as u128 == node_count as u128 * 32,
        _ => false,
    }
}

/// What the pipeline is waiting for.
#[derive(Clone, Copy, Debug, PartialEq, Eq, Structural)]
pub enum Phase {
    /// Nothing has been asked for yet.
    Idle,
    /// A sealed layer is being loaded.
    Loading,
    /// The parent cache is being reset and a fresh file opened for a layer.
    Opening,
    /// The parents of the current node are being looked up.
    Parents,
    /// The label of a parent is being read back from the layer's file.
    Fetching,
    /// A full block is being written to the layer's file.
    Writing,
    /// The rest of a layer is being written and the layer marked complete.
    Sealing,
    /// All layers are sealed.
    Done,
}

/// The answer to an action.
pub enum Event {
    /// Nothing has happened yet: asks for the first action.
    Start,
    /// The bytes of the layer that was to be loaded.
    LayerLoaded(Vec<u8>),
    /// The parent cache is reset and the layer's file is open and empty.
    LayerOpened,
    /// The parents of the node that was asked about.
    Parents(Vec<u32>),
    /// The 32 bytes that stand in the layer's file at the offset asked for.
    Label([u8; 32]),
    /// The block has been written to the end of the layer's file.
    Written,
    /// The last block has been written and the layer is marked complete.
    Sealed,
}

/// What the caller is to do next.
pub enum Action {
    /// Read the whole file of a sealed layer; answer with `LayerLoaded`.
    LoadLayer { layer: usize },
    /// Reset the parent cache and open an empty file for the layer; answer
    /// with `LayerOpened`.
    OpenLayer { layer: usize },
    /// Ask the parent cache for the parents of a node; answer with `Parents`.
    ReadParents { node: u32 },
    /// Read 32 bytes at an offset of the current layer's file; answer with
    /// `Label`.
    ReadLabel { offset: u64 },
    /// Write a block to the end of the current layer's file; answer with
    /// `Written`.
    Write { block: Vec<u8> },
    /// Write the last block of the layer, which may be empty, and mark the
    /// layer complete; answer with `Sealed`.
    Seal { layer: usize, block: Vec<u8> },
    /// Nothing is left to do.
    Done,
}

/// The number of parents that the parent cache lists for a node of a layer.
pub open spec fn degree(layer: nat) -> nat {
    if layer == 1 {
        6
    } else {
        14
    }
}

/// The first of the six base parents, from `from` on, whose label has left
/// the write buffer of `store`; six if there is none.
pub open spec fn pending(store: NodesFile, parents: Seq<u32>, from: int) -> int
    decreases 6 - from,
{
    if from >= 6 {
        6
    } else if 32 * parents[from] < store.written_offset() {
        from
    } else {
        pending(store, parents, from + 1)
    }
}

/// The labels in `store` of the base parents from `from` up to `to`.
pub open spec fn base_labels(store: NodesFile, parents: Seq<u32>, from: int, to: int) -> Seq<
    Seq<u8>,
> {
    Seq::new((to - from) as nat, |j: int| store@[parents[from + j] as int])
}

/// The labels in the previous layer of the eight expander parents.
pub open spec fn expander_labels(previous: Seq<u8>, parents: Seq<u32>) -> Seq<Seq<u8>> {
    Seq::new(
        8,
        |j: int| previous.subrange(32 * parents[6 + j], 32 * parents[6 + j] + 32),
    )
}

/// The label of `node` in `layer`, given the labels of its parents: the first
/// layer reads only itself, every other layer the previous one too.
pub open spec fn label_of(replica_id: Seq<u8>, layer: nat, node: nat, parents: Seq<Seq<u8>>) -> Seq<
    u8,
> {
    if layer == 1 {
        base_label(replica_id, layer as u32, node as u64, parents)
    } else {
        exp_label(replica_id, layer as u32, node as u64, parents)
    }
}

/// The labels of the parents that `parents` lists: six among `prior`, the
/// labels of the earlier nodes of the layer, and in any layer but the first
/// eight in the previous layer.
pub open spec fn parent_labels(
    layer: nat,
    prior: Seq<Seq<u8>>,
    previous: Seq<u8>,
    parents: Seq<u32>,
) -> Seq<Seq<u8>> {
    let base = Seq::new(6, |i: int| prior[parents[i] as int]);
    if layer == 1 {
        base
    } else {
        base + expander_labels(previous, parents)
    }
}

/// The labels of the first `count` nodes of `layer`, where `history` lists
/// the parents of every node and `previous` is the previous layer: every
/// node is labelled from the labels of earlier nodes and of the previous
/// layer.
pub open spec fn derived_layer(
    replica_id: Seq<u8>,
    layer: nat,
    history: Seq<Seq<u32>>,
    previous: Seq<u8>,
    count: nat,
) -> Seq<Seq<u8>>
    decreases count,
{
    if count == 0 {
        Seq::empty()
    } else {
        let prior = derived_layer(replica_id, layer, history, previous, (count - 1) as nat);
        prior.push(
            label_of(
                replica_id,
                layer,
                (count - 1) as nat,
                parent_labels(layer, prior, previous, history[count - 1]),
            ),
        )
    }
}

/// The labels of the first `count` nodes depend on the parents of those
/// nodes alone.
pub proof fn lemma_derived_prefix(
    replica_id: Seq<u8>,
    layer: nat,
    history: Seq<Seq<u32>>,
    longer: Seq<Seq<u32>>,
    previous: Seq<u8>,
    count: nat,
)
    requires
        count <= history.len() <= longer.len(),
        forall|i: int| 0 <= i < count ==> longer[i] == history[i],
    ensures
        derived_layer(replica_id, layer, longer, previous, count) == derived_layer(
            replica_id,
            layer,
            history,
            previous,
            count,
        ),
        derived_layer(replica_id, layer, history, previous, count).len() == count,
    decreases count,
{
    if count > 0 {
        lemma_derived_prefix(replica_id, layer, history, longer, previous, (count - 1) as nat);
    }
}

/// The pipeline for one sector.
pub struct LayerPipeline {
    node_count: usize,
    layer_count: usize,
    replica_id: [u8; 32],
    block_size: usize,
    resume: bool,
    layer_states: Vec<LayerState>,
    phase: Phase,
    layer: usize,
    node: usize,
    exp_labels: Vec<u8>,
    layer_labels: NodesFile,
    parents: Vec<u32>,
    collected: Vec<[u8; 32]>,
    history: Ghost<Seq<Seq<u32>>>,
    faithful: Ghost<bool>,
}

impl LayerPipeline {
    /// The parents listed so far for the nodes of the layer at hand, by node.
    /// The first node has none: its entry is empty.
    pub closed spec fn history(&self) -> Seq<Seq<u32>> {
        self.history@
    }

    /// Whether every label that was read back for the layer at hand was the
    /// label that the pipeline had handed out for that place in the file.
    pub closed spec fn faithful(&self) -> bool {
        self.faithful@
    }

    /// The labels of the layer at hand are those that follow from the parents
    /// listed and from the previous layer, as long as every label read back
    /// was the one written.
    pub open spec fn tracks(&self) -> bool {
        self.faithful() ==> self.store()@ == derived_layer(
            self.replica_id(),
            self.layer(),
            self.history(),
            self.previous(),
            self.store()@.len(),
        )
    }

    /// The number of nodes in every layer.
    pub closed spec fn node_count(&self) -> nat {
        self.node_count as nat
    }

    /// The number of layers.
    pub closed spec fn layer_count(&self) -> nat {
        self.layer_count as nat
    }

    /// The replica identifier.
    pub closed spec fn replica_id(&self) -> Seq<u8> {
        self.replica_id@
    }

    /// The block size of the node buffers.
    pub closed spec fn block_size(&self) -> nat {
        self.block_size as nat
    }

    /// Whether layers that are already on file are kept.
    pub closed spec fn resumes(&self) -> bool {
        self.resume
    }

    /// The checkpoint records, by layer.
    pub closed spec fn states(&self) -> Seq<LayerState> {
        self.layer_states@
    }

    /// What the pipeline is waiting for.
    pub closed spec fn phase(&self) -> Phase {
        self.phase
    }

    /// The layer at hand, counted from one.
    pub closed spec fn layer(&self) -> nat {
        self.layer as nat
    }

    /// The node at hand.
    pub closed spec fn node(&self) -> nat {
        self.node as nat
    }

    /// The bytes of the layer loaded last: the source of expander parents.
    pub closed spec fn previous(&self) -> Seq<u8> {
        self.exp_labels@
    }

    /// The node buffer of the layer at hand.
    pub closed spec fn store(&self) -> NodesFile {
        self.layer_labels
    }

    /// The parents of the node at hand, as the parent cache listed them.
    pub closed spec fn parents(&self) -> Seq<u32> {
        self.parents@
    }

    /// The labels found so far of the parents of the node at hand.
    pub closed spec fn collected(&self) -> Seq<Seq<u8>> {
        crate::hasher::block_views(self.collected@)
    }

    /// What holds of a pipeline in every phase.
    pub open spec fn setup_ok(&self) -> bool {
        &&& self.states().len() == self.layer_count()
        &&& 32 * self.node_count() <= usize::MAX
        &&& self.node_count() <= 0x1_0000_0000
        &&& self.block_size() > 0
        &&& self.block_size() % 32 == 0
        &&& self.store().wf()
        &&& self.store().capacity() == self.block_size()
        &&& 1 <= self.layer()
        &&& self.layer() > 1 ==> self.previous().len() == 32 * self.node_count()
        &&& self.sealed_below(self.layer())
    }

    /// Whether every layer below `layer` is marked as generated.
    pub open spec fn sealed_below(&self, layer: nat) -> bool {
        forall|i: int|
            0 <= i < layer - 1 && i < self.states().len() ==> (#[trigger] self.states()[i]).generated
    }

    /// Whether no file is being written for a layer that is to be kept: a
    /// pipeline that resumes generates only layers that are not marked.
    pub open spec fn generates_afresh(&self) -> bool {
        self.resumes() ==> !self.states()[self.layer() - 1].generated
    }

    /// Whether the parents listed for the node at hand are fit for use: they
    /// are as many as the layer calls for, the base parents come before the
    /// node and the expander parents lie in the previous layer.
    pub open spec fn parents_ok(&self, parents: Seq<u32>) -> bool {
        &&& parents.len() == degree(self.layer())
        &&& forall|i: int| 0 <= i < 6 ==> parents[i] < self.node()
        &&& forall|i: int| 6 <= i < parents.len() ==> parents[i] < self.node_count()
    }

    /// The invariant of the pipeline.
    pub open spec fn wf(&self) -> bool {
        &&& self.setup_ok()
        &&& match self.phase() {
            Phase::Idle => self.layer() == 1,
            Phase::Done => self.sealed_below(self.layer_count() + 1),
            Phase::Loading => {
                &&& self.layer() <= self.layer_count()
                &&& self.states()[self.layer() - 1].generated
            },
            Phase::Opening => {
                &&& self.layer() <= self.layer_count()
                &&& self.generates_afresh()
            },
            Phase::Parents => {
                &&& self.generates_afresh()
                &&& self.layer() <= self.layer_count()
                &&& 1 <= self.node() < self.node_count()
                &&& self.store()@.len() == self.node()
                &&& self.history().len() == self.node()
                &&& self.tracks()
            },
            Phase::Fetching => {
                &&& self.generates_afresh()
                &&& self.layer() <= self.layer_count()
                &&& 1 <= self.node() < self.node_count()
                &&& self.store()@.len() == self.node()
                &&& self.parents_ok(self.parents())
                &&& self.collected().len() < 6
                &&& 32 * self.parents()[self.collected().len() as int]
                    < self.store().written_offset()
                &&& self.history().len() == self.node() + 1
                &&& self.history()[self.node() as int] == self.parents()
                &&& self.tracks()
                &&& self.faithful() ==> self.collected() == base_labels(
                    self.store(),
                    self.parents(),
                    0,
                    self.collected().len() as int,
                )
            },
            Phase::Writing => {
                &&& self.generates_afresh()
                &&& self.layer() <= self.layer_count()
                &&& self.node() < self.node_count()
                &&& self.store()@.len() == self.node() + 1
                &&& self.store().resident().len() == 0
                &&& self.history().len() == self.node() + 1
                &&& self.tracks()
            },
            Phase::Sealing => {
                &&& self.generates_afresh()
                &&& self.layer() <= self.layer_count()
                &&& self.store()@.len() == self.node_count()
                &&& self.store().resident().len() == 0
                &&& self.history().len() >= self.node_count()
                &&& self.tracks()
            },
        }
    }

    /// Whether `after` is a pipeline for the same sector, with the same files.
    pub open spec fn same_sector(&self, after: LayerPipeline) -> bool {
        &&& after.node_count() == self.node_count()
        &&& after.layer_count() == self.layer_count()
        &&& after.replica_id() == self.replica_id()
        &&& after.block_size() == self.block_size()
        &&& after.resumes() == self.resumes()
        &&& after.states().len() == self.states().len()
        &&& forall|i: int|
            0 <= i < self.states().len() ==> {
                &&& (#[trigger] after.states()[i]).path == self.states()[i].path
                &&& after.states()[i].id == self.states()[i].id
            }
    }

    /// Whether `after` has the checkpoint flags of this pipeline.
    pub open spec fn same_flags(&self, after: LayerPipeline) -> bool {
        forall|i: int|
            0 <= i < self.states().len() ==> (#[trigger] after.states()[i]).generated
                == self.states()[i].generated
    }

    /// Whether `after` has the record of this pipeline: the parents listed
    /// and whether the labels read back were the ones written.
    pub open spec fn same_record(&self, after: LayerPipeline) -> bool {
        &&& after.history() == self.history()
        &&& after.faithful() == self.faithful()
    }

    /// Whether `after` has the node buffer of this pipeline, as far as its
    /// two tiers go.
    pub open spec fn same_store(&self, after: LayerPipeline) -> bool {
        &&& after.store().flushed() == self.store().flushed()
        &&& after.store().resident() == self.store().resident()
    }

    /// The pipeline turns to `layer`: a layer that is on file, in a pipeline
    /// that resumes, is loaded; any other is opened for generation.
    pub open spec fn enters(
        &self,
        after: LayerPipeline,
        result: Result<Action, Error>,
        layer: nat,
    ) -> bool {
        &&& after.layer() == layer
        &&& if self.resumes() && self.states()[layer - 1].generated {
            &&& after.phase() == Phase::Loading
            &&& result matches Ok(Action::LoadLayer { layer: l })
            &&& l == layer
        } else {
            &&& after.phase() == Phase::Opening
            &&& result matches Ok(Action::OpenLayer { layer: l })
            &&& l == layer
        }
    }

    /// The pipeline has appended `label` for `node` to a buffer that held
    /// `flushed` and `resident`. A block that this fills is written; else the
    /// layer is sealed if the node was its last, with whatever is resident as
    /// the last block; else the parents of the next node are asked for.
    pub open spec fn lands(
        &self,
        after: LayerPipeline,
        result: Result<Action, Error>,
        node: nat,
        flushed: Seq<u8>,
        resident: Seq<u8>,
        label: Seq<u8>,
    ) -> bool {
        &&& after.layer() == self.layer()
        &&& after.previous() == self.previous()
        &&& after.store()@ == crate::buffer::labels_of(flushed + resident + label)
        &&& if resident.len() + 32 == self.block_size() {
            &&& after.phase() == Phase::Writing
            &&& after.node() == node
            &&& after.store().flushed() == flushed + resident + label
            &&& after.store().resident() == Seq::<u8>::empty()
            &&& result matches Ok(Action::Write { block })
            &&& block@ == resident + label
        } else if node + 1 == self.node_count() {
            &&& after.phase() == Phase::Sealing
            &&& after.node() == node
            &&& after.store().flushed() == flushed + resident + label
            &&& after.store().resident() == Seq::<u8>::empty()
            &&& result matches Ok(Action::Seal { layer, block })
            &&& layer == self.layer()
            &&& block@ == resident + label
        } else {
            &&& after.phase() == Phase::Parents
            &&& after.node() == node + 1
            &&& after.store().flushed() == flushed
            &&& after.store().resident() == resident + label
            &&& result matches Ok(Action::ReadParents { node: next })
            &&& next == node + 1
        }
    }

    /// The label of `node` in the layer at hand, given the labels of its
    /// parents.
    pub open spec fn label_for(&self, node: nat, parents: Seq<Seq<u8>>) -> Seq<u8> {
        label_of(self.replica_id(), self.layer(), node, parents)
    }

    /// The pipeline goes on with the parents of the node at hand, of which
    /// `found` labels are known. Base parents whose labels are resident are
    /// looked up on the spot. The first whose label has been flushed is asked
    /// for at its place in the file. With all six known, and the labels of
    /// the expander parents read from the previous layer, the node is
    /// labelled and the label appended.
    pub open spec fn resolves(
        &self,
        after: LayerPipeline,
        result: Result<Action, Error>,
        parents: Seq<u32>,
        found: Seq<Seq<u8>>,
    ) -> bool {
        let next = pending(self.store(), parents, found.len() as int);
        let known = found + base_labels(self.store(), parents, found.len() as int, next);
        if next < 6 {
            &&& after.phase() == Phase::Fetching
            &&& after.layer() == self.layer()
            &&& after.node() == self.node()
            &&& after.previous() == self.previous()
            &&& self.same_store(after)
            &&& after.store()@ == self.store()@
            &&& after.parents() == parents
            &&& after.collected() == known
            &&& result matches Ok(Action::ReadLabel { offset })
            &&& offset == 32 * parents[next]
        } else {
            let all = if self.layer() == 1 {
                known
            } else {
                known + expander_labels(self.previous(), parents)
            };
            self.lands(
                after,
                result,
                self.node(),
                self.store().flushed(),
                self.store().resident(),
                self.label_for(self.node(), all),
            )
        }
    }

    /// The pipeline is through with the layer at hand, which is loaded: the
    /// next layer follows, or nothing if it was the last.
    pub open spec fn leaves(&self, after: LayerPipeline, result: Result<Action, Error>) -> bool {
        if self.layer() == self.layer_count() {
            &&& after.phase() == Phase::Done
            &&& after.layer() == self.layer()
            &&& result matches Ok(Action::Done)
        } else {
            self.enters(after, result, self.layer() + 1)
        }
    }

    /// Why the parents listed for the node at hand are refused, if they are:
    /// their number is checked first, then the base parents, then the
    /// expander parents.
    pub open spec fn parents_refusal(&self, parents: Seq<u32>) -> Option<Error> {
        if parents.len() != degree(self.layer()) {
            Some(Error::ParentCount)
        } else if exists|i: int| 0 <= i < 6 && parents[i] >= self.node() {
            Some(Error::NotWritten)
        } else if exists|i: int| 6 <= i < parents.len() && parents[i] >= self.node_count() {
            Some(Error::ParentOutOfLayer)
        } else {
            None
        }
    }

    /// Why the pipeline refuses an event, if it does: the event does not
    /// answer the action that is pending, a loaded layer has the wrong size,
    /// or the parents listed for a node are not fit for use.
    pub open spec fn refusal(&self, event: Event) -> Option<Error> {
        match (self.phase(), event) {
            (Phase::Idle, Event::Start) => None,
            (Phase::Loading, Event::LayerLoaded(bytes)) => if bytes@.len() == 32
                * self.node_count() {
                None
            } else {
                Some(Error::LayerSize)
            },
            (Phase::Opening, Event::LayerOpened) => None,
            (Phase::Parents, Event::Parents(parents)) => self.parents_refusal(parents@),
            (Phase::Fetching, Event::Label(_)) => None,
            (Phase::Writing, Event::Written) => None,
            (Phase::Sealing, Event::Sealed) => None,
            _ => Some(Error::UnexpectedEvent),
        }
    }

    /// What an event that is not refused makes of the pipeline, and which
    /// action follows.
    pub open spec fn accepts(
        &self,
        event: Event,
        after: LayerPipeline,
        result: Result<Action, Error>,
    ) -> bool {
        &&& self.same_sector(after)
        &&& match event {
            Event::Start => {
                &&& self.same_flags(after)
                &&& self.same_record(after)
                &&& after.previous() == self.previous()
                &&& if self.layer_count() == 0 {
                    &&& after.phase() == Phase::Done
                    &&& result matches Ok(Action::Done)
                } else {
                    self.enters(after, result, 1)
                }
            },
            Event::LayerLoaded(bytes) => {
                &&& self.same_flags(after)
                &&& self.same_record(after)
                &&& after.previous() == bytes@
                &&& self.leaves(after, result)
            },
            Event::LayerOpened => {
                &&& self.same_flags(after)
                &&& after.history() == seq![Seq::<u32>::empty()]
                &&& after.faithful()
                &&& if self.node_count() == 0 {
                    &&& after.phase() == Phase::Sealing
                    &&& after.layer() == self.layer()
                    &&& after.previous() == self.previous()
                    &&& after.store()@ == Seq::<Seq<u8>>::empty()
                    &&& after.store().flushed() == Seq::<u8>::empty()
                    &&& after.store().resident() == Seq::<u8>::empty()
                    &&& result matches Ok(Action::Seal { layer, block })
                    &&& layer == self.layer()
                    &&& block@ == Seq::<u8>::empty()
                } else {
                    self.lands(
                        after,
                        result,
                        0,
                        Seq::empty(),
                        Seq::empty(),
                        self.label_for(0, Seq::empty()),
                    )
                }
            },
            Event::Parents(parents) => {
                &&& self.same_flags(after)
                &&& after.history() == self.history().push(parents@)
                &&& after.faithful() == self.faithful()
                &&& self.resolves(after, result, parents@, Seq::empty())
            },
            Event::Label(label) => {
                &&& self.same_flags(after)
                &&& after.history() == self.history()
                &&& after.faithful() == (self.faithful() && label@
                    == self.store().flushed().subrange(
                    32 * self.parents()[self.collected().len() as int],
                    32 * self.parents()[self.collected().len() as int] + 32,
                ))
                &&& self.resolves(after, result, self.parents(), self.collected().push(label@))
            },
            Event::Written => {
                &&& self.same_flags(after)
                &&& self.same_record(after)
                &&& after.layer() == self.layer()
                &&& after.previous() == self.previous()
                &&& self.same_store(after)
                &&& after.store()@ == self.store()@
                &&& if self.node() + 1 == self.node_count() {
                    &&& after.phase() == Phase::Sealing
                    &&& after.node() == self.node()
                    &&& result matches Ok(Action::Seal { layer, block })
                    &&& layer == self.layer()
                    &&& block@ == Seq::<u8>::empty()
                } else {
                    &&& after.phase() == Phase::Parents
                    &&& after.node() == self.node() + 1
                    &&& result matches Ok(Action::ReadParents { node })
                    &&& node == self.node() + 1
                }
            },
            Event::Sealed => {
                &&& self.same_record(after)
                &&& self.same_store(after)
                &&& after.store()@ == self.store()@
                &&& after.states()[self.layer() - 1].generated
                &&& forall|i: int|
                    0 <= i < self.states().len() && i != self.layer() - 1 ==> (
                    #[trigger] after.states()[i]).generated == self.states()[i].generated
                &&& after.phase() == Phase::Loading
                &&& after.layer() == self.layer()
                &&& after.previous() == self.previous()
                &&& result matches Ok(Action::LoadLayer { layer })
                &&& layer == self.layer()
            },
        }
    }
}

impl LayerPipeline {
    /// Turns to `layer`.
    fn enter(&mut self, layer: usize) -> (action: Action)
        requires
            old(self).setup_ok(),
            1 <= layer <= old(self).layer_count(),
            layer > 1 ==> old(self).previous().len() == 32 * old(self).node_count(),
            old(self).sealed_below(layer as nat),
        ensures
            final(self).wf(),
            old(self).same_sector(*final(self)),
            old(self).same_flags(*final(self)),
            old(self).same_record(*final(self)),
            final(self).previous() == old(self).previous(),
            old(self).enters(*final(self), Ok(action), layer as nat),
    {
        self.layer = layer;
        if self.resume && self.layer_states[layer - 1].generated {
            self.phase = Phase::Loading;
            Action::LoadLayer { layer }
        } else {
            self.phase = Phase::Opening;
            Action::OpenLayer { layer }
        }
    }

    /// Goes on after the layer at hand has been loaded.
    fn leave(&mut self) -> (action: Action)
        requires
            old(self).setup_ok(),
            old(self).layer() <= old(self).layer_count(),
            old(self).previous().len() == 32 * old(self).node_count(),
            old(self).states()[old(self).layer() - 1].generated,
        ensures
            final(self).wf(),
            old(self).same_sector(*final(self)),
            old(self).same_flags(*final(self)),
            old(self).same_record(*final(self)),
            final(self).previous() == old(self).previous(),
            old(self).leaves(*final(self), Ok(action)),
    {
        if self.layer == self.layer_count {
            self.phase = Phase::Done;
            Action::Done
        } else {
            let next = self.layer + 1;
            self.enter(next)
        }
    }

    /// Goes on after the label of the node at hand is in the buffer and out
    /// of the write buffer's way: seals the layer or turns to the next node.
    fn advance(&mut self) -> (action: Action)
        requires
            old(self).setup_ok(),
            old(self).layer() <= old(self).layer_count(),
            old(self).node() < old(self).node_count(),
            old(self).store()@.len() == old(self).node() + 1,
            old(self).history().len() == old(self).node() + 1,
            old(self).tracks(),
            old(self).generates_afresh(),
        ensures
            final(self).wf(),
            old(self).same_sector(*final(self)),
            old(self).same_flags(*final(self)),
            old(self).same_record(*final(self)),
            final(self).previous() == old(self).previous(),
            final(self).layer() == old(self).layer(),
            final(self).store()@ == old(self).store()@,
            if old(self).node() + 1 == old(self).node_count() {
                &&& final(self).phase() == Phase::Sealing
                &&& final(self).node() == old(self).node()
                &&& final(self).store().flushed() == old(self).store().bytes()
                &&& final(self).store().resident() == Seq::<u8>::empty()
                &&& action matches Action::Seal { layer, block }
                &&& layer == old(self).layer()
                &&& block@ == old(self).store().resident()
            } else {
                &&& final(self).phase() == Phase::Parents
                &&& final(self).node() == old(self).node() + 1
                &&& old(self).same_store(*final(self))
                &&& action matches Action::ReadParents { node }
                &&& node == old(self).node() + 1
            },
    {
        if self.node + 1 == self.node_count {
            let block = self.layer_labels.flush();
            self.phase = Phase::Sealing;
            Action::Seal { layer: self.layer, block }
        } else {
            self.node = self.node + 1;
            self.phase = Phase::Parents;
            Action::ReadParents { node: self.node as u32 }
        }
    }

    /// Goes on after `label` has been appended to the buffer, which was
    /// `before` and handed back `block`.
    fn land(
        &mut self,
        block: Option<Vec<u8>>,
        Ghost(before): Ghost<NodesFile>,
        Ghost(label): Ghost<Seq<u8>>,
    ) -> (action: Action)
        requires
            old(self).setup_ok(),
            old(self).layer() <= old(self).layer_count(),
            old(self).node() < old(self).node_count(),
            before.wf(),
            before@.len() == old(self).node(),
            before.capacity() == old(self).block_size(),
            before.appended(old(self).store(), label, block),
            old(self).history().len() == old(self).node() + 1,
            old(self).tracks(),
            old(self).generates_afresh(),
        ensures
            final(self).wf(),
            old(self).same_sector(*final(self)),
            old(self).same_flags(*final(self)),
            old(self).same_record(*final(self)),
            old(self).lands(
                *final(self),
                Ok(action),
                old(self).node(),
                before.flushed(),
                before.resident(),
                label,
            ),
    {
        proof {
            before.lemma_wf();
            self.layer_labels.lemma_wf();
            assert(before.flushed() + before.resident() + label =~= before.bytes() + label);
            assert(before.flushed() + (before.resident() + label) =~= before.bytes() + label);
        }
        match block {
            Some(block) => {
                self.phase = Phase::Writing;
                Action::Write { block }
            },
            None => self.advance(),
        }
    }

    /// Labels the node at hand from the labels collected for its parents.
    fn commit(&mut self, first: bool) -> (action: Action)
        requires
            old(self).setup_ok(),
            old(self).layer() <= old(self).layer_count(),
            old(self).node() < old(self).node_count(),
            old(self).store()@.len() == old(self).node(),
            first <==> old(self).node() == 0,
            !first ==> old(self).collected().len() == degree(old(self).layer()),
            old(self).history().len() == old(self).node() + 1,
            old(self).tracks(),
            old(self).generates_afresh(),
            !first && old(self).faithful() ==> old(self).collected() == parent_labels(
                old(self).layer(),
                old(self).store()@,
                old(self).previous(),
                old(self).history()[old(self).node() as int],
            ),
        ensures
            final(self).wf(),
            old(self).same_sector(*final(self)),
            old(self).same_flags(*final(self)),
            old(self).same_record(*final(self)),
            old(self).lands(
                *final(self),
                Ok(action),
                old(self).node(),
                old(self).store().flushed(),
                old(self).store().resident(),
                old(self).label_for(
                    old(self).node(),
                    if first {
                        Seq::empty()
                    } else {
                        old(self).collected()
                    },
                ),
            ),
    {
        let ghost before = self.layer_labels;
        proof {
            before.lemma_wf();
        }
        let parents = if first {
            None
        } else {
            Some(&self.collected)
        };
        let result = if self.layer == 1 {
            create_label(parents, &self.replica_id, &mut self.layer_labels, self.layer, self.node)
        } else {
            create_label_exp(
                parents,
                &self.replica_id,
                &mut self.layer_labels,
                self.layer,
                self.node,
            )
        };
        let ghost label = old(self).label_for(
            old(self).node(),
            if first {
                Seq::empty()
            } else {
                old(self).collected()
            },
        );
        proof {
            if self.faithful() {
                let prior = derived_layer(
                    self.replica_id(),
                    self.layer(),
                    self.history(),
                    self.previous(),
                    self.node(),
                );
                assert(before@ == prior);
                assert(derived_layer(
                    self.replica_id(),
                    self.layer(),
                    self.history(),
                    self.previous(),
                    self.node() + 1,
                ) == prior.push(
                    label_of(
                        self.replica_id(),
                        self.layer(),
                        self.node(),
                        parent_labels(
                            self.layer(),
                            prior,
                            self.previous(),
                            self.history()[self.node() as int],
                        ),
                    ),
                ));
            }
        }
        match result {
            Ok(block) => self.land(block, Ghost(before), Ghost(label)),
            Err(_) => {
                proof {
                    assert(false);
                }
                Action::Done
            },
        }
    }
}

impl LayerPipeline {
    /// Whether `other` differs from this pipeline at most in its phase and in
    /// the labels collected.
    spec fn framed(&self, other: LayerPipeline) -> bool {
        &&& other.node_count == self.node_count
        &&& other.layer_count == self.layer_count
        &&& other.replica_id == self.replica_id
        &&& other.block_size == self.block_size
        &&& other.resume == self.resume
        &&& other.layer_states == self.layer_states
        &&& other.layer == self.layer
        &&& other.node == self.node
        &&& other.exp_labels == self.exp_labels
        &&& other.layer_labels == self.layer_labels
        &&& other.parents == self.parents
        &&& other.history == self.history
        &&& other.faithful == self.faithful
    }

    /// Checks the parents that the parent cache lists for the node at hand.
    /// A base parent that does not come before the node, or an expander
    /// parent outside the previous layer, is never used for a label.
    pub fn check_parents(&self, parents: &Vec<u32>) -> (result: Result<(), Error>)
        ensures
            result is Ok <==> self.parents_ok(parents@),
            match self.parents_refusal(parents@) {
                Some(e) => result == Err::<(), Error>(e),
                None => result is Ok,
            },
    {
        let want: usize = if self.layer == 1 {
            6
        } else {
            14
        };
        if parents.len() != want {
            return Err(Error::ParentCount);
        }
        let mut i: usize = 0;
        while i < 6
            invariant
                i <= 6,
                parents@.len() == want == degree(self.layer()),
                forall|k: int| 0 <= k < i ==> parents@[k] < self.node(),
            decreases 6 - i,
        {
            if parents[i] as usize >= self.node {
                assert(0 <= i < 6 && parents@[i as int] >= self.node());
                return Err(Error::NotWritten);
            }
            i += 1;
        }
        while i < want
            invariant
                6 <= i <= want,
                parents@.len() == want == degree(self.layer()),
                forall|k: int| 0 <= k < 6 ==> parents@[k] < self.node(),
                forall|k: int| 6 <= k < i ==> parents@[k] < self.node_count(),
            decreases want - i,
        {
            if parents[i] as usize >= self.node_count {
                assert(6 <= i < parents@.len() && parents@[i as int] >= self.node_count());
                return Err(Error::ParentOutOfLayer);
            }
            i += 1;
        }
        Ok(())
    }

    /// Goes on with the parents of the node at hand.
    fn resolve(&mut self) -> (action: Action)
        requires
            old(self).setup_ok(),
            old(self).layer() <= old(self).layer_count(),
            1 <= old(self).node() < old(self).node_count(),
            old(self).store()@.len() == old(self).node(),
            old(self).parents_ok(old(self).parents()),
            old(self).collected().len() <= 6,
            old(self).history().len() == old(self).node() + 1,
            old(self).history()[old(self).node() as int] == old(self).parents(),
            old(self).tracks(),
            old(self).generates_afresh(),
            old(self).faithful() ==> old(self).collected() == base_labels(
                old(self).store(),
                old(self).parents(),
                0,
                old(self).collected().len() as int,
            ),
        ensures
            final(self).wf(),
            old(self).same_sector(*final(self)),
            old(self).same_flags(*final(self)),
            old(self).same_record(*final(self)),
            old(self).resolves(
                *final(self),
                Ok(action),
                old(self).parents(),
                old(self).collected(),
            ),
    {
        let ghost start = self.collected@.len() as int;
        let ghost store = self.layer_labels;
        let ghost parents = self.parents@;
        let mut i: usize = self.collected.len();
        while i < 6
            invariant
                start <= i <= 6,
                i == self.collected@.len(),
                old(self).framed(*self),
                self.phase == old(self).phase,
                store == self.layer_labels,
                parents == self.parents@,
                self.setup_ok(),
                self.parents_ok(parents),
                self.layer() <= self.layer_count(),
                1 <= self.node() < self.node_count(),
                self.store()@.len() == self.node(),
                self.history().len() == self.node() + 1,
                self.history()[self.node() as int] == parents,
                self.tracks(),
                self.generates_afresh(),
                self.faithful() ==> old(self).collected() == base_labels(
                    store,
                    parents,
                    0,
                    start,
                ),
                self.collected() == old(self).collected() + base_labels(
                    store,
                    parents,
                    start,
                    i as int,
                ),
                pending(store, parents, start) == pending(store, parents, i as int),
            decreases 6 - i,
        {
            let parent = self.parents[i] as usize;
            let ghost found = self.collected();
            match self.layer_labels.at(parent) {
                Ok(Location::Resident(label)) => {
                    self.collected.push(label);
                    i += 1;
                    assert(self.collected() =~= found.push(label@));
                    assert(base_labels(store, parents, start, i as int) =~= base_labels(
                        store,
                        parents,
                        start,
                        i - 1,
                    ).push(store@[parents[i - 1] as int]));
                    assert(self.collected() =~= old(self).collected() + base_labels(
                        store,
                        parents,
                        start,
                        i as int,
                    ));
                },
                Ok(Location::Flushed { offset }) => {
                    self.phase = Phase::Fetching;
                    assert(pending(store, parents, i as int) == i);
                    assert(self.faithful() ==> self.collected() =~= base_labels(
                        store,
                        parents,
                        0,
                        i as int,
                    ));
                    let action = Action::ReadLabel { offset };
                    assert(self.phase() == Phase::Fetching);
                    assert(old(self).same_store(*self));
                    assert(self.collected() == old(self).collected() + base_labels(
                        old(self).store(),
                        old(self).parents(),
                        old(self).collected().len() as int,
                        pending(
                            old(self).store(),
                            old(self).parents(),
                            old(self).collected().len() as int,
                        ),
                    ));
                    assert(offset == 32 * old(self).parents()[i as int]);
                    return action;
                },
                Err(_) => {
                    proof {
                        assert(false);
                    }
                    return Action::Done;
                },
            }
        }
        let ghost known = self.collected();
        assert(self.faithful() ==> known =~= Seq::new(6, |i: int| store@[parents[i] as int]));
        if self.layer != 1 {
            let exp = vstd::slice::slice_subrange(self.parents.as_slice(), 6, 14);
            prefetch(exp, self.exp_labels.as_slice());
            let mut j: usize = 6;
            while j < 14
                invariant
                    6 <= j <= 14,
                    j == self.collected@.len(),
                    old(self).framed(*self),
                    self.phase == old(self).phase,
                    parents == self.parents@,
                    self.layer() > 1,
                    self.setup_ok(),
                    self.parents_ok(parents),
                    self.layer() <= self.layer_count(),
                    1 <= self.node() < self.node_count(),
                    self.store()@.len() == self.node(),
                    self.history().len() == self.node() + 1,
                    self.history()[self.node() as int] == parents,
                    self.tracks(),
                    self.generates_afresh(),
                    known.len() == 6,
                    self.collected() == known + expander_labels(
                        self.previous(),
                        parents,
                    ).subrange(0, j - 6),
                decreases 14 - j,
            {
                let ghost found = self.collected();
                let slice = read_node(j, self.parents.as_slice(), self.exp_labels.as_slice());
                let label = copy_label(slice, 0);
                assert(label@ =~= slice@);
                self.collected.push(label);
                j += 1;
                assert(self.collected() =~= found.push(label@));
                assert(expander_labels(self.previous(), parents).subrange(0, j - 6)
                    =~= expander_labels(self.previous(), parents).subrange(0, j - 7).push(
                    label@,
                ));
                assert(self.collected() =~= known + expander_labels(
                    self.previous(),
                    parents,
                ).subrange(0, j - 6));
            }
            assert(expander_labels(self.previous(), parents).subrange(0, 8)
                =~= expander_labels(self.previous(), parents));
        }
        self.commit(false)
    }

    /// Takes the answer to the action that is pending and names the next
    /// action. An event that is refused leaves the pipeline as it was.
    pub fn step(&mut self, event: Event) -> (result: Result<Action, Error>)
        requires
            old(self).wf(),
        ensures
            final(self).wf(),
            match old(self).refusal(event) {
                Some(e) => result == Err::<Action, Error>(e) && *final(self) == *old(self),
                None => result is Ok && old(self).accepts(event, *final(self), result),
            },
    {
        match event {
            Event::Start => match self.phase {
                Phase::Idle => {
                    if self.layer_count == 0 {
                        self.phase = Phase::Done;
                        Ok(Action::Done)
                    } else {
                        Ok(self.enter(1))
                    }
                },
                _ => Err(Error::UnexpectedEvent),
            },
            Event::LayerLoaded(bytes) => match self.phase {
                Phase::Loading => {
                    if bytes.len() != self.node_count * 32 {
                        Err(Error::LayerSize)
                    } else {
                        self.exp_labels = bytes;
                        Ok(self.leave())
                    }
                },
                _ => Err(Error::UnexpectedEvent),
            },
            Event::LayerOpened => match self.phase {
                Phase::Opening => {
                    match NodesFile::new(self.block_size) {
                        Ok(file) => {
                            self.layer_labels = file;
                        },
                        Err(e) => {
                            proof {
                                assert(false);
                            }
                            return Err(e);
                        },
                    }
                    self.node = 0;
                    self.history = Ghost(Seq::<Seq<u32>>::empty().push(Seq::<u32>::empty()));
                    self.faithful = Ghost(true);
                    if self.node_count == 0 {
                        let block = self.layer_labels.flush();
                        self.phase = Phase::Sealing;
                        Ok(Action::Seal { layer: self.layer, block })
                    } else {
                        Ok(self.commit(true))
                    }
                },
                _ => Err(Error::UnexpectedEvent),
            },
            Event::Parents(parents) => match self.phase {
                Phase::Parents => {
                    match self.check_parents(&parents) {
                        Ok(()) => {},
                        Err(e) => {
                            return Err(e);
                        },
                    }
                    self.parents = parents;
                    self.collected = Vec::new();
                    proof {
                        lemma_derived_prefix(
                            self.replica_id(),
                            self.layer(),
                            self.history(),
                            self.history().push(self.parents@),
                            self.previous(),
                            self.node(),
                        );
                    }
                    self.history = Ghost(self.history@.push(self.parents@));
                    assert(self.collected() =~= Seq::<Seq<u8>>::empty());
                    assert(self.collected() =~= base_labels(self.store(), self.parents(), 0, 0));
                    Ok(self.resolve())
                },
                _ => Err(Error::UnexpectedEvent),
            },
            Event::Label(label) => match self.phase {
                Phase::Fetching => {
                    let ghost place = self.parents@[self.collected@.len() as int] as int;
                    proof {
                        self.layer_labels.lemma_tiers(place);
                    }
                    let ghost still = self.faithful@ && label@
                        == self.layer_labels.flushed().subrange(32 * place, 32 * place + 32);
                    self.faithful = Ghost(still);
                    self.collected.push(label);
                    assert(self.collected() =~= old(self).collected().push(label@));
                    assert(self.faithful() ==> self.collected() =~= base_labels(
                        self.store(),
                        self.parents(),
                        0,
                        self.collected().len() as int,
                    ));
                    Ok(self.resolve())
                },
                _ => Err(Error::UnexpectedEvent),
            },
            Event::Written => match self.phase {
                Phase::Writing => {
                    assert(self.store().resident() =~= Seq::<u8>::empty());
                    assert(self.store().bytes() =~= self.store().flushed());
                    Ok(self.advance())
                },
                _ => Err(Error::UnexpectedEvent),
            },
            Event::Sealed => match self.phase {
                Phase::Sealing => {
                    let index = self.layer - 1;
                    self.layer_states[index].generated = true;
                    self.phase = Phase::Loading;
                    Ok(Action::LoadLayer { layer: self.layer })
                },
                _ => Err(Error::UnexpectedEvent),
            },
        }
    }
}

/// Why a pipeline cannot be set up, if it cannot: the block size is checked
/// first, then the number of nodes, which must be addressable byte by byte and
/// leave every node a 32-bit index, then the number of layer states.
pub open spec fn setup_refusal(
    node_count: usize,
    layers: usize,
    layer_states: Seq<LayerState>,
    block_size: usize,
) -> Option<Error> {
    if block_size == 0 || block_size % 32 != 0 {
        Some(Error::BlockSize)
    } else if 32 * node_count > usize::MAX || node_count > 0x1_0000_0000 {
        Some(Error::SectorSize)
    } else if layer_states.len() != layers {
        Some(Error::LayerCount)
    } else {
        None
    }
}

/// What holds of a pipeline that has just been set up.
pub open spec fn set_up(
    pipeline: LayerPipeline,
    node_count: usize,
    layers: usize,
    replica_id: [u8; 32],
    layer_states: Seq<LayerState>,
    block_size: usize,
    resume: bool,
) -> bool {
    &&& pipeline.wf()
    &&& pipeline.phase() == Phase::Idle
    &&& pipeline.layer() == 1
    &&& pipeline.node_count() == node_count
    &&& pipeline.layer_count() == layers
    &&& pipeline.replica_id() == replica_id@
    &&& pipeline.block_size() == block_size
    &&& pipeline.resumes() == resume
    &&& pipeline.states() == layer_states
}

/// Sets a pipeline up.
fn assemble(
    node_count: usize,
    layers: usize,
    replica_id: [u8; 32],
    layer_states: Vec<LayerState>,
    block_size: usize,
    resume: bool,
) -> (result: Result<LayerPipeline, Error>)
    ensures
        match setup_refusal(node_count, layers, layer_states@, block_size) {
            Some(e) => result matches Err(f) && f == e,
            None => result matches Ok(pipeline) && set_up(
                pipeline,
                node_count,
                layers,
                replica_id,
                layer_states@,
                block_size,
                resume,
            ),
        },
{
    let layer_labels = match NodesFile::new(block_size) {
        Ok(file) => file,
        Err(e) => {
            return Err(e);
        },
    };
    if node_count > usize::MAX / 32 || node_count as u64 > 0x1_0000_0000 {
        return Err(Error::SectorSize);
    }
    if layer_states.len() != layers {
        return Err(Error::LayerCount);
    }
    Ok(
        LayerPipeline {
            node_count,
            layer_count: layers,
            replica_id,
            block_size,
            resume,
            layer_states,
            phase: Phase::Idle,
            layer: 1,
            node: 0,
            exp_labels: Vec::new(),
            layer_labels,
            parents: Vec::new(),
            collected: Vec::new(),
            history: Ghost(Seq::empty()),
            faithful: Ghost(true),
        },
    )
}

/// Sets up the pipeline that generates the labels of a sector for encoding.
/// A layer whose state says that it is already on file is kept as it is.
///
/// `node_count` is the number of nodes in every layer, `layers` the number of
/// layers, `layer_states` the checkpoint records in layer order and
/// `block_size` the size at which the node buffers flush. The pipeline waits
/// for `Event::Start`.
pub fn create_labels_for_encoding(
    node_count: usize,
    layers: usize,
    replica_id: [u8; 32],
    layer_states: Vec<LayerState>,
    block_size: usize,
) -> (result: Result<LayerPipeline, Error>)
    ensures
        match setup_refusal(node_count, layers, layer_states@, block_size) {
            Some(e) => result matches Err(f) && f == e,
            None => result matches Ok(pipeline) && set_up(
                pipeline,
                node_count,
                layers,
                replica_id,
                layer_states@,
                block_size,
                true,
            ),
        },
{
    assemble(node_count, layers, replica_id, layer_states, block_size, true)
}

/// Sets up the pipeline that generates the labels of a sector for decoding.
/// It is the pipeline for encoding, except that it generates every layer,
/// whatever the layer's state says.
pub fn create_labels_for_decoding(
    node_count: usize,
    layers: usize,
    replica_id: [u8; 32],
    layer_states: Vec<LayerState>,
    block_size: usize,
) -> (result: Result<LayerPipeline, Error>)
    ensures
        match setup_refusal(node_count, layers, layer_states@, block_size) {
            Some(e) => result matches Err(f) && f == e,
            None => result matches Ok(pipeline) && set_up(
                pipeline,
                node_count,
                layers,
                replica_id,
                layer_states@,
                block_size,
                false,
            ),
        },
{
    assemble(node_count, layers, replica_id, layer_states, block_size, false)
}

impl LayerPipeline {
    /// What the pipeline is waiting for.
    pub fn current_phase(&self) -> (phase: Phase)
        ensures
            phase == self.phase(),
    {
        self.phase
    }

    /// Whether all layers are sealed.
    pub fn is_done(&self) -> (done: bool)
        ensures
            done <==> self.phase() == Phase::Done,
    {
        match self.phase {
            Phase::Done => true,
            _ => false,
        }
    }

    /// The node buffer of the layer at hand.
    pub fn layer_labels(&self) -> (store: &NodesFile)
        ensures
            *store == self.store(),
    {
        &self.layer_labels
    }

    /// The checkpoint records, by layer.
    pub fn layer_states(&self) -> (states: &Vec<LayerState>)
        ensures
            states@ == self.states(),
    {
        &self.layer_states
    }

    /// Gives the pipeline up for its checkpoint records. Once the pipeline
    /// is done, every one of them is marked as generated.
    pub fn into_layer_states(self) -> (states: Vec<LayerState>)
        requires
            self.wf(),
        ensures
            states@ == self.states(),
            states@.len() == self.layer_count(),
            self.phase() == Phase::Done ==> forall|i: int|
                0 <= i < states@.len() ==> (#[trigger] states@[i]).generated,
    {
        self.layer_states
    }
}

impl LayerPipeline {
    /// A list of parents is accepted exactly if every base parent comes
    /// before the node at hand and every expander parent lies in the previous
    /// layer: no label is ever derived from a label that is not final yet.
    pub proof fn lemma_parents_in_order(self, parents: Seq<u32>)
        ensures
            self.parents_refusal(parents) is None <==> self.parents_ok(parents),
            self.parents_refusal(parents) is None ==> {
                &&& forall|i: int| 0 <= i < 6 ==> parents[i] < self.node()
                &&& self.layer() > 1 ==> forall|i: int|
                    6 <= i < 14 ==> parents[i] < self.node_count()
            },
    {
    }

    /// A label is only ever read back from a place in the file that holds
    /// the label of an earlier node of the same layer.
    pub proof fn lemma_reads_earlier_labels(
        self,
        event: Event,
        after: LayerPipeline,
        result: Result<Action, Error>,
    )
        requires
            self.wf(),
            self.refusal(event) is None,
            self.accepts(event, after, result),
        ensures
            result matches Ok(Action::ReadLabel { offset }) ==> {
                &&& offset % 32 == 0
                &&& offset / 32 < self.node()
                &&& offset + 32 <= self.store().written_offset()
            },
    {
        if result is Ok && result->Ok_0 is ReadLabel {
            let offset = result->Ok_0->ReadLabel_offset;
            let (parents, found) = match event {
                Event::Parents(parents) => (parents@, Seq::<Seq<u8>>::empty()),
                _ => (self.parents(), self.collected().push(event->Label_0@)),
            };
            if event is Parents {
                self.lemma_parents_in_order(parents);
            }
            self.store().lemma_wf();
            lemma_pending(self.store(), parents, found.len() as int);
            let next = pending(self.store(), parents, found.len() as int);
            assert(0 <= parents[next] < self.node() && offset == 32 * parents[next]);
        }
    }

    /// While a layer is generated, its labels are exactly those that follow
    /// from the replica identifier, the parents listed for its nodes and the
    /// previous layer, provided that every label read back from the file was
    /// the label written there. When the layer is sealed, that holds of all
    /// its nodes.
    pub proof fn lemma_layer_follows_from_parents(self)
        requires
            self.wf(),
            self.faithful(),
            self.phase() == Phase::Parents || self.phase() == Phase::Fetching || self.phase()
                == Phase::Writing || self.phase() == Phase::Sealing,
        ensures
            self.store()@ == derived_layer(
                self.replica_id(),
                self.layer(),
                self.history(),
                self.previous(),
                self.store()@.len(),
            ),
            self.phase() == Phase::Sealing ==> self.store()@.len() == self.node_count(),
    {
    }

    /// Two runs that are given the same replica identifier, the same parents
    /// and the same previous layer seal the same labels for a layer, whatever
    /// their block sizes are and whichever layers they found on file.
    pub proof fn lemma_runs_agree(self, other: LayerPipeline)
        requires
            self.wf(),
            other.wf(),
            self.faithful(),
            other.faithful(),
            self.phase() == Phase::Sealing,
            other.phase() == Phase::Sealing,
            self.replica_id() == other.replica_id(),
            self.node_count() == other.node_count(),
            self.layer() == other.layer(),
            self.previous() == other.previous(),
            forall|node: int|
                0 <= node < self.node_count() ==> self.history()[node] == other.history()[node],
        ensures
            self.store()@ == other.store()@,
            self.store().flushed() == other.store().flushed(),
    {
        let count = self.node_count();
        let common = self.history().subrange(0, count as int);
        lemma_derived_prefix(
            self.replica_id(),
            self.layer(),
            common,
            self.history(),
            self.previous(),
            count,
        );
        lemma_derived_prefix(
            self.replica_id(),
            self.layer(),
            common,
            other.history(),
            self.previous(),
            count,
        );
        self.lemma_sealed_layer_is_flushed();
        other.lemma_sealed_layer_is_flushed();
        crate::buffer::lemma_labels_injective(self.store().flushed(), other.store().flushed());
    }

    /// When a layer is sealed, nothing of it is left in the write buffer: all
    /// its labels, one per node, have been handed out for the file.
    pub proof fn lemma_sealed_layer_is_flushed(self)
        requires
            self.wf(),
            self.phase() == Phase::Sealing,
        ensures
            self.store().resident() == Seq::<u8>::empty(),
            self.store().flushed().len() == 32 * self.node_count(),
            crate::buffer::labels_of(self.store().flushed()) == self.store()@,
    {
        self.store().lemma_wf();
        assert(self.store().resident() =~= Seq::<u8>::empty());
        assert(self.store().bytes() =~= self.store().flushed());
    }

    /// In a pipeline that resumes and finds every layer on file, nothing is
    /// generated: from the start on, every action loads a layer or ends the
    /// run, and the checkpoint records stay as they are.
    pub proof fn lemma_sealed_layers_are_skipped(
        self,
        event: Event,
        after: LayerPipeline,
        result: Result<Action, Error>,
    )
        requires
            self.wf(),
            self.resumes(),
            forall|i: int| 0 <= i < self.states().len() ==> (#[trigger] self.states()[i]).generated,
            self.phase() == Phase::Idle || self.phase() == Phase::Loading,
            self.refusal(event) is None,
            self.accepts(event, after, result),
        ensures
            after.resumes(),
            forall|i: int|
                0 <= i < after.states().len() ==> (#[trigger] after.states()[i]).generated,
            after.phase() == Phase::Loading || after.phase() == Phase::Done,
            result matches Ok(action) && (action is LoadLayer || action is Done),
            result matches Ok(Action::LoadLayer { layer }) ==> after.phase() == Phase::Loading
                && layer == after.layer(),
            result matches Ok(Action::Done) ==> after.phase() == Phase::Done,
            after.phase() == Phase::Loading ==> after.layer() == if self.phase() == Phase::Idle {
                1
            } else {
                self.layer() + 1
            },
            after.phase() == Phase::Done ==> if self.phase() == Phase::Idle {
                self.layer_count() == 0
            } else {
                self.layer() == self.layer_count()
            },
    {
    }

    /// When the pipeline asks to seal a layer, all of the layer has been
    /// handed out for the file, the last block included: one label per node,
    /// and, provided that every label read back was the one written, exactly
    /// the labels that follow from the parents listed and the previous layer.
    pub proof fn lemma_seal_hands_out_the_layer(
        self,
        event: Event,
        after: LayerPipeline,
        result: Result<Action, Error>,
    )
        requires
            self.wf(),
            after.wf(),
            self.refusal(event) is None,
            self.accepts(event, after, result),
            result matches Ok(action) && action is Seal,
        ensures
            after.phase() == Phase::Sealing,
            result matches Ok(Action::Seal { layer, .. }) && layer == after.layer(),
            after.store().flushed().len() == 32 * after.node_count(),
            after.store().resident() == Seq::<u8>::empty(),
            after.faithful() ==> crate::buffer::labels_of(after.store().flushed()) == derived_layer(
                after.replica_id(),
                after.layer(),
                after.history(),
                after.previous(),
                after.node_count(),
            ),
    {
        after.lemma_sealed_layer_is_flushed();
    }

    /// Parents are asked for node by node: a request names the node whose
    /// label is the next to be appended, never the first node of a layer and
    /// never a node beyond the layer.
    pub proof fn lemma_parents_are_asked_in_order(
        self,
        event: Event,
        after: LayerPipeline,
        result: Result<Action, Error>,
    )
        requires
            self.wf(),
            after.wf(),
            self.refusal(event) is None,
            self.accepts(event, after, result),
        ensures
            result matches Ok(Action::ReadParents { node }) ==> {
                &&& after.phase() == Phase::Parents
                &&& node == after.node()
                &&& 1 <= node < after.node_count()
                &&& node == after.store()@.len()
                &&& after.layer() == self.layer()
            },
    {
    }

    /// Layers are taken in rising order: no event leads back to an earlier
    /// layer or to the idle phase, and a layer is opened only when the run
    /// starts, as the first, or as the one after the layer at hand.
    pub proof fn lemma_layers_rise(
        self,
        event: Event,
        after: LayerPipeline,
        result: Result<Action, Error>,
    )
        requires
            self.wf(),
            after.wf(),
            self.refusal(event) is None,
            self.accepts(event, after, result),
        ensures
            after.phase() != Phase::Idle,
            after.phase() != Phase::Done ==> after.layer() >= self.layer(),
            result matches Ok(Action::OpenLayer { layer }) ==> {
                &&& after.phase() == Phase::Opening
                &&& layer == after.layer()
                &&& layer == if self.phase() == Phase::Idle {
                    1
                } else {
                    self.layer() + 1
                }
            },
    {
    }

    /// Once the pipeline is done, every layer is marked as generated.
    pub proof fn lemma_done_means_sealed(self)
        requires
            self.wf(),
            self.phase() == Phase::Done,
        ensures
            forall|i: int| 0 <= i < self.layer_count() ==> (#[trigger] self.states()[i]).generated,
    {
    }

    /// A mark is never taken back, and a pipeline that resumes asks for
    /// nothing but loading on behalf of a layer that is marked: it is not
    /// opened, no parents are looked up for it, nothing is read back, written
    /// or sealed.
    pub proof fn lemma_generated_layers_are_kept(
        self,
        event: Event,
        after: LayerPipeline,
        result: Result<Action, Error>,
    )
        requires
            self.wf(),
            after.wf(),
            self.refusal(event) is None,
            self.accepts(event, after, result),
        ensures
            forall|i: int|
                0 <= i < self.states().len() && self.states()[i].generated ==> (
                #[trigger] after.states()[i]).generated,
            result matches Ok(action) && (action is LoadLayer || action is Done || {
                &&& 1 <= after.layer() <= self.layer_count()
                &&& self.resumes() ==> !self.states()[after.layer() - 1].generated
                &&& action matches Action::OpenLayer { layer } ==> layer == after.layer()
                &&& action matches Action::Seal { layer, .. } ==> layer == after.layer()
            }),
    {
    }
}

/// Whether the pipelines `states` are a run: every event is accepted by the
/// pipeline before it, is answered with the result beside it and leads to
/// the pipeline after it.
pub open spec fn is_run(
    states: Seq<LayerPipeline>,
    events: Seq<Event>,
    results: Seq<Result<Action, Error>>,
) -> bool {
    &&& states.len() == events.len() + 1
    &&& results.len() == events.len()
    &&& forall|i: int| 0 <= i < states.len() ==> (#[trigger] states[i]).wf()
    &&& forall|i: int| 0 <= i < events.len() ==> #[trigger] run_step(states, events, results, i)
}

/// Whether the `i`-th event of a run is accepted and leads on.
pub open spec fn run_step(
    states: Seq<LayerPipeline>,
    events: Seq<Event>,
    results: Seq<Result<Action, Error>>,
    i: int,
) -> bool {
    &&& states[i].refusal(events[i]) is None
    &&& states[i].accepts(events[i], states[i + 1], results[i])
}

/// A rerun over a sector whose layers are all on file generates nothing. In
/// a run of a pipeline that resumes, starts idle and finds every layer
/// marked, the answers are, in this order, one request to load for every
/// layer and then the end of the run; no mark is taken back; and the run has
/// no further event. No layer is opened, so the parent cache is never reset
/// or read and no block is handed out for any file.
pub proof fn lemma_rerun_only_loads(
    states: Seq<LayerPipeline>,
    events: Seq<Event>,
    results: Seq<Result<Action, Error>>,
    i: int,
)
    requires
        is_run(states, events, results),
        states[0].phase() == Phase::Idle,
        states[0].resumes(),
        forall|k: int| 0 <= k < states[0].states().len() ==> (#[trigger] states[0].states()[k]).generated,
        0 <= i < events.len(),
    ensures
        i <= states[0].layer_count(),
        states[i + 1].resumes(),
        states[i + 1].layer_count() == states[0].layer_count(),
        forall|k: int|
            0 <= k < states[i + 1].states().len() ==> (#[trigger] states[i + 1].states()[k]).generated,
        if i < states[0].layer_count() {
            &&& results[i] matches Ok(Action::LoadLayer { layer })
            &&& layer == i + 1
            &&& states[i + 1].phase() == Phase::Loading
            &&& states[i + 1].layer() == i + 1
        } else {
            &&& results[i] matches Ok(Action::Done)
            &&& states[i + 1].phase() == Phase::Done
        },
    decreases i,
{
    assert(run_step(states, events, results, i));
    if i > 0 {
        lemma_rerun_only_loads(states, events, results, i - 1);
        assert(run_step(states, events, results, i - 1));
    }
    states[i].lemma_sealed_layers_are_skipped(events[i], states[i + 1], results[i]);
}

/// In a run no layer is opened twice, so the parent cache is reset at most
/// once for every layer: of two requests to open a layer, the later one
/// names a later layer.
pub proof fn lemma_layer_opened_once(
    states: Seq<LayerPipeline>,
    events: Seq<Event>,
    results: Seq<Result<Action, Error>>,
    i: int,
    j: int,
)
    requires
        is_run(states, events, results),
        0 <= i < j < events.len(),
        results[i] matches Ok(action) && action is OpenLayer,
        results[j] matches Ok(action) && action is OpenLayer,
    ensures
        results[i]->Ok_0->OpenLayer_layer < results[j]->Ok_0->OpenLayer_layer,
{
    assert(run_step(states, events, results, i));
    assert(run_step(states, events, results, j));
    states[i].lemma_layers_rise(events[i], states[i + 1], results[i]);
    states[j].lemma_layers_rise(events[j], states[j + 1], results[j]);
    lemma_run_layers_rise(states, events, results, i + 1, j);
}

/// Along a run the layer at hand never falls, and after the first event the
/// pipeline is never idle again.
pub proof fn lemma_run_layers_rise(
    states: Seq<LayerPipeline>,
    events: Seq<Event>,
    results: Seq<Result<Action, Error>>,
    i: int,
    j: int,
)
    requires
        is_run(states, events, results),
        1 <= i <= j < events.len(),
    ensures
        states[i].phase() != Phase::Idle,
        states[j].phase() != Phase::Idle,
        states[j].phase() != Phase::Done,
        states[i].layer() <= states[j].layer(),
    decreases j - i,
{
    assert(run_step(states, events, results, i - 1));
    states[i - 1].lemma_layers_rise(events[i - 1], states[i], results[i - 1]);
    assert(run_step(states, events, results, j - 1));
    states[j - 1].lemma_layers_rise(events[j - 1], states[j], results[j - 1]);
    assert(run_step(states, events, results, j));
    if i < j {
        lemma_run_layers_rise(states, events, results, i + 1, j);
        assert(run_step(states, events, results, i));
        states[i].lemma_layers_rise(events[i], states[i + 1], results[i]);
    }
}

/// A layer that is marked when a run starts is kept throughout: in a run of
/// a pipeline that resumes, the layer stays marked and no answer opens it
/// or asks to look up parents, to read back, to write or to seal while it is
/// at hand.
pub proof fn lemma_run_keeps_generated_layers(
    states: Seq<LayerPipeline>,
    events: Seq<Event>,
    results: Seq<Result<Action, Error>>,
    layer: int,
    i: int,
)
    requires
        is_run(states, events, results),
        states[0].resumes(),
        1 <= layer <= states[0].layer_count(),
        states[0].states()[layer - 1].generated,
        0 <= i < events.len(),
    ensures
        states[i + 1].resumes(),
        states[i + 1].layer_count() == states[0].layer_count(),
        states[i + 1].states()[layer - 1].generated,
        results[i] matches Ok(action) && (action is LoadLayer || action is Done
            || states[i + 1].layer() != layer),
    decreases i,
{
    assert(run_step(states, events, results, i));
    if i > 0 {
        lemma_run_keeps_generated_layers(states, events, results, layer, i - 1);
    }
    states[i].lemma_generated_layers_are_kept(events[i], states[i + 1], results[i]);
}

/// The place that `pending` finds is the first at or after `from` whose label
/// has been flushed.
pub proof fn lemma_pending(store: NodesFile, parents: Seq<u32>, from: int)
    requires
        0 <= from <= 6,
    ensures
        from <= pending(store, parents, from) <= 6,
        pending(store, parents, from) < 6 ==> 32 * parents[pending(store, parents, from)]
            < store.written_offset(),
        forall|i: int|
            from <= i < pending(store, parents, from) ==> 32 * parents[i]
                >= store.written_offset(),
    decreases 6 - from,
{
    if from < 6 && 32 * parents[from] >= store.written_offset() {
        lemma_pending(store, parents, from + 1);
    }
}

} // verus!
