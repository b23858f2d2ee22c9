//! The training pipeline on the GPU: which passes a step runs, which buffers
//! they bind, and how the double-buffered states change hands.

use crate::gpu::{group_count, BindingKind, Groups, Start, Usage};
use vstd::prelude::*;

verus! {

use crate::gpu::binds_as;

pub const N_RES: usize = 4096;

pub const D_MODEL: usize = 512;

pub const RANK_R: usize = 32;

pub const VOCAB_SIZE: usize = 50_000;

pub const TOP_K: usize = 200;

#[derive(Debug, Clone, Copy, PartialEq, Eq, Structural)]
pub enum Stage {
    Reservoir,
    Projections,
    Hebbian,
    Aggregate,
    Logits,
}

/// A buffer of the training pipeline. The memories, their resting states and
/// their parameters exist once for each layer.
#[derive(Debug, Clone, Copy, PartialEq, Eq, Structural)]
pub enum Slot {
    RMatrix,
    WIn,
    /// One of the two reservoir states.
    State { ping: usize },
    Input,
    Error,
    Hidden,
    WUpAll,
    WDownAll,
    WOut,
    LocalStates,
    LocalErrors,
    Readouts,
    /// One of the two memories of a layer.
    Memory { layer: usize, ping: usize },
    RestingMemory { layer: usize },
    HebbianParams { layer: usize },
    LayerIndex { layer: usize },
    NumLayers,
    OutputEmbeddings,
    OutputBias,
    Logits,
}

/// One shader run: its bindings in order, and its workgroups.
#[derive(Debug, Clone)]
pub struct Pass {
    pub stage: Stage,
    pub bindings: Vec<Slot>,
    pub groups: Groups,
}

/// What a pass consists of.
pub struct PassModel {
    pub stage: Stage,
    pub bindings: Seq<Slot>,
    pub groups: Groups,
}

impl View for Pass {
    type V = PassModel;

    open spec fn view(&self) -> PassModel {
        PassModel { stage: self.stage, bindings: self.bindings@, groups: self.groups }
    }
}

/// How the shader of a stage sees its buffers.
pub open spec fn layout_of(stage: Stage) -> Seq<BindingKind> {
    let ro = BindingKind::ReadOnly;
    let rw = BindingKind::ReadWrite;
    let uni = BindingKind::Uniform;
    match stage {
        Stage::Reservoir => seq![ro, ro, ro, ro, rw],
        Stage::Projections => seq![ro, ro, ro, ro, rw, rw, uni],
        Stage::Hebbian => seq![ro, ro, ro, ro, rw, rw, uni, uni],
        Stage::Aggregate => seq![ro, ro, ro, rw, uni],
        Stage::Logits => seq![ro, ro, ro, rw],
    }
}

/// The reservoir reads the state `ping` and writes the other one.
pub open spec fn reservoir_pass(ping: usize) -> PassModel {
    PassModel {
        stage: Stage::Reservoir,
        bindings: seq![
            Slot::RMatrix,
            Slot::WIn,
            Slot::State { ping },
            Slot::Input,
            Slot::State { ping: (1 - ping) as usize },
        ],
        groups: Groups { x: 64, y: 1, z: 1 },
    }
}

pub open spec fn projections_pass(ping: usize, num_layers: usize) -> PassModel {
    PassModel {
        stage: Stage::Projections,
        bindings: seq![
            Slot::State { ping },
            Slot::Error,
            Slot::WUpAll,
            Slot::WDownAll,
            Slot::LocalStates,
            Slot::LocalErrors,
            Slot::NumLayers,
        ],
        groups: Groups { x: num_layers as u32, y: 1, z: 1 },
    }
}

/// A layer reads its memory `ping` and writes the other one.
pub open spec fn hebbian_pass(layer: usize, ping: usize) -> PassModel {
    PassModel {
        stage: Stage::Hebbian,
        bindings: seq![
            Slot::Memory { layer, ping },
            Slot::LocalErrors,
            Slot::LocalStates,
            Slot::RestingMemory { layer },
            Slot::Memory { layer, ping: (1 - ping) as usize },
            Slot::Readouts,
            Slot::HebbianParams { layer },
            Slot::LayerIndex { layer },
        ],
        groups: Groups { x: 1, y: 16, z: 1 },
    }
}

pub open spec fn aggregate_pass(ping: usize) -> PassModel {
    PassModel {
        stage: Stage::Aggregate,
        bindings: seq![
            Slot::State { ping },
            Slot::Readouts,
            Slot::WOut,
            Slot::Hidden,
            Slot::NumLayers,
        ],
        groups: Groups { x: 8, y: 1, z: 1 },
    }
}

pub open spec fn logits_pass() -> PassModel {
    PassModel {
        stage: Stage::Logits,
        bindings: seq![
            Slot::OutputEmbeddings,
            Slot::OutputBias,
            Slot::Hidden,
            Slot::Logits,
        ],
        groups: Groups { x: 196, y: 1, z: 1 },
    }
}

/// The number of values that a buffer holds.
pub open spec fn words_of(slot: Slot, num_layers: int) -> int {
    match slot {
        Slot::RMatrix => 4096int * 4096,
        Slot::WIn => 4096int * 512,
        Slot::State { .. } => 4096int,
        Slot::Input | Slot::Error | Slot::Hidden => 512int,
        Slot::WUpAll => 4096 * (32 * num_layers),
        Slot::WDownAll => 512 * (32 * num_layers),
        Slot::WOut => 512int * 4096,
        Slot::LocalStates | Slot::LocalErrors | Slot::Readouts => 32 * num_layers,
        Slot::Memory { .. } | Slot::RestingMemory { .. } => 32int * 32,
        Slot::HebbianParams { .. } => 8int,
        Slot::LayerIndex { .. } | Slot::NumLayers => 1int,
        Slot::OutputEmbeddings => 50_000int * 512,
        Slot::OutputBias | Slot::Logits => 50_000int,
    }
}

/// How the shader of a stage sees its buffers.
pub fn binding_layout(stage: Stage) -> (kinds: Vec<BindingKind>)
    ensures
        kinds@ == layout_of(stage),
        kinds@.len() == (match stage {
            Stage::Reservoir => 5nat,
            Stage::Projections => 7nat,
            Stage::Hebbian => 8nat,
            Stage::Aggregate => 5nat,
            Stage::Logits => 4nat,
        }),
        forall|j: int|
            0 <= j < kinds@.len() ==> {
                let written = match stage {
                    Stage::Reservoir => j == 4,
                    Stage::Projections => j == 4 || j == 5,
                    Stage::Hebbian => j == 4 || j == 5,
                    Stage::Aggregate => j == 3,
                    Stage::Logits => j == 3,
                };
                let constant = match stage {
                    Stage::Projections => j == 6,
                    Stage::Hebbian => j == 6 || j == 7,
                    Stage::Aggregate => j == 4,
                    _ => false,
                };
                &&& #[trigger] kinds@[j] is ReadWrite <==> written
                &&& kinds@[j] is Uniform <==> constant
            },
{
    let ro = BindingKind::ReadOnly;
    let rw = BindingKind::ReadWrite;
    let uni = BindingKind::Uniform;
    let kinds = match stage {
        Stage::Reservoir => vec![ro, ro, ro, ro, rw],
        Stage::Projections => vec![ro, ro, ro, ro, rw, rw, uni],
        Stage::Hebbian => vec![ro, ro, ro, ro, rw, rw, uni, uni],
        Stage::Aggregate => vec![ro, ro, ro, rw, uni],
        Stage::Logits => vec![ro, ro, ro, rw],
    };
    assert(kinds@ =~= layout_of(stage));
    kinds
}

/// The number of values that a buffer holds.
pub fn buffer_words(slot: Slot, num_layers: usize) -> (n: usize)
    requires
        words_of(slot, num_layers as int) <= usize::MAX,
    ensures
        n == words_of(slot, num_layers as int),
        match slot {
            Slot::RMatrix => n == 4096 * 4096,
            Slot::WIn | Slot::WOut => n == 4096 * 512,
            Slot::State { .. } => n == 4096,
            Slot::Input | Slot::Error | Slot::Hidden => n == 512,
            Slot::WUpAll => n == 131_072 * num_layers,
            Slot::WDownAll => n == 16_384 * num_layers,
            Slot::LocalStates | Slot::LocalErrors | Slot::Readouts => n == num_layers * 32,
            Slot::Memory { .. } | Slot::RestingMemory { .. } => n == 32 * 32,
            Slot::HebbianParams { .. } => n == 8,
            Slot::LayerIndex { .. } | Slot::NumLayers => n == 1,
            Slot::OutputEmbeddings => n == 50_000 * 512,
            Slot::OutputBias | Slot::Logits => n == 50_000,
        },
{
    match slot {
        Slot::RMatrix => N_RES * N_RES,
        Slot::WIn => N_RES * D_MODEL,
        Slot::State { .. } => N_RES,
        Slot::Input => D_MODEL,
        Slot::Error => D_MODEL,
        Slot::Hidden => D_MODEL,
        Slot::WUpAll => N_RES * (RANK_R * num_layers),
        Slot::WDownAll => D_MODEL * (RANK_R * num_layers),
        Slot::WOut => D_MODEL * N_RES,
        Slot::LocalStates => RANK_R * num_layers,
        Slot::LocalErrors => RANK_R * num_layers,
        Slot::Readouts => RANK_R * num_layers,
        Slot::Memory { .. } => RANK_R * RANK_R,
        Slot::RestingMemory { .. } => RANK_R * RANK_R,
        Slot::HebbianParams { .. } => 8,
        Slot::LayerIndex { .. } => 1,
        Slot::NumLayers => 1,
        Slot::OutputEmbeddings => VOCAB_SIZE * D_MODEL,
        Slot::OutputBias => VOCAB_SIZE,
        Slot::Logits => VOCAB_SIZE,
    }
}

/// A buffer to be made.
#[derive(Debug, Clone, Copy, PartialEq, Eq, Structural)]
pub struct BufferPlan {
    pub slot: Slot,
    pub usage: Usage,
    pub start: Start,
}

/// The buffers that exist once.
pub open spec fn shared_slots() -> Seq<Slot> {
    seq![
        Slot::RMatrix,
        Slot::WIn,
        Slot::State { ping: 0 },
        Slot::State { ping: 1 },
        Slot::Input,
        Slot::Error,
        Slot::Hidden,
        Slot::WUpAll,
        Slot::WDownAll,
        Slot::WOut,
        Slot::LocalStates,
        Slot::LocalErrors,
        Slot::Readouts,
        Slot::NumLayers,
        Slot::OutputEmbeddings,
        Slot::OutputBias,
        Slot::Logits,
    ]
}

/// The buffers of a layer.
pub open spec fn layer_slots(layer: usize) -> Seq<Slot> {
    seq![
        Slot::Memory { layer, ping: 0 },
        Slot::Memory { layer, ping: 1 },
        Slot::RestingMemory { layer },
        Slot::HebbianParams { layer },
        Slot::LayerIndex { layer },
    ]
}

/// What the buffer of a slot is made for.
pub open spec fn usage_of(slot: Slot) -> Usage {
    match slot {
        Slot::HebbianParams { .. } | Slot::LayerIndex { .. } | Slot::NumLayers => Usage::Uniform,
        _ => Usage::Storage,
    }
}

/// What the buffer of a slot holds at first: both memories of a layer begin at
/// rest, states and results at zero.
pub open spec fn start_of(slot: Slot, num_layers: usize) -> Start {
    match slot {
        Slot::RMatrix
        | Slot::WIn
        | Slot::WUpAll
        | Slot::WDownAll
        | Slot::WOut
        | Slot::Memory { .. }
        | Slot::RestingMemory { .. }
        | Slot::OutputEmbeddings
        | Slot::OutputBias => Start::Weights,
        Slot::NumLayers => Start::Word { word: num_layers as u32 },
        Slot::LayerIndex { layer } => Start::Word { word: layer as u32 },
        _ => Start::Zeros { words: words_of(slot, num_layers as int) as usize },
    }
}

pub open spec fn plan_of(slot: Slot, num_layers: usize) -> BufferPlan {
    BufferPlan { slot, usage: usage_of(slot), start: start_of(slot, num_layers) }
}

/// All buffers of a system with `num_layers` layers.
pub open spec fn planned_slots(num_layers: nat) -> Seq<Slot> {
    Seq::new(
        17 + 5 * num_layers,
        |i: int|
            if i < 17 {
                shared_slots()[i]
            } else {
                layer_slots(((i - 17) / 5) as usize)[(i - 17) % 5]
            },
    )
}

/// All buffers of a system with `num_layers` layers, each with what it is made
/// for and what it holds at first.
pub open spec fn planned_buffers(num_layers: usize) -> Seq<BufferPlan> {
    planned_slots(num_layers as nat).map_values(|slot: Slot| plan_of(slot, num_layers))
}

/// The plan for the buffer of a slot.
fn plan_buffer(slot: Slot, num_layers: usize) -> (plan: BufferPlan)
    requires
        4096 * (32 * num_layers) <= usize::MAX,
    ensures
        plan == plan_of(slot, num_layers),
        plan.slot == slot,
        plan.usage is Uniform <==> slot is HebbianParams || slot is LayerIndex || slot is NumLayers,
        match slot {
            Slot::NumLayers => plan.start == (Start::Word { word: num_layers as u32 }),
            Slot::LayerIndex { layer } => plan.start == (Start::Word { word: layer as u32 }),
            Slot::State { .. } => plan.start == (Start::Zeros { words: 4096 }),
            Slot::Input | Slot::Error | Slot::Hidden => plan.start == (Start::Zeros { words: 512 }),
            Slot::LocalStates | Slot::LocalErrors | Slot::Readouts => plan.start matches Start::Zeros {
                words,
            } && words == num_layers * 32,
            Slot::HebbianParams { .. } => plan.start == (Start::Zeros { words: 8 }),
            Slot::Logits => plan.start == (Start::Zeros { words: 50_000 }),
            _ => plan.start is Weights,
        },
{
    let usage = match slot {
        Slot::HebbianParams { .. } => Usage::Uniform,
        Slot::LayerIndex { .. } => Usage::Uniform,
        Slot::NumLayers => Usage::Uniform,
        _ => Usage::Storage,
    };
    let start = match slot {
        Slot::RMatrix => Start::Weights,
        Slot::WIn => Start::Weights,
        Slot::WUpAll => Start::Weights,
        Slot::WDownAll => Start::Weights,
        Slot::WOut => Start::Weights,
        Slot::Memory { .. } => Start::Weights,
        Slot::RestingMemory { .. } => Start::Weights,
        Slot::OutputEmbeddings => Start::Weights,
        Slot::OutputBias => Start::Weights,
        Slot::NumLayers => {
            #[verifier::truncate]
            let word: u32 = num_layers as u32;
            Start::Word { word }
        },
        Slot::LayerIndex { layer } => {
            #[verifier::truncate]
            let word: u32 = layer as u32;
            Start::Word { word }
        },
        _ => Start::Zeros { words: buffer_words(slot, num_layers) },
    };
    BufferPlan { slot, usage, start }
}

/// The buffers to be made for a system with `num_layers` layers.
pub fn buffer_plan(num_layers: usize) -> (plans: Vec<BufferPlan>)
    requires
        4096 * (32 * num_layers) <= usize::MAX,
    ensures
        plans@ == planned_buffers(num_layers),
{
    let ghost whole = planned_buffers(num_layers);
    let shared: [Slot; 17] = [
        Slot::RMatrix,
        Slot::WIn,
        Slot::State { ping: 0 },
        Slot::State { ping: 1 },
        Slot::Input,
        Slot::Error,
        Slot::Hidden,
        Slot::WUpAll,
        Slot::WDownAll,
        Slot::WOut,
        Slot::LocalStates,
        Slot::LocalErrors,
        Slot::Readouts,
        Slot::NumLayers,
        Slot::OutputEmbeddings,
        Slot::OutputBias,
        Slot::Logits,
    ];
    assert(shared@ =~= shared_slots());
    let mut plans: Vec<BufferPlan> = Vec::new();
    let mut i: usize = 0;
    while i < 17
        invariant
            i <= 17,
            4096 * (32 * num_layers) <= usize::MAX,
            shared@ == shared_slots(),
            whole == planned_buffers(num_layers),
            plans@ == whole.take(i as int),
        decreases 17 - i,
    {
        plans.push(plan_buffer(shared[i], num_layers));
        assert(plans@ =~= whole.take(i + 1));
        i += 1;
    }
    let mut layer: usize = 0;
    while layer < num_layers
        invariant
            layer <= num_layers,
            4096 * (32 * num_layers) <= usize::MAX,
            whole == planned_buffers(num_layers),
            plans@ == whole.take(17 + 5 * layer),
        decreases num_layers - layer,
    {
        plans.push(plan_buffer(Slot::Memory { layer, ping: 0 }, num_layers));
        plans.push(plan_buffer(Slot::Memory { layer, ping: 1 }, num_layers));
        plans.push(plan_buffer(Slot::RestingMemory { layer }, num_layers));
        plans.push(plan_buffer(Slot::HebbianParams { layer }, num_layers));
        plans.push(plan_buffer(Slot::LayerIndex { layer }, num_layers));
        proof {
            let at = 17 + 5 * layer;
            assert forall|j: int| 0 <= j < 5 implies whole[at + j] == plan_of(
                #[trigger] layer_slots(layer)[j],
                num_layers,
            ) by {
                assert((at + j - 17) / 5 == layer && (at + j - 17) % 5 == j);
            }
            assert(whole[at + 0].slot == layer_slots(layer)[0]);
            assert(whole[at + 1].slot == layer_slots(layer)[1]);
            assert(whole[at + 2].slot == layer_slots(layer)[2]);
            assert(whole[at + 3].slot == layer_slots(layer)[3]);
            assert(whole[at + 4].slot == layer_slots(layer)[4]);
            assert(plans@ =~= whole.take(17 + 5 * (layer + 1)));
        }
        layer += 1;
    }
    assert(whole.take(17 + 5 * num_layers) =~= whole);
    plans
}

/// Which of the two buffers of each state holds the current one.
#[derive(Debug, Clone)]
pub struct GpuContext {
    pub s_ping: usize,
    pub m_ping: Vec<usize>,
    pub num_layers: usize,
}

/// Every index is 0 or 1.
pub open spec fn pings(m_ping: Seq<usize>) -> bool {
    forall|l: int| 0 <= l < m_ping.len() ==> (#[trigger] m_ping[l]) < 2
}

/// The memory passes of the first `n` layers.
pub open spec fn hebbian_passes(m_ping: Seq<usize>, n: nat) -> Seq<PassModel> {
    Seq::new(n, |l: int| hebbian_pass(l as usize, m_ping[l]))
}

/// The passes of one training step, in order.
pub open spec fn step_passes(s_ping: usize, m_ping: Seq<usize>, num_layers: usize) -> Seq<
    PassModel,
> {
    let next = (1 - s_ping) as usize;
    seq![reservoir_pass(s_ping), projections_pass(next, num_layers)] + hebbian_passes(
        m_ping,
        num_layers as nat,
    ) + seq![aggregate_pass(next), logits_pass()]
}

/// Both reservoir states.
pub open spec fn state_slots() -> Seq<Slot> {
    seq![Slot::State { ping: 0 }, Slot::State { ping: 1 }]
}

/// Both memories of each of the first `n` layers.
pub open spec fn memory_slots(n: nat) -> Seq<Slot> {
    Seq::new(2 * n, |i: int| Slot::Memory { layer: (i / 2) as usize, ping: (i % 2) as usize })
}

/// The current state and the scores.
pub open spec fn stable_point(s_ping: usize) -> Seq<Slot> {
    seq![Slot::State { ping: s_ping }, Slot::Logits]
}

/// The current memories of the first `n` layers.
pub open spec fn current_memories(m_ping: Seq<usize>, n: nat) -> Seq<Slot> {
    Seq::new(n, |l: int| Slot::Memory { layer: l as usize, ping: m_ping[l] })
}

impl GpuContext {
    pub open spec fn well_formed(&self) -> bool {
        &&& self.s_ping < 2
        &&& self.m_ping@.len() == self.num_layers
        &&& pings(self.m_ping@)
        &&& self.num_layers <= u32::MAX
    }

    pub fn new(num_layers: usize) -> (out: Self)
        requires
            num_layers <= u32::MAX,
        ensures
            out.well_formed(),
            out.num_layers == num_layers,
            out.s_ping == 0,
            forall|l: int| 0 <= l < num_layers ==> #[trigger] out.m_ping@[l] == 0,
    {
        GpuContext { s_ping: 0, m_ping: vec![0usize; num_layers], num_layers }
    }

    /// Advance the reservoir: read the current state, write the other one, and
    /// make that the current one.
    pub fn dispatch_reservoir(&mut self) -> (pass: Pass)
        requires
            old(self).well_formed(),
        ensures
            final(self).well_formed(),
            final(self).m_ping == old(self).m_ping,
            final(self).num_layers == old(self).num_layers,
            final(self).s_ping == 1 - old(self).s_ping,
            pass@ == reservoir_pass(old(self).s_ping),
            pass.stage is Reservoir,
            pass.bindings@ == seq![
                Slot::RMatrix,
                Slot::WIn,
                Slot::State { ping: old(self).s_ping },
                Slot::Input,
                Slot::State { ping: (1 - old(self).s_ping) as usize },
            ],
            pass.groups == (Groups { x: 64, y: 1, z: 1 }),
    {
        let prev: usize = self.s_ping;
        let next: usize = 1 - prev;
        let bindings = vec![
            Slot::RMatrix,
            Slot::WIn,
            Slot::State { ping: prev },
            Slot::Input,
            Slot::State { ping: next },
        ];
        assert(bindings@ =~= reservoir_pass(prev).bindings);
        self.s_ping = next;
        Pass {
            stage: Stage::Reservoir,
            bindings,
            groups: Groups { x: group_count(N_RES as u32, 64), y: 1, z: 1 },
        }
    }

    /// Project the state and the error into the subspace of every layer.
    pub fn dispatch_projections(&self) -> (pass: Pass)
        requires
            self.well_formed(),
        ensures
            pass@ == projections_pass(self.s_ping, self.num_layers),
            pass.stage is Projections,
            pass.bindings@ == seq![
                Slot::State { ping: self.s_ping },
                Slot::Error,
                Slot::WUpAll,
                Slot::WDownAll,
                Slot::LocalStates,
                Slot::LocalErrors,
                Slot::NumLayers,
            ],
            pass.groups == (Groups { x: self.num_layers as u32, y: 1, z: 1 }),
    {
        let bindings = vec![
            Slot::State { ping: self.s_ping },
            Slot::Error,
            Slot::WUpAll,
            Slot::WDownAll,
            Slot::LocalStates,
            Slot::LocalErrors,
            Slot::NumLayers,
        ];
        assert(bindings@ =~= projections_pass(self.s_ping, self.num_layers).bindings);
        Pass {
            stage: Stage::Projections,
            bindings,
            groups: Groups { x: self.num_layers as u32, y: 1, z: 1 },
        }
    }

    /// Advance the memory of a layer: read the current one, write the other
    /// one, and make that the current one.
    pub fn dispatch_hebbian(&mut self, layer_idx: usize) -> (pass: Pass)
        requires
            old(self).well_formed(),
            layer_idx < old(self).num_layers,
        ensures
            final(self).well_formed(),
            final(self).s_ping == old(self).s_ping,
            final(self).num_layers == old(self).num_layers,
            final(self).m_ping@ == old(self).m_ping@.update(
                layer_idx as int,
                (1 - old(self).m_ping@[layer_idx as int]) as usize,
            ),
            pass@ == hebbian_pass(layer_idx, old(self).m_ping@[layer_idx as int]),
            pass.stage is Hebbian,
            ({
                let ping = old(self).m_ping@[layer_idx as int];
                pass.bindings@ == seq![
                    Slot::Memory { layer: layer_idx, ping },
                    Slot::LocalErrors,
                    Slot::LocalStates,
                    Slot::RestingMemory { layer: layer_idx },
                    Slot::Memory { layer: layer_idx, ping: (1 - ping) as usize },
                    Slot::Readouts,
                    Slot::HebbianParams { layer: layer_idx },
                    Slot::LayerIndex { layer: layer_idx },
                ]
            }),
            pass.groups == (Groups { x: 1, y: 16, z: 1 }),
    {
        let layer: usize = layer_idx;
        let prev: usize = self.m_ping[layer];
        let next: usize = 1 - prev;
        let bindings = vec![
            Slot::Memory { layer, ping: prev },
            Slot::LocalErrors,
            Slot::LocalStates,
            Slot::RestingMemory { layer },
            Slot::Memory { layer, ping: next },
            Slot::Readouts,
            Slot::HebbianParams { layer },
            Slot::LayerIndex { layer },
        ];
        assert(bindings@ =~= hebbian_pass(layer, prev).bindings);
        self.m_ping.set(layer, next);
        Pass { stage: Stage::Hebbian, bindings, groups: Groups { x: 1, y: 16, z: 1 } }
    }

    /// Combine the state and the read-outs of all layers.
    pub fn dispatch_aggregate(&self) -> (pass: Pass)
        requires
            self.well_formed(),
        ensures
            pass@ == aggregate_pass(self.s_ping),
            pass.stage is Aggregate,
            pass.bindings@ == seq![
                Slot::State { ping: self.s_ping },
                Slot::Readouts,
                Slot::WOut,
                Slot::Hidden,
                Slot::NumLayers,
            ],
            pass.groups == (Groups { x: 8, y: 1, z: 1 }),
    {
        let bindings = vec![
            Slot::State { ping: self.s_ping },
            Slot::Readouts,
            Slot::WOut,
            Slot::Hidden,
            Slot::NumLayers,
        ];
        assert(bindings@ =~= aggregate_pass(self.s_ping).bindings);
        Pass {
            stage: Stage::Aggregate,
            bindings,
            groups: Groups { x: group_count(D_MODEL as u32, 64), y: 1, z: 1 },
        }
    }

    /// Score every token.
    pub fn dispatch_logits(&self) -> (pass: Pass)
        ensures
            pass@ == logits_pass(),
            pass.stage is Logits,
            pass.bindings@ == seq![
                Slot::OutputEmbeddings,
                Slot::OutputBias,
                Slot::Hidden,
                Slot::Logits,
            ],
            pass.groups == (Groups { x: 196, y: 1, z: 1 }),
    {
        let bindings = vec![
            Slot::OutputEmbeddings,
            Slot::OutputBias,
            Slot::Hidden,
            Slot::Logits,
        ];
        assert(bindings@ =~= logits_pass().bindings);
        Pass {
            stage: Stage::Logits,
            bindings,
            groups: Groups { x: group_count(VOCAB_SIZE as u32, 256), y: 1, z: 1 },
        }
    }

    /// All passes of one training step.
    pub fn forward_step(&mut self) -> (passes: Vec<Pass>)
        requires
            old(self).well_formed(),
        ensures
            final(self).well_formed(),
            final(self).num_layers == old(self).num_layers,
            final(self).s_ping == 1 - old(self).s_ping,
            final(self).m_ping@ == old(self).m_ping@.map_values(|p: usize| (1 - p) as usize),
            passes@.map_values(|p: Pass| p@) == step_passes(
                old(self).s_ping,
                old(self).m_ping@,
                old(self).num_layers,
            ),
    {
        let ghost first = *self;
        let ghost next = (1 - first.s_ping) as usize;
        let mut passes: Vec<Pass> = Vec::new();
        let pass = self.dispatch_reservoir();
        passes.push(pass);
        let pass = self.dispatch_projections();
        passes.push(pass);
        let ghost head = seq![
            reservoir_pass(first.s_ping),
            projections_pass(next, first.num_layers),
        ];
        assert(passes@.map_values(|p: Pass| p@) =~= head + hebbian_passes(first.m_ping@, 0));
        let n: usize = self.num_layers;
        let mut l: usize = 0;
        while l < n
            invariant
                first.well_formed(),
                n == first.num_layers,
                next == 1 - first.s_ping,
                l <= n,
                self.well_formed(),
                self.num_layers == n,
                self.s_ping == next,
                forall|k: int| l <= k < n ==> #[trigger] self.m_ping@[k] == first.m_ping@[k],
                forall|k: int|
                    0 <= k < l ==> #[trigger] self.m_ping@[k] == 1 - first.m_ping@[k],
                passes@.map_values(|p: Pass| p@) == head + hebbian_passes(
                    first.m_ping@,
                    l as nat,
                ),
            decreases n - l,
        {
            let ghost before = passes@.map_values(|p: Pass| p@);
            let pass = self.dispatch_hebbian(l);
            passes.push(pass);
            assert(passes@.map_values(|p: Pass| p@) =~= before.push(pass@));
            assert(before.push(pass@) =~= head + hebbian_passes(first.m_ping@, (l + 1) as nat));
            l += 1;
        }
        let pass = self.dispatch_aggregate();
        passes.push(pass);
        let pass = self.dispatch_logits();
        passes.push(pass);
        assert(passes@.map_values(|p: Pass| p@) =~= step_passes(
            first.s_ping,
            first.m_ping@,
            first.num_layers,
        ));
        assert(self.m_ping@ =~= first.m_ping@.map_values(|p: usize| (1 - p) as usize));
        passes
    }

    /// What is read back after a step: the current state and the scores.
    pub fn readback_stable_point(&self) -> (slots: Vec<Slot>)
        ensures
            slots@ == stable_point(self.s_ping),
            slots@ == seq![Slot::State { ping: self.s_ping }, Slot::Logits],
    {
        let slots = vec![Slot::State { ping: self.s_ping }, Slot::Logits];
        assert(slots@ =~= stable_point(self.s_ping));
        slots
    }

    /// What is read back at a checkpoint: the current state, the scores, and
    /// the current memory of each of the first `num_layers` layers.
    pub fn readback_all(&self, num_layers: usize) -> (slots: Vec<Slot>)
        requires
            self.well_formed(),
            num_layers <= self.num_layers,
        ensures
            slots@ == stable_point(self.s_ping) + current_memories(
                self.m_ping@,
                num_layers as nat,
            ),
            slots@.len() == 2 + num_layers,
            slots@[0] == (Slot::State { ping: self.s_ping }),
            slots@[1] == Slot::Logits,
            forall|l: int|
                0 <= l < num_layers ==> #[trigger] slots@[2 + l] == (Slot::Memory {
                    layer: l as usize,
                    ping: self.m_ping@[l],
                }),
    {
        let mut slots = self.readback_stable_point();
        let mut layer: usize = 0;
        assert(slots@ =~= stable_point(self.s_ping) + current_memories(self.m_ping@, 0));
        while layer < num_layers
            invariant
                self.well_formed(),
                layer <= num_layers <= self.num_layers,
                slots@ == stable_point(self.s_ping) + current_memories(
                    self.m_ping@,
                    layer as nat,
                ),
            decreases num_layers - layer,
        {
            slots.push(Slot::Memory { layer, ping: self.m_ping[layer] });
            assert(slots@ =~= stable_point(self.s_ping) + current_memories(
                self.m_ping@,
                (layer + 1) as nat,
            ));
            layer += 1;
        }
        slots
    }

    /// Make the first buffer the current reservoir state, and list the buffers
    /// that are to be filled with zeros: both.
    pub fn reset_reservoir_state(&mut self) -> (cleared: Vec<Slot>)
        requires
            old(self).well_formed(),
        ensures
            final(self).well_formed(),
            final(self).s_ping == 0,
            final(self).m_ping == old(self).m_ping,
            final(self).num_layers == old(self).num_layers,
            cleared@ == state_slots(),
            cleared@ == seq![Slot::State { ping: 0 }, Slot::State { ping: 1 }],
    {
        self.s_ping = 0;
        let cleared = vec![Slot::State { ping: 0 }, Slot::State { ping: 1 }];
        assert(cleared@ =~= state_slots());
        cleared
    }

    /// Make the first buffer the current memory of each of the first
    /// `num_layers` layers, and list the buffers that are to be filled with
    /// zeros: both of each of these layers.
    pub fn reset_m_states(&mut self, num_layers: usize) -> (cleared: Vec<Slot>)
        requires
            old(self).well_formed(),
            num_layers <= old(self).num_layers,
        ensures
            final(self).well_formed(),
            final(self).s_ping == old(self).s_ping,
            final(self).num_layers == old(self).num_layers,
            forall|l: int|
                0 <= l < old(self).num_layers ==> #[trigger] final(self).m_ping@[l] == (if l
                    < num_layers {
                    0
                } else {
                    old(self).m_ping@[l]
                }),
            cleared@ == memory_slots(num_layers as nat),
            cleared@.len() == 2 * num_layers,
            forall|l: int, ping: int|
                #![trigger cleared@[2 * l + ping]]
                0 <= l < num_layers && 0 <= ping < 2 ==> cleared@[2 * l + ping] == (Slot::Memory {
                    layer: l as usize,
                    ping: ping as usize,
                }),
    {
        let mut cleared: Vec<Slot> = Vec::new();
        let mut l: usize = 0;
        assert(cleared@ =~= memory_slots(0));
        while l < num_layers
            invariant
                old(self).well_formed(),
                num_layers <= old(self).num_layers,
                l <= num_layers,
                self.well_formed(),
                self.s_ping == old(self).s_ping,
                self.num_layers == old(self).num_layers,
                forall|k: int|
                    0 <= k < old(self).num_layers ==> #[trigger] self.m_ping@[k] == (if k < l {
                        0
                    } else {
                        old(self).m_ping@[k]
                    }),
                cleared@ == memory_slots(l as nat),
            decreases num_layers - l,
        {
            self.m_ping.set(l, 0);
            cleared.push(Slot::Memory { layer: l, ping: 0 });
            cleared.push(Slot::Memory { layer: l, ping: 1 });
            assert(cleared@ =~= memory_slots((l + 1) as nat));
            l += 1;
        }
        cleared
    }
}

/// A pass binds as many buffers as its shader has bindings.
pub open spec fn fits_layout(pass: PassModel) -> bool {
    pass.bindings.len() == layout_of(pass.stage).len()
}

/// `pass` writes `slot`.
pub open spec fn writes(pass: PassModel, slot: Slot) -> bool {
    exists|j: int|
        0 <= j < pass.bindings.len() && #[trigger] pass.bindings[j] == slot && layout_of(
            pass.stage,
        )[j] == BindingKind::ReadWrite
}

/// Every pass of a step fits its shader.
pub proof fn step_fits_layouts(s_ping: usize, m_ping: Seq<usize>, num_layers: usize)
    requires
        m_ping.len() == num_layers,
    ensures
        step_passes(s_ping, m_ping, num_layers).len() == 4 + num_layers,
        forall|i: int|
            0 <= i < 4 + num_layers ==> fits_layout(
                #[trigger] step_passes(s_ping, m_ping, num_layers)[i],
            ),
{
    let passes = step_passes(s_ping, m_ping, num_layers);
    assert forall|i: int| 0 <= i < 4 + num_layers implies fits_layout(#[trigger] passes[i]) by {
        if 2 <= i < 2 + num_layers {
            assert(passes[i] == hebbian_pass((i - 2) as usize, m_ping[i - 2]));
        }
    }
}

/// The reservoir and the memories never write the buffer that they read: the
/// one written is the one that the next step reads.
pub proof fn states_change_hands(ping: usize, layer: usize)
    requires
        ping < 2,
    ensures
        ({
            let next = (1 - ping) as usize;
            &&& next < 2 && next != ping && 1 - next == ping
            &&& writes(reservoir_pass(ping), Slot::State { ping: next })
            &&& !writes(reservoir_pass(ping), Slot::State { ping })
            &&& reservoir_pass(next).bindings[2] == (Slot::State { ping: next })
            &&& writes(hebbian_pass(layer, ping), Slot::Memory { layer, ping: next })
            &&& !writes(hebbian_pass(layer, ping), Slot::Memory { layer, ping })
            &&& hebbian_pass(layer, next).bindings[0] == (Slot::Memory { layer, ping: next })
        }),
{
    let next = (1 - ping) as usize;
    let res = reservoir_pass(ping);
    assert(res.bindings[4] == Slot::State { ping: next } && layout_of(res.stage)[4]
        == BindingKind::ReadWrite);
    assert forall|j: int|
        0 <= j < res.bindings.len() && #[trigger] res.bindings[j] == (Slot::State { ping }) implies
        layout_of(res.stage)[j] != BindingKind::ReadWrite by {
        assert(res.bindings[4] == Slot::State { ping: next });
    }
    let heb = hebbian_pass(layer, ping);
    assert(heb.bindings[4] == (Slot::Memory { layer, ping: next }) && layout_of(heb.stage)[4]
        == BindingKind::ReadWrite);
    assert forall|j: int|
        0 <= j < heb.bindings.len() && #[trigger] heb.bindings[j] == (Slot::Memory {
            layer,
            ping,
        }) implies layout_of(heb.stage)[j] != BindingKind::ReadWrite by {
        assert(heb.bindings[4] == (Slot::Memory { layer, ping: next }));
        assert(heb.bindings[5] == Slot::Readouts);
    }
}

/// Within a step, what a later pass reads of the state, the projections, the
/// read-outs and the hidden vector is what an earlier pass wrote.
pub proof fn step_flows(s_ping: usize, m_ping: Seq<usize>, num_layers: usize)
    requires
        s_ping < 2,
        m_ping.len() == num_layers,
    ensures
        ({
            let passes = step_passes(s_ping, m_ping, num_layers);
            let next = (1 - s_ping) as usize;
            let n = num_layers as int;
            &&& writes(passes[0], Slot::State { ping: next })
            &&& passes[1].bindings[0] == (Slot::State { ping: next })
            &&& writes(passes[1], Slot::LocalStates)
            &&& writes(passes[1], Slot::LocalErrors)
            &&& forall|l: int|
                0 <= l < n ==> {
                    &&& (#[trigger] passes[2 + l]).bindings[1] == Slot::LocalErrors
                    &&& passes[2 + l].bindings[2] == Slot::LocalStates
                    &&& writes(passes[2 + l], Slot::Readouts)
                }
            &&& passes[2 + n].bindings[0] == (Slot::State { ping: next })
            &&& passes[2 + n].bindings[1] == Slot::Readouts
            &&& writes(passes[2 + n], Slot::Hidden)
            &&& passes[3 + n].bindings[2] == Slot::Hidden
            &&& writes(passes[3 + n], Slot::Logits)
        }),
{
    let passes = step_passes(s_ping, m_ping, num_layers);
    let next = (1 - s_ping) as usize;
    let n = num_layers as int;
    assert(passes[0].bindings[4] == Slot::State { ping: next } && layout_of(passes[0].stage)[4]
        == BindingKind::ReadWrite);
    assert(passes[1].bindings[4] == Slot::LocalStates && layout_of(passes[1].stage)[4]
        == BindingKind::ReadWrite);
    assert(passes[1].bindings[5] == Slot::LocalErrors && layout_of(passes[1].stage)[5]
        == BindingKind::ReadWrite);
    assert forall|l: int| 0 <= l < n implies {
        &&& (#[trigger] passes[2 + l]).bindings[1] == Slot::LocalErrors
        &&& passes[2 + l].bindings[2] == Slot::LocalStates
        &&& writes(passes[2 + l], Slot::Readouts)
    } by {
        assert(passes[2 + l] == hebbian_pass(l as usize, m_ping[l]));
        assert(passes[2 + l].bindings[5] == Slot::Readouts && layout_of(passes[2 + l].stage)[5]
            == BindingKind::ReadWrite);
    }
    assert(passes[2 + n] == aggregate_pass(next));
    assert(passes[2 + n].bindings[3] == Slot::Hidden && layout_of(passes[2 + n].stage)[3]
        == BindingKind::ReadWrite);
    assert(passes[3 + n] == logits_pass());
    assert(passes[3 + n].bindings[3] == Slot::Logits && layout_of(passes[3 + n].stage)[3]
        == BindingKind::ReadWrite);
}

/// Where the buffer of a slot stands among the planned ones.
spec fn place_of(slot: Slot) -> int {
    match slot {
        Slot::RMatrix => 0int,
        Slot::WIn => 1int,
        Slot::State { ping } => 2 + ping as int,
        Slot::Input => 4int,
        Slot::Error => 5int,
        Slot::Hidden => 6int,
        Slot::WUpAll => 7int,
        Slot::WDownAll => 8int,
        Slot::WOut => 9int,
        Slot::LocalStates => 10int,
        Slot::LocalErrors => 11int,
        Slot::Readouts => 12int,
        Slot::NumLayers => 13int,
        Slot::OutputEmbeddings => 14int,
        Slot::OutputBias => 15int,
        Slot::Logits => 16int,
        Slot::Memory { layer, ping } => 17 + 5 * layer + ping,
        Slot::RestingMemory { layer } => 17 + 5 * layer + 2,
        Slot::HebbianParams { layer } => 17 + 5 * layer + 3,
        Slot::LayerIndex { layer } => 17 + 5 * layer + 4,
    }
}

/// The slot names an existing layer and one of two buffers.
pub open spec fn slot_exists(slot: Slot, num_layers: nat) -> bool {
    match slot {
        Slot::State { ping } => ping < 2,
        Slot::Memory { layer, ping } => layer < num_layers && ping < 2,
        Slot::RestingMemory { layer } => layer < num_layers,
        Slot::HebbianParams { layer } => layer < num_layers,
        Slot::LayerIndex { layer } => layer < num_layers,
        _ => true,
    }
}

/// Every slot has exactly one planned buffer.
pub proof fn every_slot_is_planned(slot: Slot, num_layers: usize)
    requires
        slot_exists(slot, num_layers as nat),
    ensures
        exists|b: int|
            0 <= b < planned_buffers(num_layers).len() && #[trigger] planned_buffers(num_layers)[b]
                == plan_of(slot, num_layers),
        forall|b: int, c: int|
            0 <= b < c < planned_buffers(num_layers).len() ==> (#[trigger] planned_buffers(
                num_layers,
            )[b]).slot != (#[trigger] planned_buffers(num_layers)[c]).slot,
{
    let plans = planned_buffers(num_layers);
    let at = place_of(slot);
    assert(planned_slots(num_layers as nat)[at] == slot);
    assert(plans[at] == plan_of(slot, num_layers));
    assert forall|b: int| 0 <= b < plans.len() implies place_of((#[trigger] plans[b]).slot)
        == b by {
        if b >= 17 {
            let l = (b - 17) / 5;
            let j = (b - 17) % 5;
            assert(b == 17 + 5 * l + j);
            assert(plans[b].slot == layer_slots(l as usize)[j]);
        }
    }
}

/// Whatever a pass of a step binds has been planned, and is made for what the
/// shader expects there.
pub proof fn step_is_provided_for(
    s_ping: usize,
    m_ping: Seq<usize>,
    num_layers: usize,
    i: int,
    j: int,
)
    requires
        s_ping < 2,
        m_ping.len() == num_layers,
        pings(m_ping),
        0 <= i < 4 + num_layers,
        0 <= j < step_passes(s_ping, m_ping, num_layers)[i].bindings.len(),
    ensures
        ({
            let pass = step_passes(s_ping, m_ping, num_layers)[i];
            &&& slot_exists(pass.bindings[j], num_layers as nat)
            &&& binds_as(usage_of(pass.bindings[j]), layout_of(pass.stage)[j])
        }),
{
    let passes = step_passes(s_ping, m_ping, num_layers);
    if 2 <= i < 2 + num_layers {
        assert(passes[i] == hebbian_pass((i - 2) as usize, m_ping[i - 2]));
        assert(m_ping[i - 2] < 2);
    }
}

/// What is read back after a step, or at a checkpoint behind it, is what the
/// step wrote.
pub proof fn readback_is_of_step(s_ping: usize, m_ping: Seq<usize>, num_layers: usize)
    requires
        s_ping < 2,
        m_ping.len() == num_layers,
        pings(m_ping),
    ensures
        ({
            let passes = step_passes(s_ping, m_ping, num_layers);
            let n = num_layers as int;
            let stable = stable_point((1 - s_ping) as usize);
            let memories = current_memories(
                m_ping.map_values(|p: usize| (1 - p) as usize),
                num_layers as nat,
            );
            &&& writes(passes[0], stable[0])
            &&& writes(passes[3 + n], stable[1])
            &&& forall|l: int| 0 <= l < n ==> writes(passes[2 + l], #[trigger] memories[l])
        }),
{
    let passes = step_passes(s_ping, m_ping, num_layers);
    let n = num_layers as int;
    step_flows(s_ping, m_ping, num_layers);
    let memories = current_memories(
        m_ping.map_values(|p: usize| (1 - p) as usize),
        num_layers as nat,
    );
    assert forall|l: int| 0 <= l < n implies writes(passes[2 + l], #[trigger] memories[l]) by {
        assert(passes[2 + l] == hebbian_pass(l as usize, m_ping[l]));
        states_change_hands(m_ping[l], l as usize);
    }
}

/// Every buffer fits the limit that is asked of the device, for up to 512
/// layers.
pub proof fn buffers_fit_limit(slot: Slot, num_layers: int)
    requires
        0 <= num_layers <= 512,
    ensures
        0 <= 4 * words_of(slot, num_layers) <= crate::gpu::MAX_BUFFER_BYTES,
{
}

/// The shader of a stage writes the buffers that hold its results and reads the
/// others, of which the parameters are uniform.
pub proof fn shaders_write_their_results(stage: Stage, j: int)
    requires
        0 <= j < layout_of(stage).len(),
    ensures
        layout_of(stage).len() == (match stage {
            Stage::Reservoir => 5nat,
            Stage::Projections => 7nat,
            Stage::Hebbian => 8nat,
            Stage::Aggregate => 5nat,
            Stage::Logits => 4nat,
        }),
        layout_of(stage)[j] is ReadWrite <==> (match stage {
            Stage::Reservoir => j == 4,
            Stage::Projections => j == 4 || j == 5,
            Stage::Hebbian => j == 4 || j == 5,
            Stage::Aggregate => j == 3,
            Stage::Logits => j == 3,
        }),
        layout_of(stage)[j] is Uniform <==> (match stage {
            Stage::Projections => j == 6,
            Stage::Hebbian => j == 6 || j == 7,
            Stage::Aggregate => j == 4,
            _ => false,
        }),
{
}

/// Every pass of a step binds what its shader takes at each binding: the
/// reservoir the recurrent matrix, the input projection, the state before and
/// the input, to write the state behind it; the projections that state and the
/// error, with the upward and the downward matrices; each layer its memory, its
/// resting state and its parameters; the aggregation the state, the read-outs
/// and the output projection; the scores the embeddings, the bias and what was
/// aggregated.
pub proof fn step_binds_roles(s_ping: usize, m_ping: Seq<usize>, num_layers: usize, l: int)
    requires
        s_ping < 2,
        m_ping.len() == num_layers,
        pings(m_ping),
    ensures
        ({
            let p = step_passes(s_ping, m_ping, num_layers);
            let next = (1 - s_ping) as usize;
            let n = num_layers as int;
            let layer = l as usize;
            &&& p.len() == 4 + n
            &&& p[0].stage is Reservoir
            &&& p[0].bindings == seq![
                Slot::RMatrix,
                Slot::WIn,
                Slot::State { ping: s_ping },
                Slot::Input,
                Slot::State { ping: next },
            ]
            &&& p[1].stage is Projections
            &&& p[1].bindings == seq![
                Slot::State { ping: next },
                Slot::Error,
                Slot::WUpAll,
                Slot::WDownAll,
                Slot::LocalStates,
                Slot::LocalErrors,
                Slot::NumLayers,
            ]
            &&& 0 <= l < n ==> p[2 + l].stage is Hebbian && p[2 + l].bindings == seq![
                Slot::Memory { layer, ping: m_ping[l] },
                Slot::LocalErrors,
                Slot::LocalStates,
                Slot::RestingMemory { layer },
                Slot::Memory { layer, ping: (1 - m_ping[l]) as usize },
                Slot::Readouts,
                Slot::HebbianParams { layer },
                Slot::LayerIndex { layer },
            ]
            &&& p[2 + n].stage is Aggregate
            &&& p[2 + n].bindings == seq![
                Slot::State { ping: next },
                Slot::Readouts,
                Slot::WOut,
                Slot::Hidden,
                Slot::NumLayers,
            ]
            &&& p[3 + n].stage is Logits
            &&& p[3 + n].bindings == seq![
                Slot::OutputEmbeddings,
                Slot::OutputBias,
                Slot::Hidden,
                Slot::Logits,
            ]
        }),
{
}

/// The workgroups of a step cover their task and start none too many: 64 units
/// each for the reservoir and the aggregation, a layer each for the
/// projections, two rows of the memory each for a layer, and 256 tokens each
/// for the scores.
pub proof fn step_covers_tasks(s_ping: usize, m_ping: Seq<usize>, num_layers: usize, i: int)
    requires
        m_ping.len() == num_layers,
        num_layers <= u32::MAX,
        0 <= i < 4 + num_layers,
    ensures
        ({
            let pass = step_passes(s_ping, m_ping, num_layers)[i];
            let g = pass.groups;
            &&& g.z == 1
            &&& match pass.stage {
                Stage::Reservoir => 64 * g.x == 4096 && g.y == 1,
                Stage::Projections => g.x == num_layers && g.y == 1,
                Stage::Hebbian => g.x == 1 && 2 * g.y == 32,
                Stage::Aggregate => 64 * g.x == 512 && g.y == 1,
                Stage::Logits => 256 * (g.x - 1) < 50_000 <= 256 * g.x && g.y == 1,
            }
        }),
{
    let passes = step_passes(s_ping, m_ping, num_layers);
    if 2 <= i < 2 + num_layers {
        assert(passes[i] == hebbian_pass((i - 2) as usize, m_ping[i - 2]));
    }
}

/// What each buffer is made for, and what it holds at first: weights where it
/// belongs to the system, the number of layers or of its own layer where it is
/// one of these, and zeros otherwise, one for every value.
pub proof fn buffers_start_as_meant(slot: Slot, num_layers: usize)
    requires
        slot_exists(slot, num_layers as nat),
        4096 * (32 * num_layers) <= usize::MAX,
    ensures
        plan_of(slot, num_layers).slot == slot,
        plan_of(slot, num_layers).usage is Uniform <==> slot is HebbianParams || slot is LayerIndex
            || slot is NumLayers,
        match plan_of(slot, num_layers).start {
            Start::Weights => slot is RMatrix || slot is WIn || slot is WUpAll || slot is WDownAll
                || slot is WOut || slot is Memory || slot is RestingMemory
                || slot is OutputEmbeddings || slot is OutputBias,
            Start::Word { word } => slot == Slot::NumLayers && word == num_layers as u32
                || (slot matches Slot::LayerIndex { layer } && word == layer as u32),
            Start::Zeros { words } => match slot {
                Slot::State { .. } => words == 4096,
                Slot::Input | Slot::Error | Slot::Hidden => words == 512,
                Slot::LocalStates | Slot::LocalErrors | Slot::Readouts => words == num_layers * 32,
                Slot::HebbianParams { .. } => words == 8,
                Slot::Logits => words == 50_000,
                _ => false,
            },
        },
{
}

/// A buffer has a value for every place of what it holds.
pub proof fn buffers_hold_their_contents(slot: Slot, num_layers: int)
    ensures
        match slot {
            Slot::RMatrix => words_of(slot, num_layers) == 4096 * 4096,
            Slot::WIn | Slot::WOut => words_of(slot, num_layers) == 4096 * 512,
            Slot::State { .. } => words_of(slot, num_layers) == 4096,
            Slot::Input | Slot::Error | Slot::Hidden => words_of(slot, num_layers) == 512,
            Slot::WUpAll => words_of(slot, num_layers) == 131_072 * num_layers,
            Slot::WDownAll => words_of(slot, num_layers) == 16_384 * num_layers,
            Slot::LocalStates | Slot::LocalErrors | Slot::Readouts => words_of(slot, num_layers)
                == num_layers * 32,
            Slot::Memory { .. } | Slot::RestingMemory { .. } => words_of(slot, num_layers) == 32
                * 32,
            Slot::HebbianParams { .. } => words_of(slot, num_layers) == 8,
            Slot::LayerIndex { .. } | Slot::NumLayers => words_of(slot, num_layers) == 1,
            Slot::OutputEmbeddings => words_of(slot, num_layers) == 50_000 * 512,
            Slot::OutputBias | Slot::Logits => words_of(slot, num_layers) == 50_000,
        },
{
}

/// After two steps the buffers have the roles that they had at first, and in
/// between the state and every memory lie in the other buffer of their pair.
pub proof fn two_steps_return(s_ping: usize, m_ping: Seq<usize>, num_layers: usize, l: int)
    requires
        s_ping < 2,
        m_ping.len() == num_layers,
        pings(m_ping),
        0 <= l < num_layers,
    ensures
        ({
            let flipped = m_ping.map_values(|p: usize| (1 - p) as usize);
            let first = step_passes(s_ping, m_ping, num_layers);
            let second = step_passes((1 - s_ping) as usize, flipped, num_layers);
            &&& second[0].bindings[2] == first[0].bindings[4]
            &&& second[0].bindings[4] == first[0].bindings[2]
            &&& first[0].bindings[2] != first[0].bindings[4]
            &&& second[2 + l].bindings[0] == first[2 + l].bindings[4]
            &&& second[2 + l].bindings[4] == first[2 + l].bindings[0]
            &&& first[2 + l].bindings[0] != first[2 + l].bindings[4]
        }),
{
    let flipped = m_ping.map_values(|p: usize| (1 - p) as usize);
    step_binds_roles(s_ping, m_ping, num_layers, l);
    assert(pings(flipped));
    step_binds_roles((1 - s_ping) as usize, flipped, num_layers, l);
    assert(m_ping[l] < 2);
}

/// What a pass consists of is its stage, its bindings and its workgroups.
pub proof fn pass_is_its_parts(pass: Pass)
    ensures
        pass@.stage == pass.stage,
        pass@.bindings == pass.bindings@,
        pass@.groups == pass.groups,
{
}

/// There are no buffers but those of existing slots: seventeen that exist once,
/// and five for each layer.
pub proof fn only_slots_are_planned(num_layers: usize, b: int)
    requires
        0 <= b < planned_buffers(num_layers).len(),
    ensures
        planned_buffers(num_layers).len() == 17 + 5 * num_layers,
        match planned_buffers(num_layers)[b].slot {
            Slot::State { ping } => ping < 2,
            Slot::Memory { layer, ping } => layer < num_layers && ping < 2,
            Slot::RestingMemory { layer } => layer < num_layers,
            Slot::HebbianParams { layer } => layer < num_layers,
            Slot::LayerIndex { layer } => layer < num_layers,
            _ => b < 17,
        },
        planned_buffers(num_layers)[b] == plan_of(
            planned_buffers(num_layers)[b].slot,
            num_layers,
        ),
{
    if b >= 17 {
        let l = (b - 17) / 5;
        let j = (b - 17) % 5;
        assert(b == 17 + 5 * l + j);
        assert(planned_buffers(num_layers)[b].slot == layer_slots(l as usize)[j]);
    }
}

} // verus!
