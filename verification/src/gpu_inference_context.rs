//! The inference pipeline on the GPU: what is uploaded for a batch, which
//! passes run, which buffers they bind, and what is read back.
//!
//! A batched run goes through encoder, attention, reservoir, projections,
//! aggregation, logits and top-k sampling; a greedy run takes an encoded
//! position and goes from the reservoir to the single best token.

use crate::gpu::{group_count, split_rows, upload_image, BindingKind, Groups, Start, Usage};
use vstd::prelude::*;

verus! {

use crate::gpu::binds_as;
use crate::machine::{memory_image, memory_words_at};

pub const N_RES: usize = 4096;

pub const D_MODEL: usize = 512;

pub const RANK_R: usize = 32;

pub const VOCAB_SIZE: usize = 50_000;

/// The most sequences that one batch may have.
pub const MAX_BATCH_SIZE: usize = 32;

/// How many tokens are read back for each sequence.
pub const TOP_K_SIZE: usize = 50;

/// How many positions the attention caches hold.
pub const MAX_SEQ_LEN: usize = 1024;

/// The number of words that describe one sequence to the encoder.
pub const BATCH_INPUT_WORDS: usize = 16;

#[derive(Debug, Clone, Copy, PartialEq, Eq, Structural)]
pub enum Stage {
    Encoder,
    Attention,
    Reservoir,
    Projections,
    Aggregate,
    Logits,
    Sampling,
}

/// A buffer of the inference pipeline.
#[derive(Debug, Clone, Copy, PartialEq, Eq, Structural)]
pub enum Slot {
    BpeEmbeddings,
    WFusion,
    WPhrase,
    /// The description of each sequence.
    EncoderParams,
    Encoded,
    WQ,
    WK,
    WV,
    WO,
    KCache,
    VCache,
    Attended,
    AttentionParams,
    RMatrix,
    WIn,
    /// One of the two reservoir states.
    State { ping: usize },
    WUpAll,
    /// One of the two copies of the memories.
    Memories { ping: usize },
    LocalStates,
    Readouts,
    NumLayers,
    WOut,
    Hidden,
    PrevPrediction,
    OutputEmbeddings,
    OutputBias,
    Logits,
    TopTokens,
    TopScores,
}

/// One shader run: its bindings in order, and its workgroups.
#[derive(Debug, Clone)]
pub struct Pass {
    pub stage: Stage,
    pub bindings: Vec<Slot>,
    pub groups: Groups,
}

/// What a pass consists of.
pub struct PassModel {
    pub stage: Stage,
    pub bindings: Seq<Slot>,
    pub groups: Groups,
}

impl View for Pass {
    type V = PassModel;

    open spec fn view(&self) -> PassModel {
        PassModel { stage: self.stage, bindings: self.bindings@, groups: self.groups }
    }
}

/// How the shader of a stage sees its buffers in a batched run.
pub open spec fn layout_of(stage: Stage) -> Seq<BindingKind> {
    let ro = BindingKind::ReadOnly;
    let rw = BindingKind::ReadWrite;
    let uni = BindingKind::Uniform;
    match stage {
        Stage::Encoder => seq![ro, ro, ro, rw, ro],
        Stage::Attention => seq![ro, ro, ro, ro, ro, rw, rw, rw, uni],
        Stage::Reservoir => seq![ro, ro, ro, ro, rw],
        Stage::Projections => seq![ro, ro, ro, rw, rw, uni],
        Stage::Aggregate => seq![ro, ro, ro, rw, rw, uni],
        Stage::Logits => seq![ro, ro, ro, rw],
        Stage::Sampling => seq![rw, rw, rw],
    }
}

/// How the shader of a stage sees its buffers in a greedy run, in which only
/// sampling differs: it leaves the scores alone and gives one token.
pub open spec fn greedy_layout_of(stage: Stage) -> Seq<BindingKind> {
    match stage {
        Stage::Sampling => seq![BindingKind::ReadOnly, BindingKind::ReadWrite],
        other => layout_of(other),
    }
}

/// The passes of a batched run, in order. `s_ping` is the reservoir state that
/// is read, `m_ping` the memories in use.
pub open spec fn batch_passes(
    s_ping: usize,
    m_ping: usize,
    num_layers: usize,
    batch: u32,
) -> Seq<PassModel> {
    let next = (1 - s_ping) as usize;
    seq![
        PassModel {
            stage: Stage::Encoder,
            bindings: seq![
                Slot::BpeEmbeddings,
                Slot::WFusion,
                Slot::WPhrase,
                Slot::Encoded,
                Slot::EncoderParams,
            ],
            groups: Groups { x: 1, y: batch, z: 1 },
        },
        PassModel {
            stage: Stage::Attention,
            bindings: seq![
                Slot::Encoded,
                Slot::WQ,
                Slot::WK,
                Slot::WV,
                Slot::WO,
                Slot::KCache,
                Slot::VCache,
                Slot::Attended,
                Slot::AttentionParams,
            ],
            groups: Groups { x: 1, y: batch, z: 1 },
        },
        PassModel {
            stage: Stage::Reservoir,
            bindings: seq![
                Slot::RMatrix,
                Slot::WIn,
                Slot::State { ping: s_ping },
                Slot::Attended,
                Slot::State { ping: next },
            ],
            groups: Groups { x: 64, y: batch, z: 1 },
        },
        PassModel {
            stage: Stage::Projections,
            bindings: seq![
                Slot::State { ping: next },
                Slot::WUpAll,
                Slot::Memories { ping: m_ping },
                Slot::LocalStates,
                Slot::Readouts,
                Slot::NumLayers,
            ],
            groups: Groups { x: num_layers as u32, y: batch, z: 1 },
        },
        PassModel {
            stage: Stage::Aggregate,
            bindings: seq![
                Slot::State { ping: next },
                Slot::Readouts,
                Slot::WOut,
                Slot::Hidden,
                Slot::PrevPrediction,
                Slot::NumLayers,
            ],
            groups: Groups { x: 8, y: batch, z: 1 },
        },
        PassModel {
            stage: Stage::Logits,
            bindings: seq![
                Slot::OutputEmbeddings,
                Slot::OutputBias,
                Slot::Hidden,
                Slot::Logits,
            ],
            groups: Groups { x: 196, y: batch, z: 1 },
        },
        PassModel {
            stage: Stage::Sampling,
            bindings: seq![Slot::Logits, Slot::TopTokens, Slot::TopScores],
            groups: Groups { x: 1, y: batch, z: 1 },
        },
    ]
}

/// The passes of a greedy run: those of a batched run of one sequence from the
/// reservoir on, which reads the encoded position itself, with a sampling that
/// gives one token.
pub open spec fn greedy_passes(s_ping: usize, m_ping: usize, num_layers: usize) -> Seq<
    PassModel,
> {
    let batched = batch_passes(s_ping, m_ping, num_layers, 1);
    seq![
        PassModel {
            stage: Stage::Reservoir,
            bindings: batched[2].bindings.update(3, Slot::Encoded),
            groups: batched[2].groups,
        },
        batched[3],
        batched[4],
        batched[5],
        PassModel {
            stage: Stage::Sampling,
            bindings: seq![Slot::Logits, Slot::TopTokens],
            groups: Groups { x: 1, y: 1, z: 1 },
        },
    ]
}

/// A byte of a stream; 0 past its end.
pub open spec fn byte_or_zero(bytes: Seq<u8>, at: int) -> u32 {
    if 0 <= at < bytes.len() {
        bytes[at] as u32
    } else {
        0
    }
}

/// A token of a stream; 0 before its beginning.
pub open spec fn id_or_zero(ids: Seq<u32>, at: int) -> u32 {
    if at >= 0 {
        ids[at]
    } else {
        0
    }
}

/// How position `t` of a sequence is described to the encoder: the token there,
/// the position, the width of the phrase window, the last three bytes and the
/// last eight tokens, the latest first, and two words of padding.
pub open spec fn batch_input(
    bytes: Seq<u8>,
    t: usize,
    ids: Seq<u32>,
    phrase_window: usize,
) -> Seq<u32> {
    let at = t as int;
    seq![
        ids[at],
        t as u32,
        phrase_window as u32,
        byte_or_zero(bytes, at),
        byte_or_zero(bytes, at - 1),
        byte_or_zero(bytes, at - 2),
        id_or_zero(ids, at),
        id_or_zero(ids, at - 1),
        id_or_zero(ids, at - 2),
        id_or_zero(ids, at - 3),
        id_or_zero(ids, at - 4),
        id_or_zero(ids, at - 5),
        id_or_zero(ids, at - 6),
        id_or_zero(ids, at - 7),
        0u32,
        0u32,
    ]
}

/// The descriptions of the first `n` sequences, one after the other.
pub open spec fn batch_inputs(
    bytes: Seq<Vec<u8>>,
    t: Seq<usize>,
    ids: Seq<Vec<u32>>,
    phrase_window: usize,
    n: nat,
) -> Seq<u32>
    decreases n,
{
    if n == 0 {
        Seq::empty()
    } else {
        batch_inputs(bytes, t, ids, phrase_window, (n - 1) as nat) + batch_input(
            bytes[n - 1]@,
            t[n - 1],
            ids[n - 1]@,
            phrase_window,
        )
    }
}

/// The position has a token, and the byte before it exists.
pub open spec fn position_valid(bytes: Seq<u8>, t: usize, ids: Seq<u32>) -> bool {
    &&& t < ids.len()
    &&& t <= bytes.len()
}

/// Everything that a batched run needs.
#[derive(Debug, Clone)]
pub struct BatchPlan {
    /// What is written into the encoder's parameter buffer.
    pub encoder_params: Vec<u8>,
    /// What is written into the attention's parameter buffer.
    pub attention_params: Vec<u8>,
    pub passes: Vec<Pass>,
    /// What is read back: the best tokens and their scores.
    pub readback: Vec<Slot>,
    /// How many words of each are read back.
    pub readback_words: usize,
}

/// How the shader of a stage sees its buffers in a batched run.
pub fn binding_layout(stage: Stage) -> (kinds: Vec<BindingKind>)
    ensures
        kinds@ == layout_of(stage),
        forall|j: int|
            0 <= j < kinds@.len() ==> {
                let written = match stage {
                    Stage::Encoder => j == 3,
                    Stage::Attention => 5 <= j <= 7,
                    Stage::Reservoir => j == 4,
                    Stage::Projections => j == 3 || j == 4,
                    Stage::Aggregate => j == 3 || j == 4,
                    Stage::Logits => j == 3,
                    Stage::Sampling => true,
                };
                let constant = match stage {
                    Stage::Attention => j == 8,
                    Stage::Projections => j == 5,
                    Stage::Aggregate => j == 5,
                    _ => false,
                };
                &&& #[trigger] kinds@[j] is ReadWrite <==> written
                &&& kinds@[j] is Uniform <==> constant
            },
{
    let ro = BindingKind::ReadOnly;
    let rw = BindingKind::ReadWrite;
    let uni = BindingKind::Uniform;
    let kinds = match stage {
        Stage::Encoder => vec![ro, ro, ro, rw, ro],
        Stage::Attention => vec![ro, ro, ro, ro, ro, rw, rw, rw, uni],
        Stage::Reservoir => vec![ro, ro, ro, ro, rw],
        Stage::Projections => vec![ro, ro, ro, rw, rw, uni],
        Stage::Aggregate => vec![ro, ro, ro, rw, rw, uni],
        Stage::Logits => vec![ro, ro, ro, rw],
        Stage::Sampling => vec![rw, rw, rw],
    };
    assert(kinds@ =~= layout_of(stage));
    kinds
}

/// How the shader of a stage sees its buffers in a greedy run.
pub fn greedy_binding_layout(stage: Stage) -> (kinds: Vec<BindingKind>)
    ensures
        kinds@ == greedy_layout_of(stage),
        stage is Sampling ==> kinds@ == seq![BindingKind::ReadOnly, BindingKind::ReadWrite],
        !(stage is Sampling) ==> kinds@ == layout_of(stage),
{
    match stage {
        Stage::Sampling => {
            let kinds = vec![BindingKind::ReadOnly, BindingKind::ReadWrite];
            assert(kinds@ =~= greedy_layout_of(stage));
            kinds
        },
        _ => binding_layout(stage),
    }
}

/// The number of words of a buffer that starts out empty; none for a buffer
/// that is filled with weights. `batch` is the number of sequences for which
/// there is room.
pub open spec fn scratch_of(slot: Slot, num_layers: int, batch: int) -> Option<int> {
    match slot {
        Slot::EncoderParams => Some(16 * batch),
        Slot::AttentionParams => Some(4int),
        Slot::KCache | Slot::VCache => Some(1024 * (512 * batch)),
        Slot::Encoded | Slot::Attended | Slot::Hidden | Slot::PrevPrediction => Some(512 * batch),
        Slot::State { .. } => Some(4096 * batch),
        Slot::LocalStates | Slot::Readouts => Some(32 * (num_layers * batch)),
        Slot::Logits => Some(50_000 * batch),
        Slot::TopTokens | Slot::TopScores => Some(50 * batch),
        _ => None,
    }
}

/// The number of words of a buffer that starts out empty.
pub fn scratch_words(slot: Slot, num_layers: usize, batch: usize) -> (words: Option<usize>)
    requires
        scratch_of(slot, num_layers as int, batch as int) matches Some(n) ==> n <= usize::MAX,
    ensures
        match scratch_of(slot, num_layers as int, batch as int) {
            Some(n) => words == Some(n as usize),
            None => words is None,
        },
        match slot {
            Slot::EncoderParams => words matches Some(n) && n == 16 * batch,
            Slot::AttentionParams => words == Some(4usize),
            Slot::KCache | Slot::VCache => words matches Some(n) && n == 524_288 * batch,
            Slot::Encoded | Slot::Attended | Slot::Hidden | Slot::PrevPrediction => words matches Some(
                n,
            ) && n == 512 * batch,
            Slot::State { .. } => words matches Some(n) && n == 4096 * batch,
            Slot::LocalStates | Slot::Readouts => words matches Some(n) && n == 32 * (num_layers
                * batch),
            Slot::Logits => words matches Some(n) && n == 50_000 * batch,
            Slot::TopTokens | Slot::TopScores => words matches Some(n) && n == 50 * batch,
            _ => words is None,
        },
{
    match slot {
        Slot::EncoderParams => Some(BATCH_INPUT_WORDS * batch),
        Slot::AttentionParams => Some(4),
        Slot::KCache => Some(MAX_SEQ_LEN * (D_MODEL * batch)),
        Slot::VCache => Some(MAX_SEQ_LEN * (D_MODEL * batch)),
        Slot::Encoded => Some(D_MODEL * batch),
        Slot::Attended => Some(D_MODEL * batch),
        Slot::Hidden => Some(D_MODEL * batch),
        Slot::PrevPrediction => Some(D_MODEL * batch),
        Slot::State { .. } => Some(N_RES * batch),
        Slot::LocalStates => Some(RANK_R * (num_layers * batch)),
        Slot::Readouts => Some(RANK_R * (num_layers * batch)),
        Slot::Logits => Some(VOCAB_SIZE * batch),
        Slot::TopTokens => Some(TOP_K_SIZE * batch),
        Slot::TopScores => Some(TOP_K_SIZE * batch),
        _ => None,
    }
}

/// A buffer to be made.
#[derive(Debug, Clone, Copy, PartialEq, Eq, Structural)]
pub struct BufferPlan {
    pub slot: Slot,
    pub usage: Usage,
    pub start: Start,
}

/// The buffers of batched runs.
pub open spec fn batch_slots() -> Seq<Slot> {
    seq![
        Slot::BpeEmbeddings,
        Slot::WFusion,
        Slot::WPhrase,
        Slot::EncoderParams,
        Slot::Encoded,
        Slot::WQ,
        Slot::WK,
        Slot::WV,
        Slot::WO,
        Slot::KCache,
        Slot::VCache,
        Slot::Attended,
        Slot::AttentionParams,
        Slot::RMatrix,
        Slot::WIn,
        Slot::State { ping: 0 },
        Slot::State { ping: 1 },
        Slot::WUpAll,
        Slot::Memories { ping: 0 },
        Slot::Memories { ping: 1 },
        Slot::LocalStates,
        Slot::Readouts,
        Slot::NumLayers,
        Slot::WOut,
        Slot::Hidden,
        Slot::PrevPrediction,
        Slot::OutputEmbeddings,
        Slot::OutputBias,
        Slot::Logits,
        Slot::TopTokens,
        Slot::TopScores,
    ]
}

/// The buffers of greedy runs.
pub open spec fn greedy_slots() -> Seq<Slot> {
    seq![
        Slot::Encoded,
        Slot::RMatrix,
        Slot::WIn,
        Slot::State { ping: 0 },
        Slot::State { ping: 1 },
        Slot::WUpAll,
        Slot::Memories { ping: 0 },
        Slot::Memories { ping: 1 },
        Slot::LocalStates,
        Slot::Readouts,
        Slot::NumLayers,
        Slot::WOut,
        Slot::Hidden,
        Slot::PrevPrediction,
        Slot::OutputEmbeddings,
        Slot::OutputBias,
        Slot::Logits,
        Slot::TopTokens,
    ]
}

/// What the buffer of a slot is made for.
pub open spec fn usage_of(slot: Slot) -> Usage {
    match slot {
        Slot::AttentionParams | Slot::NumLayers => Usage::Uniform,
        _ => Usage::Storage,
    }
}

/// What the buffer of a slot holds at first.
pub open spec fn start_of(slot: Slot, num_layers: usize, batch: int) -> Start {
    match scratch_of(slot, num_layers as int, batch) {
        Some(n) => Start::Zeros { words: n as usize },
        None => match slot {
            Slot::NumLayers => Start::Word { word: num_layers as u32 },
            _ => Start::Weights,
        },
    }
}

pub open spec fn plan_of(slot: Slot, num_layers: usize, batch: int) -> BufferPlan {
    BufferPlan { slot, usage: usage_of(slot), start: start_of(slot, num_layers, batch) }
}

/// All buffers of batched runs, with room for a full batch.
pub open spec fn batch_buffers(num_layers: usize) -> Seq<BufferPlan> {
    batch_slots().map_values(|slot: Slot| plan_of(slot, num_layers, MAX_BATCH_SIZE as int))
}

/// All buffers of greedy runs, with room for one sequence and one token.
pub open spec fn greedy_buffers(num_layers: usize) -> Seq<BufferPlan> {
    greedy_slots().map_values(
        |slot: Slot|
            match slot {
                Slot::TopTokens => BufferPlan {
                    slot,
                    usage: Usage::Storage,
                    start: Start::Zeros { words: 1 },
                },
                _ => plan_of(slot, num_layers, 1),
            },
    )
}

/// The plan for the buffer of a slot.
fn plan_buffer(slot: Slot, num_layers: usize, batch: usize) -> (plan: BufferPlan)
    requires
        batch <= MAX_BATCH_SIZE,
        32 * (num_layers * batch) <= usize::MAX,
    ensures
        plan == plan_of(slot, num_layers, batch as int),
{
    let usage = match slot {
        Slot::AttentionParams => Usage::Uniform,
        Slot::NumLayers => Usage::Uniform,
        _ => Usage::Storage,
    };
    let start = match scratch_words(slot, num_layers, batch) {
        Some(words) => Start::Zeros { words },
        None => match slot {
            Slot::NumLayers => {
                #[verifier::truncate]
                let word: u32 = num_layers as u32;
                Start::Word { word }
            },
            _ => Start::Weights,
        },
    };
    BufferPlan { slot, usage, start }
}

/// The buffers to be made for batched runs.
pub fn batch_buffer_plan(num_layers: usize) -> (plans: Vec<BufferPlan>)
    requires
        32 * (num_layers * MAX_BATCH_SIZE) <= usize::MAX,
    ensures
        plans@ == batch_buffers(num_layers),
{
    let slots: [Slot; 31] = [
        Slot::BpeEmbeddings,
        Slot::WFusion,
        Slot::WPhrase,
        Slot::EncoderParams,
        Slot::Encoded,
        Slot::WQ,
        Slot::WK,
        Slot::WV,
        Slot::WO,
        Slot::KCache,
        Slot::VCache,
        Slot::Attended,
        Slot::AttentionParams,
        Slot::RMatrix,
        Slot::WIn,
        Slot::State { ping: 0 },
        Slot::State { ping: 1 },
        Slot::WUpAll,
        Slot::Memories { ping: 0 },
        Slot::Memories { ping: 1 },
        Slot::LocalStates,
        Slot::Readouts,
        Slot::NumLayers,
        Slot::WOut,
        Slot::Hidden,
        Slot::PrevPrediction,
        Slot::OutputEmbeddings,
        Slot::OutputBias,
        Slot::Logits,
        Slot::TopTokens,
        Slot::TopScores,
    ];
    assert(slots@ =~= batch_slots());
    let mut plans: Vec<BufferPlan> = Vec::new();
    let mut i: usize = 0;
    while i < 31
        invariant
            i <= 31,
            32 * (num_layers * MAX_BATCH_SIZE) <= usize::MAX,
            slots@ == batch_slots(),
            plans@ == batch_buffers(num_layers).take(i as int),
        decreases 31 - i,
    {
        plans.push(plan_buffer(slots[i], num_layers, MAX_BATCH_SIZE));
        assert(plans@ =~= batch_buffers(num_layers).take(i + 1));
        i += 1;
    }
    assert(batch_buffers(num_layers).take(31) =~= batch_buffers(num_layers));
    plans
}

/// The buffers to be made for greedy runs.
pub fn greedy_buffer_plan(num_layers: usize) -> (plans: Vec<BufferPlan>)
    requires
        32 * num_layers <= usize::MAX,
    ensures
        plans@ == greedy_buffers(num_layers),
{
    let slots: [Slot; 18] = [
        Slot::Encoded,
        Slot::RMatrix,
        Slot::WIn,
        Slot::State { ping: 0 },
        Slot::State { ping: 1 },
        Slot::WUpAll,
        Slot::Memories { ping: 0 },
        Slot::Memories { ping: 1 },
        Slot::LocalStates,
        Slot::Readouts,
        Slot::NumLayers,
        Slot::WOut,
        Slot::Hidden,
        Slot::PrevPrediction,
        Slot::OutputEmbeddings,
        Slot::OutputBias,
        Slot::Logits,
        Slot::TopTokens,
    ];
    assert(slots@ =~= greedy_slots());
    let mut plans: Vec<BufferPlan> = Vec::new();
    let mut i: usize = 0;
    while i < 18
        invariant
            i <= 18,
            32 * num_layers <= usize::MAX,
            slots@ == greedy_slots(),
            plans@ == greedy_buffers(num_layers).take(i as int),
        decreases 18 - i,
    {
        let plan = match slots[i] {
            Slot::TopTokens => BufferPlan {
                slot: Slot::TopTokens,
                usage: Usage::Storage,
                start: Start::Zeros { words: 1 },
            },
            slot => plan_buffer(slot, num_layers, 1),
        };
        plans.push(plan);
        assert(plans@ =~= greedy_buffers(num_layers).take(i + 1));
        i += 1;
    }
    assert(greedy_buffers(num_layers).take(18) =~= greedy_buffers(num_layers));
    plans
}

/// Which of the two buffers of each state holds the current one.
#[derive(Debug, Clone, Copy)]
pub struct GpuInferenceContext {
    pub s_ping: usize,
    pub m_ping: usize,
    pub num_layers: usize,
    pub phrase_window: usize,
}

fn push_pass(passes: &mut Vec<Pass>, stage: Stage, bindings: Vec<Slot>, x: u32, y: u32)
    ensures
        final(passes)@.map_values(|p: Pass| p@) == old(passes)@.map_values(|p: Pass| p@).push(
            PassModel { stage, bindings: bindings@, groups: Groups { x, y, z: 1 } },
        ),
{
    passes.push(Pass { stage, bindings, groups: Groups { x, y, z: 1 } });
    assert(passes@.map_values(|p: Pass| p@) =~= old(passes)@.map_values(|p: Pass| p@).push(
        PassModel { stage, bindings: bindings@, groups: Groups { x, y, z: 1 } },
    ));
}

impl GpuInferenceContext {
    pub open spec fn well_formed(&self) -> bool {
        &&& self.s_ping < 2
        &&& self.m_ping < 2
        &&& self.num_layers <= u32::MAX
    }

    pub fn new(num_layers: usize, phrase_window: usize) -> (out: Self)
        requires
            num_layers <= u32::MAX,
        ensures
            out.well_formed(),
            out == (GpuInferenceContext { s_ping: 0, m_ping: 0, num_layers, phrase_window }),
    {
        GpuInferenceContext { s_ping: 0, m_ping: 0, num_layers, phrase_window }
    }

    /// The description of position `t` of a sequence.
    fn push_batch_input(&self, params: &mut Vec<u32>, bytes: &[u8], t: usize, bpe_ids: &[u32])
        requires
            position_valid(bytes@, t, bpe_ids@),
        ensures
            final(params)@ == old(params)@ + batch_input(
                bytes@,
                t,
                bpe_ids@,
                self.phrase_window,
            ),
            ({
                let n = old(params)@.len() as int;
                let words = final(params)@;
                &&& words.len() == n + 16
                &&& words.take(n) == old(params)@
                &&& words[n] == bpe_ids@[t as int]
                &&& words[n + 1] == t as u32
                &&& words[n + 2] == self.phrase_window as u32
                &&& words[n + 3] == (if t < bytes@.len() {
                    bytes@[t as int] as int
                } else {
                    0
                })
                &&& words[n + 4] == (if t >= 1 {
                    bytes@[t - 1] as int
                } else {
                    0
                })
                &&& words[n + 5] == (if t >= 2 {
                    bytes@[t - 2] as int
                } else {
                    0
                })
                &&& forall|k: int|
                    0 <= k < 8 ==> #[trigger] words[n + 6 + k] == (if k <= t {
                        bpe_ids@[t - k]
                    } else {
                        0
                    })
                &&& words[n + 14] == 0
                &&& words[n + 15] == 0
            }),
    {
        let ghost before = params@;
        let ghost input = batch_input(bytes@, t, bpe_ids@, self.phrase_window);
        #[verifier::truncate]
        let position: u32 = t as u32;
        #[verifier::truncate]
        let window: u32 = self.phrase_window as u32;
        params.push(bpe_ids[t]);
        params.push(position);
        params.push(window);
        let byte_0: u32 = if t < bytes.len() {
            bytes[t] as u32
        } else {
            0
        };
        let byte_1: u32 = if t >= 1 {
            bytes[t - 1] as u32
        } else {
            0
        };
        let byte_2: u32 = if t >= 2 {
            bytes[t - 2] as u32
        } else {
            0
        };
        params.push(byte_0);
        params.push(byte_1);
        params.push(byte_2);
        assert(params@ =~= before + input.take(6));
        let mut k: usize = 0;
        while k < 8
            invariant
                k <= 8,
                t < bpe_ids@.len(),
                input == batch_input(bytes@, t, bpe_ids@, self.phrase_window),
                params@ == before + input.take(6 + k),
            decreases 8 - k,
        {
            let id: u32 = if t >= k {
                bpe_ids[t - k]
            } else {
                0
            };
            assert(input[6 + k] == id_or_zero(bpe_ids@, t - k));
            params.push(id);
            assert(params@ =~= before + input.take(6 + k + 1));
            k += 1;
        }
        params.push(0);
        params.push(0);
        assert(params@ =~= before + input);
        proof {
            let n = before.len() as int;
            assert(params@.take(n) =~= before);
            assert forall|k: int| 0 <= k < 8 implies #[trigger] params@[n + 6 + k] == (if k <= t {
                bpe_ids@[t - k]
            } else {
                0
            }) by {
                assert(params@[n + 6 + k] == input[6 + k]);
            }
        }
    }

    /// Plan a run over a batch of sequences: position `t_batch[i]` of the `i`-th
    /// one. The reservoir advances to its other state.
    pub fn forward_inference(
        &mut self,
        bytes_batch: &[Vec<u8>],
        t_batch: &[usize],
        bpe_ids_batch: &[Vec<u32>],
    ) -> (plan: BatchPlan)
        requires
            old(self).well_formed(),
            bytes_batch@.len() <= MAX_BATCH_SIZE,
            1 <= t_batch@.len(),
            t_batch@.len() >= bytes_batch@.len(),
            bpe_ids_batch@.len() >= bytes_batch@.len(),
            forall|i: int|
                0 <= i < bytes_batch@.len() ==> position_valid(
                    #[trigger] bytes_batch@[i]@,
                    t_batch@[i],
                    bpe_ids_batch@[i]@,
                ),
        ensures
            final(self).well_formed(),
            final(self).s_ping == 1 - old(self).s_ping,
            final(self).m_ping == old(self).m_ping,
            final(self).num_layers == old(self).num_layers,
            final(self).phrase_window == old(self).phrase_window,
            plan.encoder_params@ == memory_image(
                batch_inputs(
                    bytes_batch@,
                    t_batch@,
                    bpe_ids_batch@,
                    old(self).phrase_window,
                    bytes_batch@.len(),
                ),
            ),
            plan.attention_params@ == memory_image(seq![t_batch@[0] as u32, 0u32, 0u32, 0u32]),
            plan.encoder_params@.len() == 64 * bytes_batch@.len(),
            forall|i: int|
                #![trigger t_batch@[i]]
                0 <= i < bytes_batch@.len() && t_batch@[i] < bpe_ids_batch@[i]@.len() ==> {
                    let words = memory_words_at(
                        plan.encoder_params@,
                        64 * i,
                        16,
                    );
                    let bytes = bytes_batch@[i]@;
                    let t = t_batch@[i];
                    &&& words[0] == bpe_ids_batch@[i]@[t as int]
                    &&& words[1] == t as u32
                    &&& words[2] == old(self).phrase_window as u32
                    &&& words[3] == (if t < bytes.len() {
                        bytes[t as int] as int
                    } else {
                        0
                    })
                    &&& words[4] == (if t >= 1 {
                        bytes[t - 1] as int
                    } else {
                        0
                    })
                    &&& words[5] == (if t >= 2 {
                        bytes[t - 2] as int
                    } else {
                        0
                    })
                    &&& forall|j: int|
                        6 <= j < 14 ==> #[trigger] words[j] == (if j - 6 <= t {
                            bpe_ids_batch@[i]@[t - (j - 6)]
                        } else {
                            0
                        })
                    &&& words[14] == 0
                    &&& words[15] == 0
                },
            memory_words_at(plan.attention_params@, 0, 4) == seq![
                t_batch@[0] as u32,
                0u32,
                0u32,
                0u32,
            ],
            plan.passes@.map_values(|p: Pass| p@) == batch_passes(
                old(self).s_ping,
                old(self).m_ping,
                old(self).num_layers,
                bytes_batch@.len() as u32,
            ),
            plan.readback@ == seq![Slot::TopTokens, Slot::TopScores],
            plan.readback_words == TOP_K_SIZE * bytes_batch@.len(),
            plan.readback_words == 50 * bytes_batch@.len(),
    {
        let b: usize = bytes_batch.len();
        let mut params: Vec<u32> = Vec::with_capacity(b * BATCH_INPUT_WORDS);
        let mut i: usize = 0;
        while i < b
            invariant
                i <= b,
                b == bytes_batch@.len(),
                t_batch@.len() >= b,
                bpe_ids_batch@.len() >= b,
                forall|j: int|
                    0 <= j < b ==> position_valid(
                        #[trigger] bytes_batch@[j]@,
                        t_batch@[j],
                        bpe_ids_batch@[j]@,
                    ),
                params@ == batch_inputs(
                    bytes_batch@,
                    t_batch@,
                    bpe_ids_batch@,
                    self.phrase_window,
                    i as nat,
                ),
            decreases b - i,
        {
            assert(position_valid(
                bytes_batch@[i as int]@,
                t_batch@[i as int],
                bpe_ids_batch@[i as int]@,
            ));
            self.push_batch_input(&mut params, &bytes_batch[i], t_batch[i], &bpe_ids_batch[i]);
            i += 1;
        }
        #[verifier::truncate]
        let position: u32 = t_batch[0] as u32;
        let attention: Vec<u32> = vec![position, 0, 0, 0];
        assert(attention@ =~= seq![t_batch@[0] as u32, 0u32, 0u32, 0u32]);
        let prev: usize = self.s_ping;
        let next: usize = 1 - prev;
        let batch: u32 = b as u32;
        let mut passes: Vec<Pass> = Vec::with_capacity(7);
        push_pass(
            &mut passes,
            Stage::Encoder,
            vec![
                Slot::BpeEmbeddings,
                Slot::WFusion,
                Slot::WPhrase,
                Slot::Encoded,
                Slot::EncoderParams,
            ],
            1,
            batch,
        );
        push_pass(
            &mut passes,
            Stage::Attention,
            vec![
                Slot::Encoded,
                Slot::WQ,
                Slot::WK,
                Slot::WV,
                Slot::WO,
                Slot::KCache,
                Slot::VCache,
                Slot::Attended,
                Slot::AttentionParams,
            ],
            1,
            batch,
        );
        push_pass(
            &mut passes,
            Stage::Reservoir,
            vec![
                Slot::RMatrix,
                Slot::WIn,
                Slot::State { ping: prev },
                Slot::Attended,
                Slot::State { ping: next },
            ],
            group_count(N_RES as u32, 64),
            batch,
        );
        self.s_ping = next;
        self.push_readout(&mut passes, batch);
        push_pass(
            &mut passes,
            Stage::Sampling,
            vec![Slot::Logits, Slot::TopTokens, Slot::TopScores],
            1,
            batch,
        );
        proof {
            let models = passes@.map_values(|p: Pass| p@);
            let expected = batch_passes(prev, self.m_ping, self.num_layers, batch);
            assert forall|k: int| 0 <= k < 7 implies models[k] == expected[k] by {
                assert(models[k].bindings =~= expected[k].bindings);
            }
            assert(models =~= expected);
        }
        let readback: Vec<Slot> = vec![Slot::TopTokens, Slot::TopScores];
        assert(readback@ =~= seq![Slot::TopTokens, Slot::TopScores]);
        let encoder_params = upload_image(&params);
        let attention_params = upload_image(&attention);
        proof {
            assert(attention_params@.subrange(0, 16) =~= attention_params@);
            crate::machine::image_read_back(attention_params@, 0, attention@);
            descriptions_in_memory(
                encoder_params@,
                bytes_batch@,
                t_batch@,
                bpe_ids_batch@,
                self.phrase_window,
                b as nat,
            );
        }
        BatchPlan {
            encoder_params,
            attention_params,
            passes,
            readback,
            readback_words: TOP_K_SIZE * b,
        }
    }

    /// The passes from the projections to the logits.
    fn push_readout(&self, passes: &mut Vec<Pass>, batch: u32)
        requires
            self.well_formed(),
        ensures
            final(passes)@.map_values(|p: Pass| p@) == old(passes)@.map_values(|p: Pass| p@)
                + batch_passes(
                (1 - self.s_ping) as usize,
                self.m_ping,
                self.num_layers,
                batch,
            ).subrange(3, 6),
    {
        let ghost before = passes@.map_values(|p: Pass| p@);
        push_pass(
            passes,
            Stage::Projections,
            vec![
                Slot::State { ping: self.s_ping },
                Slot::WUpAll,
                Slot::Memories { ping: self.m_ping },
                Slot::LocalStates,
                Slot::Readouts,
                Slot::NumLayers,
            ],
            self.num_layers as u32,
            batch,
        );
        push_pass(
            passes,
            Stage::Aggregate,
            vec![
                Slot::State { ping: self.s_ping },
                Slot::Readouts,
                Slot::WOut,
                Slot::Hidden,
                Slot::PrevPrediction,
                Slot::NumLayers,
            ],
            group_count(D_MODEL as u32, 64),
            batch,
        );
        push_pass(
            passes,
            Stage::Logits,
            vec![Slot::OutputEmbeddings, Slot::OutputBias, Slot::Hidden, Slot::Logits],
            group_count(VOCAB_SIZE as u32, 256),
            batch,
        );
        proof {
            let models = passes@.map_values(|p: Pass| p@);
            let all = batch_passes(
                (1 - self.s_ping) as usize,
                self.m_ping,
                self.num_layers,
                batch,
            );
            let n = before.len() as int;
            assert(models[n].bindings =~= all[3].bindings);
            assert(models[n + 1].bindings =~= all[4].bindings);
            assert(models[n + 2].bindings =~= all[5].bindings);
            assert(models =~= before + all.subrange(3, 6));
        }
    }

    /// Plan a greedy run over one encoded position. The reservoir advances to
    /// its other state.
    pub fn forward_greedy(&mut self) -> (passes: Vec<Pass>)
        requires
            old(self).well_formed(),
        ensures
            final(self).well_formed(),
            final(self).s_ping == 1 - old(self).s_ping,
            final(self).m_ping == old(self).m_ping,
            final(self).num_layers == old(self).num_layers,
            final(self).phrase_window == old(self).phrase_window,
            passes@.map_values(|p: Pass| p@) == greedy_passes(
                old(self).s_ping,
                old(self).m_ping,
                old(self).num_layers,
            ),
    {
        let prev: usize = self.s_ping;
        let next: usize = 1 - prev;
        let mut passes: Vec<Pass> = Vec::with_capacity(5);
        push_pass(
            &mut passes,
            Stage::Reservoir,
            vec![
                Slot::RMatrix,
                Slot::WIn,
                Slot::State { ping: prev },
                Slot::Encoded,
                Slot::State { ping: next },
            ],
            group_count(N_RES as u32, 64),
            1,
        );
        self.s_ping = next;
        self.push_readout(&mut passes, 1);
        push_pass(&mut passes, Stage::Sampling, vec![Slot::Logits, Slot::TopTokens], 1, 1);
        proof {
            let models = passes@.map_values(|p: Pass| p@);
            let expected = greedy_passes(prev, self.m_ping, self.num_layers);
            assert forall|k: int| 0 <= k < 5 implies models[k] == expected[k] by {
                assert(models[k].bindings =~= expected[k].bindings);
            }
            assert(models =~= expected);
        }
        passes
    }

    /// The tokens, or their scores, of each sequence from what was read back.
    pub fn collect(flat: &[u32], batch: usize) -> (rows: Vec<Vec<u32>>)
        requires
            batch * TOP_K_SIZE <= flat@.len(),
        ensures
            rows@.len() == batch,
            forall|i: int|
                0 <= i < batch ==> (#[trigger] rows@[i])@ == flat@.subrange(
                    i * TOP_K_SIZE,
                    i * TOP_K_SIZE + TOP_K_SIZE,
                ),
            forall|i: int|
                0 <= i < batch ==> (#[trigger] rows@[i])@ == flat@.subrange(50 * i, 50 * i + 50),
    {
        split_rows(flat, batch, TOP_K_SIZE)
    }
}

/// Every sequence is described by sixteen words.
pub proof fn batch_inputs_size(
    bytes: Seq<Vec<u8>>,
    t: Seq<usize>,
    ids: Seq<Vec<u32>>,
    phrase_window: usize,
    n: nat,
)
    ensures
        batch_inputs(bytes, t, ids, phrase_window, n).len() == 16 * n,
    decreases n,
{
    if n > 0 {
        batch_inputs_size(bytes, t, ids, phrase_window, (n - 1) as nat);
    }
}

/// The description of sequence `i` is the `i`-th piece of sixteen words.
proof fn batch_inputs_place(
    bytes: Seq<Vec<u8>>,
    t: Seq<usize>,
    ids: Seq<Vec<u32>>,
    phrase_window: usize,
    n: nat,
    i: int,
)
    requires
        0 <= i < n,
    ensures
        batch_inputs(bytes, t, ids, phrase_window, n).len() == 16 * n,
        batch_inputs(bytes, t, ids, phrase_window, n).subrange(16 * i, 16 * i + 16) == batch_input(
            bytes[i]@,
            t[i],
            ids[i]@,
            phrase_window,
        ),
    decreases n,
{
    let m = (n - 1) as nat;
    batch_inputs_size(bytes, t, ids, phrase_window, n);
    batch_inputs_size(bytes, t, ids, phrase_window, m);
    let all = batch_inputs(bytes, t, ids, phrase_window, n);
    if i < m {
        batch_inputs_place(bytes, t, ids, phrase_window, m, i);
        assert(all.subrange(16 * i, 16 * i + 16) =~= batch_inputs(
            bytes,
            t,
            ids,
            phrase_window,
            m,
        ).subrange(16 * i, 16 * i + 16));
    } else {
        assert(all.subrange(16 * i, 16 * i + 16) =~= batch_input(
            bytes[i]@,
            t[i],
            ids[i]@,
            phrase_window,
        ));
    }
}

/// What is uploaded for a batch describes each of its sequences in the sixteen
/// words meant for it.
pub proof fn descriptions_in_memory(
    image: Seq<u8>,
    bytes: Seq<Vec<u8>>,
    t: Seq<usize>,
    ids: Seq<Vec<u32>>,
    phrase_window: usize,
    n: nat,
)
    requires
        image == memory_image(batch_inputs(bytes, t, ids, phrase_window, n)),
        forall|i: int|
            0 <= i < n ==> position_valid(#[trigger] bytes[i]@, t[i], ids[i]@),
    ensures
        image.len() == 64 * n,
        forall|i: int|
            #![trigger t[i]]
            0 <= i < n && t[i] < ids[i]@.len() ==> {
                let words = memory_words_at(
                    image,
                    64 * i,
                    16,
                );
                let stream = bytes[i]@;
                let at = t[i];
                &&& words[0] == ids[i]@[at as int]
                &&& words[1] == at as u32
                &&& words[2] == phrase_window as u32
                &&& words[3] == (if at < stream.len() {
                    stream[at as int] as int
                } else {
                    0
                })
                &&& words[4] == (if at >= 1 {
                    stream[at - 1] as int
                } else {
                    0
                })
                &&& words[5] == (if at >= 2 {
                    stream[at - 2] as int
                } else {
                    0
                })
                &&& forall|j: int|
                    6 <= j < 14 ==> #[trigger] words[j] == (if j - 6 <= at {
                        ids[i]@[at - (j - 6)]
                    } else {
                        0
                    })
                &&& words[14] == 0
                &&& words[15] == 0
            },
{
    let all = batch_inputs(bytes, t, ids, phrase_window, n);
    batch_inputs_size(bytes, t, ids, phrase_window, n);
    assert forall|i: int|
        #![trigger bytes[i]]
        0 <= i < n implies memory_words_at(image, 64 * i, 16) == batch_input(
        bytes[i]@,
        t[i],
        ids[i]@,
        phrase_window,
    ) by {
        batch_inputs_place(bytes, t, ids, phrase_window, n, i);
        let piece = all.subrange(16 * i, 16 * i + 16);
        assert(image.subrange(64 * i, 64 * i + 64) =~= memory_image(piece)) by {
            assert forall|j: int| 0 <= j < 64 implies image[64 * i + j] == memory_image(
                piece,
            )[j] by {
                assert((64 * i + j) / 4 == 16 * i + j / 4);
                assert((64 * i + j) % 4 == j % 4);
            }
        }
        crate::machine::image_read_back(image, 64 * i, piece);
    }
    assert forall|i: int|
        #![trigger t[i]]
        0 <= i < n && t[i] < ids[i]@.len() implies {
            let words = memory_words_at(
                image,
                64 * i,
                16,
            );
            let stream = bytes[i]@;
            let at = t[i];
            &&& words[0] == ids[i]@[at as int]
            &&& words[1] == at as u32
            &&& words[2] == phrase_window as u32
            &&& words[3] == (if at < stream.len() {
                stream[at as int] as int
            } else {
                0
            })
            &&& words[4] == (if at >= 1 {
                stream[at - 1] as int
            } else {
                0
            })
            &&& words[5] == (if at >= 2 {
                stream[at - 2] as int
            } else {
                0
            })
            &&& forall|j: int|
                6 <= j < 14 ==> #[trigger] words[j] == (if j - 6 <= at {
                    ids[i]@[at - (j - 6)]
                } else {
                    0
                })
            &&& words[14] == 0
            &&& words[15] == 0
        } by {
        let input = batch_input(bytes[i]@, t[i], ids[i]@, phrase_window);
        let words = memory_words_at(image, 64 * i, 16);
        assert(position_valid(bytes[i]@, t[i], ids[i]@));
        assert(words == input);
        assert forall|j: int| 6 <= j < 14 implies #[trigger] words[j] == (if j - 6 <= t[i] {
            ids[i]@[t[i] - (j - 6)]
        } else {
            0
        }) by {
            described_tokens(bytes[i]@, t[i], ids[i]@, phrase_window, j - 6);
        }
    }
}

/// Of the last eight tokens the one `k` positions back is word `6 + k` of a
/// description; where the sequence does not go back that far, the word is 0.
pub proof fn described_tokens(
    bytes: Seq<u8>,
    t: usize,
    ids: Seq<u32>,
    phrase_window: usize,
    k: int,
)
    requires
        t < ids.len(),
        0 <= k < 8,
    ensures
        batch_input(bytes, t, ids, phrase_window)[6 + k] == (if k <= t {
            ids[t - k]
        } else {
            0
        }),
{
}

/// Of the last three bytes the one `k` positions back is word `3 + k` of a
/// description; where there is none, the word is 0. Before them stand the token
/// at the position, the position itself and the width of the phrase window.
pub proof fn described_bytes(
    bytes: Seq<u8>,
    t: usize,
    ids: Seq<u32>,
    phrase_window: usize,
    k: int,
)
    requires
        t < ids.len(),
        0 <= k < 3,
    ensures
        ({
            let words = batch_input(bytes, t, ids, phrase_window);
            &&& words.len() == 16
            &&& words[0] == ids[t as int]
            &&& words[1] == t as u32
            &&& words[2] == phrase_window as u32
            &&& words[3 + k] == (if 0 <= t - k < bytes.len() {
                bytes[t - k] as int
            } else {
                0
            })
            &&& words[14] == 0
            &&& words[15] == 0
        }),
{
}

/// A description tells the encoder all that it looks at: two positions with the
/// same description have the same last three bytes and the same last eight
/// tokens, as far as the streams go back.
pub proof fn same_description_same_input(
    bytes: Seq<u8>,
    other_bytes: Seq<u8>,
    t: usize,
    ids: Seq<u32>,
    other_ids: Seq<u32>,
    phrase_window: usize,
    k: int,
)
    requires
        t < ids.len(),
        t < other_ids.len(),
        t < bytes.len(),
        t < other_bytes.len(),
        batch_input(bytes, t, ids, phrase_window) == batch_input(
            other_bytes,
            t,
            other_ids,
            phrase_window,
        ),
        0 <= k <= t,
    ensures
        k < 8 ==> ids[t - k] == other_ids[t - k],
        k < 3 ==> bytes[t - k] == other_bytes[t - k],
{
    if k < 8 {
        described_tokens(bytes, t, ids, phrase_window, k);
        described_tokens(other_bytes, t, other_ids, phrase_window, k);
    }
    if k < 3 {
        described_bytes(bytes, t, ids, phrase_window, k);
        described_bytes(other_bytes, t, other_ids, phrase_window, k);
    }
}

/// A batched run goes through encoder, attention, reservoir, projections,
/// aggregation, logits and sampling, in this order; every pass fits its shader,
/// and each stage reads what the one before it wrote.
pub proof fn pipeline_flows(s_ping: usize, m_ping: usize, num_layers: usize, batch: u32)
    requires
        s_ping < 2,
    ensures
        ({
            let p = batch_passes(s_ping, m_ping, num_layers, batch);
            let next = (1 - s_ping) as usize;
            &&& p.map_values(|pass: PassModel| pass.stage) == seq![
                Stage::Encoder,
                Stage::Attention,
                Stage::Reservoir,
                Stage::Projections,
                Stage::Aggregate,
                Stage::Logits,
                Stage::Sampling,
            ]
            &&& forall|i: int|
                0 <= i < 7 ==> (#[trigger] p[i]).bindings.len() == layout_of(p[i].stage).len()
            &&& writes_at(p[0], 3, Slot::Encoded) && reads_at(p[1], 0, Slot::Encoded)
            &&& writes_at(p[1], 7, Slot::Attended) && reads_at(p[2], 3, Slot::Attended)
            &&& writes_at(p[2], 4, Slot::State { ping: next }) && reads_at(
                p[3],
                0,
                Slot::State { ping: next },
            )
            &&& reads_at(p[2], 2, Slot::State { ping: s_ping }) && next != s_ping
            &&& writes_at(p[3], 4, Slot::Readouts) && reads_at(p[4], 1, Slot::Readouts)
            &&& writes_at(p[4], 3, Slot::Hidden) && reads_at(p[5], 2, Slot::Hidden)
            &&& writes_at(p[5], 3, Slot::Logits) && p[6].bindings[0] == Slot::Logits
            &&& writes_at(p[6], 1, Slot::TopTokens) && writes_at(p[6], 2, Slot::TopScores)
        }),
{
    let p = batch_passes(s_ping, m_ping, num_layers, batch);
    assert(p.map_values(|pass: PassModel| pass.stage) =~= seq![
        Stage::Encoder,
        Stage::Attention,
        Stage::Reservoir,
        Stage::Projections,
        Stage::Aggregate,
        Stage::Logits,
        Stage::Sampling,
    ]);
}

/// The binding at `at` is `slot`, and the shader writes it.
pub open spec fn writes_at(pass: PassModel, at: int, slot: Slot) -> bool {
    pass.bindings[at] == slot && layout_of(pass.stage)[at] == BindingKind::ReadWrite
}

/// The binding at `at` is `slot`, and the shader only reads it.
pub open spec fn reads_at(pass: PassModel, at: int, slot: Slot) -> bool {
    pass.bindings[at] == slot && layout_of(pass.stage)[at] == BindingKind::ReadOnly
}

/// `slots` has `slot` among it.
pub open spec fn among(slots: Seq<Slot>, slot: Slot) -> bool {
    exists|b: int| 0 <= b < slots.len() && #[trigger] slots[b] == slot
}

/// Where the buffer of a slot stands among those of batched runs.
spec fn batch_place(slot: Slot) -> int {
    match slot {
        Slot::BpeEmbeddings => 0int,
        Slot::WFusion => 1int,
        Slot::WPhrase => 2int,
        Slot::EncoderParams => 3int,
        Slot::Encoded => 4int,
        Slot::WQ => 5int,
        Slot::WK => 6int,
        Slot::WV => 7int,
        Slot::WO => 8int,
        Slot::KCache => 9int,
        Slot::VCache => 10int,
        Slot::Attended => 11int,
        Slot::AttentionParams => 12int,
        Slot::RMatrix => 13int,
        Slot::WIn => 14int,
        Slot::State { ping } => 15 + ping as int,
        Slot::WUpAll => 17int,
        Slot::Memories { ping } => 18 + ping as int,
        Slot::LocalStates => 20int,
        Slot::Readouts => 21int,
        Slot::NumLayers => 22int,
        Slot::WOut => 23int,
        Slot::Hidden => 24int,
        Slot::PrevPrediction => 25int,
        Slot::OutputEmbeddings => 26int,
        Slot::OutputBias => 27int,
        Slot::Logits => 28int,
        Slot::TopTokens => 29int,
        Slot::TopScores => 30int,
    }
}

/// Where the buffer of a slot stands among those of greedy runs.
spec fn greedy_place(slot: Slot) -> int {
    match slot {
        Slot::Encoded => 0int,
        Slot::RMatrix => 1int,
        Slot::WIn => 2int,
        Slot::State { ping } => 3 + ping as int,
        Slot::WUpAll => 5int,
        Slot::Memories { ping } => 6 + ping as int,
        Slot::LocalStates => 8int,
        Slot::Readouts => 9int,
        Slot::NumLayers => 10int,
        Slot::WOut => 11int,
        Slot::Hidden => 12int,
        Slot::PrevPrediction => 13int,
        Slot::OutputEmbeddings => 14int,
        Slot::OutputBias => 15int,
        Slot::Logits => 16int,
        Slot::TopTokens => 17int,
        _ => -1int,
    }
}

/// Whatever a pass of a batched run binds has a buffer, which is made for what
/// the shader expects there.
pub proof fn batch_is_provided_for(
    s_ping: usize,
    m_ping: usize,
    num_layers: usize,
    batch: u32,
    i: int,
    j: int,
)
    requires
        s_ping < 2,
        m_ping < 2,
        0 <= i < 7,
        0 <= j < batch_passes(s_ping, m_ping, num_layers, batch)[i].bindings.len(),
    ensures
        ({
            let pass = batch_passes(s_ping, m_ping, num_layers, batch)[i];
            &&& among(batch_slots(), pass.bindings[j])
            &&& batch_slots().contains(pass.bindings[j])
            &&& binds_as(usage_of(pass.bindings[j]), layout_of(pass.stage)[j])
        }),
{
    let pass = batch_passes(s_ping, m_ping, num_layers, batch)[i];
    assert(batch_slots()[batch_place(pass.bindings[j])] == pass.bindings[j]);
}

/// Whatever a pass of a greedy run binds has a buffer, which is made for what
/// the shader expects there.
pub proof fn greedy_is_provided_for(
    s_ping: usize,
    m_ping: usize,
    num_layers: usize,
    i: int,
    j: int,
)
    requires
        s_ping < 2,
        m_ping < 2,
        0 <= i < 5,
        0 <= j < greedy_passes(s_ping, m_ping, num_layers)[i].bindings.len(),
    ensures
        ({
            let pass = greedy_passes(s_ping, m_ping, num_layers)[i];
            &&& pass.bindings.len() == greedy_layout_of(pass.stage).len()
            &&& among(greedy_slots(), pass.bindings[j])
            &&& greedy_slots().contains(pass.bindings[j])
            &&& binds_as(usage_of(pass.bindings[j]), greedy_layout_of(pass.stage)[j])
        }),
{
    let pass = greedy_passes(s_ping, m_ping, num_layers)[i];
    assert(greedy_slots()[greedy_place(pass.bindings[j])] == pass.bindings[j]);
}

/// Every buffer that starts out empty fits the limit that is asked of the
/// device, for full batches and up to 1024 layers, and what is uploaded and
/// read back fits the buffers meant for it.
pub proof fn scratch_fits_limit(slot: Slot, num_layers: int, batch: int)
    requires
        0 <= num_layers <= 1024,
        0 <= batch <= MAX_BATCH_SIZE,
    ensures
        scratch_of(slot, num_layers, MAX_BATCH_SIZE as int) matches Some(n) ==> 0 <= 4 * n
            <= crate::gpu::MAX_BUFFER_BYTES,
        BATCH_INPUT_WORDS * batch <= scratch_of(
            Slot::EncoderParams,
            num_layers,
            MAX_BATCH_SIZE as int,
        )->0,
        TOP_K_SIZE * batch <= scratch_of(Slot::TopTokens, num_layers, MAX_BATCH_SIZE as int)->0,
{
    assert(num_layers * 32 <= 1024 * 32);
}

/// The shader of a stage writes the buffers that hold its results and reads the
/// others, of which the parameters are uniform but for those of the encoder.
pub proof fn shaders_write_their_results(stage: Stage, j: int)
    requires
        0 <= j < layout_of(stage).len(),
    ensures
        layout_of(stage).len() == (match stage {
            Stage::Encoder => 5nat,
            Stage::Attention => 9nat,
            Stage::Reservoir => 5nat,
            Stage::Projections => 6nat,
            Stage::Aggregate => 6nat,
            Stage::Logits => 4nat,
            Stage::Sampling => 3nat,
        }),
        layout_of(stage)[j] is ReadWrite <==> (match stage {
            Stage::Encoder => j == 3,
            Stage::Attention => 5 <= j <= 7,
            Stage::Reservoir => j == 4,
            Stage::Projections => j == 3 || j == 4,
            Stage::Aggregate => j == 3 || j == 4,
            Stage::Logits => j == 3,
            Stage::Sampling => true,
        }),
        layout_of(stage)[j] is Uniform <==> (match stage {
            Stage::Attention => j == 8,
            Stage::Projections => j == 5,
            Stage::Aggregate => j == 5,
            _ => false,
        }),
        greedy_layout_of(Stage::Sampling) == seq![BindingKind::ReadOnly, BindingKind::ReadWrite],
        !(stage is Sampling) ==> greedy_layout_of(stage) == layout_of(stage),
{
}

/// Every pass of a batched run binds what its shader takes at each binding.
pub proof fn batch_binds_roles(s_ping: usize, m_ping: usize, num_layers: usize, batch: u32)
    requires
        s_ping < 2,
    ensures
        ({
            let p = batch_passes(s_ping, m_ping, num_layers, batch);
            let next = (1 - s_ping) as usize;
            &&& p.len() == 7
            &&& p[0].bindings == seq![
                Slot::BpeEmbeddings,
                Slot::WFusion,
                Slot::WPhrase,
                Slot::Encoded,
                Slot::EncoderParams,
            ]
            &&& p[1].bindings == seq![
                Slot::Encoded,
                Slot::WQ,
                Slot::WK,
                Slot::WV,
                Slot::WO,
                Slot::KCache,
                Slot::VCache,
                Slot::Attended,
                Slot::AttentionParams,
            ]
            &&& p[2].bindings == seq![
                Slot::RMatrix,
                Slot::WIn,
                Slot::State { ping: s_ping },
                Slot::Attended,
                Slot::State { ping: next },
            ]
            &&& p[3].bindings == seq![
                Slot::State { ping: next },
                Slot::WUpAll,
                Slot::Memories { ping: m_ping },
                Slot::LocalStates,
                Slot::Readouts,
                Slot::NumLayers,
            ]
            &&& p[4].bindings == seq![
                Slot::State { ping: next },
                Slot::Readouts,
                Slot::WOut,
                Slot::Hidden,
                Slot::PrevPrediction,
                Slot::NumLayers,
            ]
            &&& p[5].bindings == seq![
                Slot::OutputEmbeddings,
                Slot::OutputBias,
                Slot::Hidden,
                Slot::Logits,
            ]
            &&& p[6].bindings == seq![Slot::Logits, Slot::TopTokens, Slot::TopScores]
        }),
{
}

/// A greedy run binds the same but for what it leaves out: the reservoir takes
/// the encoded position itself, and sampling gives tokens without scores.
pub proof fn greedy_binds_roles(s_ping: usize, m_ping: usize, num_layers: usize)
    requires
        s_ping < 2,
    ensures
        ({
            let p = greedy_passes(s_ping, m_ping, num_layers);
            let next = (1 - s_ping) as usize;
            &&& p.map_values(|pass: PassModel| pass.stage) == seq![
                Stage::Reservoir,
                Stage::Projections,
                Stage::Aggregate,
                Stage::Logits,
                Stage::Sampling,
            ]
            &&& p[0].bindings == seq![
                Slot::RMatrix,
                Slot::WIn,
                Slot::State { ping: s_ping },
                Slot::Encoded,
                Slot::State { ping: next },
            ]
            &&& p[1].bindings == seq![
                Slot::State { ping: next },
                Slot::WUpAll,
                Slot::Memories { ping: m_ping },
                Slot::LocalStates,
                Slot::Readouts,
                Slot::NumLayers,
            ]
            &&& p[2].bindings == seq![
                Slot::State { ping: next },
                Slot::Readouts,
                Slot::WOut,
                Slot::Hidden,
                Slot::PrevPrediction,
                Slot::NumLayers,
            ]
            &&& p[3].bindings == seq![
                Slot::OutputEmbeddings,
                Slot::OutputBias,
                Slot::Hidden,
                Slot::Logits,
            ]
            &&& p[4].bindings == seq![Slot::Logits, Slot::TopTokens]
        }),
{
    let p = greedy_passes(s_ping, m_ping, num_layers);
    assert(p.map_values(|pass: PassModel| pass.stage) =~= seq![
        Stage::Reservoir,
        Stage::Projections,
        Stage::Aggregate,
        Stage::Logits,
        Stage::Sampling,
    ]);
}

/// The workgroups of a run cover their task for every sequence of the batch and
/// start none too many.
pub proof fn run_covers_tasks(
    s_ping: usize,
    m_ping: usize,
    num_layers: usize,
    batch: u32,
    i: int,
)
    requires
        num_layers <= u32::MAX,
        0 <= i < 7,
    ensures
        ({
            let pass = batch_passes(s_ping, m_ping, num_layers, batch)[i];
            let g = pass.groups;
            &&& g.y == batch && g.z == 1
            &&& match pass.stage {
                Stage::Reservoir => 64 * g.x == 4096,
                Stage::Projections => g.x == num_layers,
                Stage::Aggregate => 64 * g.x == 512,
                Stage::Logits => 256 * (g.x - 1) < 50_000 <= 256 * g.x,
                _ => g.x == 1,
            }
        }),
        2 <= i < 6 ==> greedy_passes(s_ping, m_ping, num_layers)[i - 2].groups == batch_passes(
            s_ping,
            m_ping,
            num_layers,
            1,
        )[i].groups,
        greedy_passes(s_ping, m_ping, num_layers)[4].groups == (Groups { x: 1, y: 1, z: 1 }),
{
}

/// What each buffer is made for, and what it holds at first: the number of
/// layers in its own buffer, zeros in the buffers of a run, with room for every
/// sequence of a batch, and weights in all others.
pub proof fn buffers_start_as_meant(slot: Slot, num_layers: usize, batch: int)
    requires
        0 <= batch <= MAX_BATCH_SIZE,
        32 * (num_layers * batch) <= usize::MAX,
    ensures
        plan_of(slot, num_layers, batch).slot == slot,
        plan_of(slot, num_layers, batch).usage is Uniform <==> slot is AttentionParams
            || slot is NumLayers,
        match plan_of(slot, num_layers, batch).start {
            Start::Word { word } => slot is NumLayers && word == num_layers as u32,
            Start::Zeros { words } => match slot {
                Slot::EncoderParams => words == 16 * batch,
                Slot::AttentionParams => words == 4,
                Slot::KCache | Slot::VCache => words == 524_288 * batch,
                Slot::Encoded | Slot::Attended | Slot::Hidden | Slot::PrevPrediction => words
                    == 512 * batch,
                Slot::State { .. } => words == 4096 * batch,
                Slot::LocalStates | Slot::Readouts => words == 32 * (num_layers * batch),
                Slot::Logits => words == 50_000 * batch,
                Slot::TopTokens | Slot::TopScores => words == 50 * batch,
                _ => false,
            },
            Start::Weights => slot is BpeEmbeddings || slot is WFusion || slot is WPhrase
                || slot is WQ || slot is WK || slot is WV || slot is WO || slot is RMatrix
                || slot is WIn || slot is WUpAll || slot is Memories || slot is WOut
                || slot is OutputEmbeddings || slot is OutputBias,
        },
{
}

/// Batched runs have one buffer for each slot with room for 32 sequences, and
/// greedy runs one for each slot that they bind with room for one, and for one
/// token.
pub proof fn one_buffer_for_each_slot(num_layers: usize, b: int, c: int)
    ensures
        batch_buffers(num_layers).len() == 31,
        greedy_buffers(num_layers).len() == 18,
        0 <= b < 31 ==> batch_buffers(num_layers)[b] == plan_of(batch_slots()[b], num_layers, 32),
        0 <= b < c < 31 ==> batch_buffers(num_layers)[b].slot != batch_buffers(num_layers)[c].slot,
        0 <= b < 18 ==> greedy_buffers(num_layers)[b].slot == greedy_slots()[b],
        0 <= b < c < 18 ==> greedy_buffers(num_layers)[b].slot
            != greedy_buffers(num_layers)[c].slot,
        0 <= b < 18 && !(greedy_slots()[b] is TopTokens) ==> greedy_buffers(num_layers)[b]
            == plan_of(greedy_slots()[b], num_layers, 1),
        0 <= b < 18 && greedy_slots()[b] is TopTokens ==> greedy_buffers(num_layers)[b].usage
            is Storage && greedy_buffers(num_layers)[b].start == (Start::Zeros { words: 1 }),
{
}

/// What a pass consists of is its stage, its bindings and its workgroups.
pub proof fn pass_is_its_parts(pass: Pass)
    ensures
        pass@.stage == pass.stage,
        pass@.bindings == pass.bindings@,
        pass@.groups == pass.groups,
{
}

/// The limits of the pipeline: a batch has up to 32 sequences, 50 tokens of each
/// are read back, and the caches hold 1024 positions of 512 values for each.
pub proof fn pipeline_limits(num_layers: int, batch: int)
    ensures
        MAX_BATCH_SIZE == 32,
        TOP_K_SIZE == 50,
        scratch_of(Slot::KCache, num_layers, batch) == Some(1024 * (512 * batch)),
        scratch_of(Slot::VCache, num_layers, batch) == scratch_of(Slot::KCache, num_layers, batch),
        scratch_of(Slot::TopTokens, num_layers, batch) == Some(50 * batch),
        scratch_of(Slot::EncoderParams, num_layers, batch) == Some(16 * batch),
{
}

} // verus!
