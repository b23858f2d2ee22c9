//! The weights as the device is given them.

use crate::gpu_context;
use crate::gpu_inference_context;
use crate::metabolic_core::BioInspiredLayer;
use crate::system::ArcaSystem;
use vstd::prelude::*;

verus! {

/// The values of `part` of the first `n` layers, one after the other.
pub open spec fn stacked(
    layers: Seq<BioInspiredLayer>,
    part: spec_fn(BioInspiredLayer) -> Seq<u32>,
    n: nat,
) -> Seq<u32>
    decreases n,
{
    if n == 0 {
        Seq::empty()
    } else {
        stacked(layers, part, (n - 1) as nat) + part(layers[n - 1])
    }
}

/// The values that the buffer of a slot is filled with for training; none for a
/// buffer that is not filled with weights.
pub open spec fn train_values_of(w: ArcaSystem, slot: gpu_context::Slot) -> Option<Seq<u32>> {
    let n = w.layers@.len();
    match slot {
        gpu_context::Slot::RMatrix => Some(w.reservoir.r_matrix.data@),
        gpu_context::Slot::WIn => Some(w.reservoir.w_in.data@),
        gpu_context::Slot::WUpAll => Some(
            stacked(w.layers@, |l: BioInspiredLayer| l.w_up.data@, n),
        ),
        gpu_context::Slot::WDownAll => Some(
            stacked(w.layers@, |l: BioInspiredLayer| l.w_down.data@, n),
        ),
        gpu_context::Slot::WOut => Some(w.prediction_head.aggregator.w_out.data@),
        gpu_context::Slot::Memory { layer, .. } => Some(w.layers@[layer as int].m_base.data@),
        gpu_context::Slot::RestingMemory { layer } => Some(w.layers@[layer as int].m_base.data@),
        gpu_context::Slot::OutputEmbeddings => Some(
            w.prediction_head.head.output_embeddings.data@,
        ),
        gpu_context::Slot::OutputBias => Some(w.prediction_head.head.output_bias@),
        _ => None,
    }
}

/// The values that the buffer of a slot is filled with for inference; none for
/// a buffer that is not filled with weights of the system.
pub open spec fn inference_values_of(
    w: ArcaSystem,
    slot: gpu_inference_context::Slot,
) -> Option<Seq<u32>> {
    let n = w.layers@.len();
    match slot {
        gpu_inference_context::Slot::BpeEmbeddings => Some(w.encoder.bpe_embeddings.data@),
        gpu_inference_context::Slot::WFusion => Some(w.encoder.w_fusion.data@),
        gpu_inference_context::Slot::WPhrase => Some(w.encoder.w_phrase.data@),
        gpu_inference_context::Slot::RMatrix => Some(w.reservoir.r_matrix.data@),
        gpu_inference_context::Slot::WIn => Some(w.reservoir.w_in.data@),
        gpu_inference_context::Slot::WUpAll => Some(
            stacked(w.layers@, |l: BioInspiredLayer| l.w_up.data@, n),
        ),
        gpu_inference_context::Slot::Memories { .. } => Some(
            stacked(w.layers@, |l: BioInspiredLayer| l.m_base.data@, n),
        ),
        gpu_inference_context::Slot::WOut => Some(w.prediction_head.aggregator.w_out.data@),
        gpu_inference_context::Slot::OutputEmbeddings => Some(
            w.prediction_head.head.output_embeddings.data@,
        ),
        gpu_inference_context::Slot::OutputBias => Some(w.prediction_head.head.output_bias@),
        _ => None,
    }
}

fn copied(values: &Vec<u32>) -> (copy: Option<Vec<u32>>)
    ensures
        copy matches Some(v) && v@ == values@,
{
    let copy = values.clone();
    assert(copy@ =~= values@);
    Some(copy)
}

impl ArcaSystem {
    /// The upward projections of all layers, one after the other.
    pub fn w_up_all(&self) -> (values: Vec<u32>)
        ensures
            values@ == stacked(
                self.layers@,
                |l: BioInspiredLayer| l.w_up.data@,
                self.layers@.len(),
            ),
            values@ == self.layers@.map_values(|l: BioInspiredLayer| l.w_up.data@).flatten(),
    {
        let ghost part = |l: BioInspiredLayer| l.w_up.data@;
        let mut values: Vec<u32> = Vec::new();
        let mut l: usize = 0;
        while l < self.layers.len()
            invariant
                l <= self.layers.len(),
                part == (|l: BioInspiredLayer| l.w_up.data@),
                values@ == stacked(self.layers@, part, l as nat),
            decreases self.layers.len() - l,
        {
            let ghost before = values@;
            values.extend_from_slice(&self.layers[l].w_up.data);
            assert(values@ =~= before + part(self.layers@[l as int]));
            l += 1;
        }
        proof {
            stacked_is_of_each(self.layers@, part);
        }
        values
    }

    /// The downward projections of all layers, one after the other.
    pub fn w_down_all(&self) -> (values: Vec<u32>)
        ensures
            values@ == stacked(
                self.layers@,
                |l: BioInspiredLayer| l.w_down.data@,
                self.layers@.len(),
            ),
            values@ == self.layers@.map_values(|l: BioInspiredLayer| l.w_down.data@).flatten(),
    {
        let ghost part = |l: BioInspiredLayer| l.w_down.data@;
        let mut values: Vec<u32> = Vec::new();
        let mut l: usize = 0;
        while l < self.layers.len()
            invariant
                l <= self.layers.len(),
                part == (|l: BioInspiredLayer| l.w_down.data@),
                values@ == stacked(self.layers@, part, l as nat),
            decreases self.layers.len() - l,
        {
            let ghost before = values@;
            values.extend_from_slice(&self.layers[l].w_down.data);
            assert(values@ =~= before + part(self.layers@[l as int]));
            l += 1;
        }
        proof {
            stacked_is_of_each(self.layers@, part);
        }
        values
    }

    /// The resting memories of all layers, one after the other.
    pub fn m_base_all(&self) -> (values: Vec<u32>)
        ensures
            values@ == stacked(
                self.layers@,
                |l: BioInspiredLayer| l.m_base.data@,
                self.layers@.len(),
            ),
            values@ == self.layers@.map_values(|l: BioInspiredLayer| l.m_base.data@).flatten(),
    {
        let ghost part = |l: BioInspiredLayer| l.m_base.data@;
        let mut values: Vec<u32> = Vec::new();
        let mut l: usize = 0;
        while l < self.layers.len()
            invariant
                l <= self.layers.len(),
                part == (|l: BioInspiredLayer| l.m_base.data@),
                values@ == stacked(self.layers@, part, l as nat),
            decreases self.layers.len() - l,
        {
            let ghost before = values@;
            values.extend_from_slice(&self.layers[l].m_base.data);
            assert(values@ =~= before + part(self.layers@[l as int]));
            l += 1;
        }
        proof {
            stacked_is_of_each(self.layers@, part);
        }
        values
    }

    /// The values that the buffer of a slot is filled with for training.
    pub fn train_values(&self, slot: gpu_context::Slot) -> (values: Option<Vec<u32>>)
        requires
            gpu_context::slot_exists(slot, self.layers@.len()),
        ensures
            match train_values_of(*self, slot) {
                Some(v) => values matches Some(out) && out@ == v,
                None => values is None,
            },
            match slot {
                gpu_context::Slot::RMatrix => values matches Some(v) && v@
                    == self.reservoir.r_matrix.data@,
                gpu_context::Slot::WIn => values matches Some(v) && v@ == self.reservoir.w_in.data@,
                gpu_context::Slot::WUpAll => values matches Some(v) && v@
                    == self.layers@.map_values(|l: BioInspiredLayer| l.w_up.data@).flatten(),
                gpu_context::Slot::WDownAll => values matches Some(v) && v@
                    == self.layers@.map_values(|l: BioInspiredLayer| l.w_down.data@).flatten(),
                gpu_context::Slot::WOut => values matches Some(v) && v@
                    == self.prediction_head.aggregator.w_out.data@,
                gpu_context::Slot::Memory { layer, .. } => values matches Some(v) && v@
                    == self.layers@[layer as int].m_base.data@,
                gpu_context::Slot::RestingMemory { layer } => values matches Some(v) && v@
                    == self.layers@[layer as int].m_base.data@,
                gpu_context::Slot::OutputEmbeddings => values matches Some(v) && v@
                    == self.prediction_head.head.output_embeddings.data@,
                gpu_context::Slot::OutputBias => values matches Some(v) && v@
                    == self.prediction_head.head.output_bias@,
                _ => values is None,
            },
    {
        match slot {
            gpu_context::Slot::RMatrix => copied(&self.reservoir.r_matrix.data),
            gpu_context::Slot::WIn => copied(&self.reservoir.w_in.data),
            gpu_context::Slot::WUpAll => Some(self.w_up_all()),
            gpu_context::Slot::WDownAll => Some(self.w_down_all()),
            gpu_context::Slot::WOut => copied(&self.prediction_head.aggregator.w_out.data),
            gpu_context::Slot::Memory { layer, .. } => copied(&self.layers[layer].m_base.data),
            gpu_context::Slot::RestingMemory { layer } => copied(&self.layers[layer].m_base.data),
            gpu_context::Slot::OutputEmbeddings => {
                copied(&self.prediction_head.head.output_embeddings.data)
            },
            gpu_context::Slot::OutputBias => copied(&self.prediction_head.head.output_bias),
            _ => None,
        }
    }

    /// The values that the buffer of a slot is filled with for inference.
    pub fn inference_values(&self, slot: gpu_inference_context::Slot) -> (values: Option<
        Vec<u32>,
    >)
        ensures
            match inference_values_of(*self, slot) {
                Some(v) => values matches Some(out) && out@ == v,
                None => values is None,
            },
            match slot {
                gpu_inference_context::Slot::BpeEmbeddings => values matches Some(v) && v@
                    == self.encoder.bpe_embeddings.data@,
                gpu_inference_context::Slot::WFusion => values matches Some(v) && v@
                    == self.encoder.w_fusion.data@,
                gpu_inference_context::Slot::WPhrase => values matches Some(v) && v@
                    == self.encoder.w_phrase.data@,
                gpu_inference_context::Slot::RMatrix => values matches Some(v) && v@
                    == self.reservoir.r_matrix.data@,
                gpu_inference_context::Slot::WIn => values matches Some(v) && v@
                    == self.reservoir.w_in.data@,
                gpu_inference_context::Slot::WUpAll => values matches Some(v) && v@
                    == self.layers@.map_values(|l: BioInspiredLayer| l.w_up.data@).flatten(),
                gpu_inference_context::Slot::Memories { .. } => values matches Some(v) && v@
                    == self.layers@.map_values(|l: BioInspiredLayer| l.m_base.data@).flatten(),
                gpu_inference_context::Slot::WOut => values matches Some(v) && v@
                    == self.prediction_head.aggregator.w_out.data@,
                gpu_inference_context::Slot::OutputEmbeddings => values matches Some(v) && v@
                    == self.prediction_head.head.output_embeddings.data@,
                gpu_inference_context::Slot::OutputBias => values matches Some(v) && v@
                    == self.prediction_head.head.output_bias@,
                _ => values is None,
            },
    {
        match slot {
            gpu_inference_context::Slot::BpeEmbeddings => copied(
                &self.encoder.bpe_embeddings.data,
            ),
            gpu_inference_context::Slot::WFusion => copied(&self.encoder.w_fusion.data),
            gpu_inference_context::Slot::WPhrase => copied(&self.encoder.w_phrase.data),
            gpu_inference_context::Slot::RMatrix => copied(&self.reservoir.r_matrix.data),
            gpu_inference_context::Slot::WIn => copied(&self.reservoir.w_in.data),
            gpu_inference_context::Slot::WUpAll => Some(self.w_up_all()),
            gpu_inference_context::Slot::Memories { .. } => Some(self.m_base_all()),
            gpu_inference_context::Slot::WOut => copied(
                &self.prediction_head.aggregator.w_out.data,
            ),
            gpu_inference_context::Slot::OutputEmbeddings => copied(
                &self.prediction_head.head.output_embeddings.data,
            ),
            gpu_inference_context::Slot::OutputBias => copied(
                &self.prediction_head.head.output_bias,
            ),
            _ => None,
        }
    }

    /// Every matrix has a value for every place.
    pub open spec fn complete(&self) -> bool {
        &&& self.encoder.bpe_embeddings.well_formed()
        &&& self.encoder.w_fusion.well_formed()
        &&& self.encoder.w_phrase.well_formed()
        &&& self.lsh.w_lsh.well_formed()
        &&& self.reservoir.r_matrix.well_formed()
        &&& self.reservoir.w_in.well_formed()
        &&& self.prediction_head.aggregator.w_out.well_formed()
        &&& self.prediction_head.head.output_embeddings.well_formed()
        &&& forall|l: int|
            0 <= l < self.layers@.len() ==> {
                &&& (#[trigger] self.layers@[l]).w_up.well_formed()
                &&& self.layers@[l].w_down.well_formed()
                &&& self.layers@[l].m_base.well_formed()
            }
    }
}

/// The values of all layers are those of each, one layer after the other.
pub proof fn stacked_is_of_each(
    layers: Seq<BioInspiredLayer>,
    part: spec_fn(BioInspiredLayer) -> Seq<u32>,
)
    ensures
        stacked(layers, part, layers.len()) == layers.map_values(part).flatten(),
    decreases layers.len(),
{
    if layers.len() > 0 {
        let init = layers.drop_last();
        stacked_is_of_each(init, part);
        stacked_of_prefix(init, layers, part, init.len());
        assert(layers.map_values(part) =~= init.map_values(part).push(part(layers.last())));
        init.map_values(part).lemma_flatten_push(part(layers.last()));
    }
}

proof fn stacked_of_prefix(
    first: Seq<BioInspiredLayer>,
    layers: Seq<BioInspiredLayer>,
    part: spec_fn(BioInspiredLayer) -> Seq<u32>,
    n: nat,
)
    requires
        n <= first.len() <= layers.len(),
        first == layers.take(first.len() as int),
    ensures
        stacked(first, part, n) == stacked(layers, part, n),
    decreases n,
{
    if n > 0 {
        stacked_of_prefix(first, layers, part, (n - 1) as nat);
    }
}

/// Layers with `size` values each have `n * size` values together.
proof fn stacked_length(
    layers: Seq<BioInspiredLayer>,
    part: spec_fn(BioInspiredLayer) -> Seq<u32>,
    n: nat,
    size: int,
)
    requires
        n <= layers.len(),
        forall|l: int| 0 <= l < n ==> part(#[trigger] layers[l]).len() == size,
    ensures
        stacked(layers, part, n).len() == n * size,
    decreases n,
{
    if n > 0 {
        stacked_length(layers, part, (n - 1) as nat, size);
        assert(part(layers[n - 1]).len() == size);
        assert((n - 1) * size + size == n * size) by (nonlinear_arith);
    } else {
        assert(0 * size == 0) by (nonlinear_arith);
    }
}

/// Training fills a buffer with weights exactly where the plan says so, and
/// with as many values as the buffer holds.
pub proof fn weights_fill_buffers(w: ArcaSystem, slot: gpu_context::Slot)
    requires
        w.well_formed(),
        w.complete(),
        w.layers@.len() <= usize::MAX,
        gpu_context::slot_exists(slot, w.layers@.len()),
    ensures
        train_values_of(w, slot) is Some <==> gpu_context::start_of(
            slot,
            w.layers@.len() as usize,
        ) is Weights,
        train_values_of(w, slot) matches Some(v) ==> v.len() == gpu_context::words_of(
            slot,
            w.layers@.len() as int,
        ),
{
    let n = w.layers@.len();
    let up = |l: BioInspiredLayer| l.w_up.data@;
    let down = |l: BioInspiredLayer| l.w_down.data@;
    assert forall|l: int| 0 <= l < n implies {
        let layer = #[trigger] w.layers@[l];
        &&& up(layer).len() == 32 * 4096
        &&& down(layer).len() == 32 * 512
        &&& layer.m_base.data@.len() == 32 * 32
    } by {
        assert(w.layers@[l].well_formed());
    }
    stacked_length(w.layers@, up, n, 32int * 4096);
    stacked_length(w.layers@, down, n, 32int * 512);
}

/// Inference fills a buffer with weights exactly where the plan says so; those
/// of the attention do not belong to the system.
pub proof fn inference_weights_as_planned(
    w: ArcaSystem,
    slot: gpu_inference_context::Slot,
    num_layers: usize,
    batch: int,
)
    ensures
        gpu_inference_context::start_of(slot, num_layers, batch) is Weights
            <==> inference_values_of(w, slot) is Some || slot is WQ || slot is WK || slot is WV
            || slot is WO,
{
}

/// Each buffer is filled with the weights that bear its name: matrices in their
/// own order, what exists once for each layer layer by layer, and both copies
/// of a memory with its resting state.
pub proof fn buffers_get_their_weights(w: ArcaSystem, layer: usize, ping: usize)
    ensures
        train_values_of(w, gpu_context::Slot::RMatrix) == Some(w.reservoir.r_matrix.data@),
        train_values_of(w, gpu_context::Slot::WIn) == Some(w.reservoir.w_in.data@),
        train_values_of(w, gpu_context::Slot::WUpAll) == Some(
            w.layers@.map_values(|l: BioInspiredLayer| l.w_up.data@).flatten(),
        ),
        train_values_of(w, gpu_context::Slot::WDownAll) == Some(
            w.layers@.map_values(|l: BioInspiredLayer| l.w_down.data@).flatten(),
        ),
        train_values_of(w, gpu_context::Slot::WOut) == Some(
            w.prediction_head.aggregator.w_out.data@,
        ),
        train_values_of(w, gpu_context::Slot::Memory { layer, ping }) == Some(
            w.layers@[layer as int].m_base.data@,
        ),
        train_values_of(w, gpu_context::Slot::RestingMemory { layer }) == Some(
            w.layers@[layer as int].m_base.data@,
        ),
        train_values_of(w, gpu_context::Slot::OutputEmbeddings) == Some(
            w.prediction_head.head.output_embeddings.data@,
        ),
        train_values_of(w, gpu_context::Slot::OutputBias) == Some(
            w.prediction_head.head.output_bias@,
        ),
        inference_values_of(w, gpu_inference_context::Slot::BpeEmbeddings) == Some(
            w.encoder.bpe_embeddings.data@,
        ),
        inference_values_of(w, gpu_inference_context::Slot::WFusion) == Some(
            w.encoder.w_fusion.data@,
        ),
        inference_values_of(w, gpu_inference_context::Slot::WPhrase) == Some(
            w.encoder.w_phrase.data@,
        ),
        inference_values_of(w, gpu_inference_context::Slot::RMatrix) == Some(
            w.reservoir.r_matrix.data@,
        ),
        inference_values_of(w, gpu_inference_context::Slot::WIn) == Some(w.reservoir.w_in.data@),
        inference_values_of(w, gpu_inference_context::Slot::WUpAll) == Some(
            w.layers@.map_values(|l: BioInspiredLayer| l.w_up.data@).flatten(),
        ),
        inference_values_of(w, gpu_inference_context::Slot::Memories { ping }) == Some(
            w.layers@.map_values(|l: BioInspiredLayer| l.m_base.data@).flatten(),
        ),
        inference_values_of(w, gpu_inference_context::Slot::WOut) == Some(
            w.prediction_head.aggregator.w_out.data@,
        ),
        inference_values_of(w, gpu_inference_context::Slot::OutputEmbeddings) == Some(
            w.prediction_head.head.output_embeddings.data@,
        ),
        inference_values_of(w, gpu_inference_context::Slot::OutputBias) == Some(
            w.prediction_head.head.output_bias@,
        ),
{
    stacked_is_of_each(w.layers@, |l: BioInspiredLayer| l.w_up.data@);
    stacked_is_of_each(w.layers@, |l: BioInspiredLayer| l.w_down.data@);
    stacked_is_of_each(w.layers@, |l: BioInspiredLayer| l.m_base.data@);
}

} // verus!
