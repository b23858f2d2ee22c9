//! The weights of a whole system: reading them from a file, laying out new
//! ones, and storing them.

use crate::audit::{audit, numbered, Verdict};
use crate::encoder::MultiScaleEncoder;
use crate::memory::{HolographicMemoryAggregator, PredictionHead, SparseOutputHead};
use crate::metabolic_core::{BioInspiredLayer, LiquidReservoir, LshRouter};
use crate::sovereign::{SovereignError, SovereignModel};
use crate::tensor::Matrix;
use vstd::prelude::*;

verus! {

use crate::audit::{
    all_steps,
    file_of,
    fine_steps,
    first_steps,
    generable,
    last_steps,
    layer_name,
    layer_steps,
    layers_steps,
    outcome,
    verdict,
    FileModel,
    StepModel,
    VerdictModel,
};
use crate::decimal::decimal;
use crate::sovereign::{is_rank_two, lookup, Lookup};

/// The weights of a system.
pub struct ArcaSystem {
    pub encoder: MultiScaleEncoder,
    pub reservoir: LiquidReservoir,
    pub lsh: LshRouter,
    pub layers: Vec<BioInspiredLayer>,
    pub prediction_head: PredictionHead,
}

/// `name` can be read as a matrix of these dimensions.
pub open spec fn matrix_ready(file: FileModel, name: Seq<char>, rows: int, cols: int) -> bool {
    &&& is_rank_two(file.registry, name)
    &&& lookup(file.bytes, file.registry, name) is Found
    &&& file.registry[name].shape[0] == rows
    &&& file.registry[name].shape[1] == cols
}

/// The tensors of layer `l` can be read.
pub open spec fn layer_ready(file: FileModel, l: nat) -> bool {
    &&& matrix_ready(file, layer_name("w_down_"@, l), 32, 512)
    &&& matrix_ready(file, layer_name("w_up_"@, l), 32, 4096)
    &&& matrix_ready(file, layer_name("m_base_"@, l), 32, 32)
    &&& lookup(file.bytes, file.registry, layer_name("gamma_"@, l)) is Found
    &&& file.registry[layer_name("gamma_"@, l)].byte_len as int / 4 >= 1
}

/// The tensors of the encoder, the reservoir and the router can be read.
pub open spec fn front_ready(file: FileModel) -> bool {
    &&& matrix_ready(file, "bpe_embeddings"@, 4096, 256)
    &&& matrix_ready(file, "w_fusion"@, 512, 512)
    &&& is_rank_two(file.registry, "w_phrase"@)
    &&& lookup(file.bytes, file.registry, "w_phrase"@) is Found
    &&& 4 <= file.registry["w_phrase"@].shape[1] as int / 256 <= 8
    &&& generable(file.header)
    &&& file.header.n_res == 4096
    &&& matrix_ready(file, "w_in"@, 4096, 512)
    &&& is_rank_two(file.registry, "w_lsh"@)
    &&& lookup(file.bytes, file.registry, "w_lsh"@) is Found
    &&& file.registry["w_lsh"@].shape[1] == 4096
}

/// The tensors of the output head can be read.
pub open spec fn head_ready(file: FileModel) -> bool {
    &&& matrix_ready(file, "w_out"@, 512, 4096)
    &&& matrix_ready(file, "output_embeddings"@, 50_000, 512)
    &&& lookup(file.bytes, file.registry, "output_bias"@) is Found
    &&& file.registry["output_bias"@].byte_len as int / 4 == 50_000
}

/// All tensors of a system can be read.
pub open spec fn system_ready(file: FileModel) -> bool {
    &&& front_ready(file)
    &&& forall|l: nat| l < file.header.num_layers ==> #[trigger] layer_ready(file, l)
    &&& head_ready(file)
}

/// Every one of the steps goes through.
spec fn all_fine(file: FileModel, steps: Seq<StepModel>) -> bool {
    forall|i: int| 0 <= i < steps.len() ==> outcome(file, #[trigger] steps[i]) is Fine
}

proof fn all_fine_concat(file: FileModel, a: Seq<StepModel>, b: Seq<StepModel>)
    ensures
        all_fine(file, a + b) <==> all_fine(file, a) && all_fine(file, b),
{
    if all_fine(file, a + b) {
        assert forall|i: int| 0 <= i < a.len() implies outcome(file, #[trigger] a[i]) is Fine by {
            assert((a + b)[i] == a[i]);
        }
        assert forall|i: int| 0 <= i < b.len() implies outcome(file, #[trigger] b[i]) is Fine by {
            assert((a + b)[a.len() + i] == b[i]);
        }
    }
}

proof fn front_fine(file: FileModel)
    ensures
        all_fine(file, first_steps()) <==> front_ready(file),
{
    let s = first_steps();
    if all_fine(file, s) {
        assert(outcome(file, s[0]) is Fine);
        assert(outcome(file, s[1]) is Fine);
        assert(outcome(file, s[2]) is Fine);
        assert(outcome(file, s[3]) is Fine);
        assert(outcome(file, s[4]) is Fine);
        assert(outcome(file, s[5]) is Fine);
        assert(outcome(file, s[6]) is Fine);
        assert(outcome(file, s[7]) is Fine);
        assert(outcome(file, s[8]) is Fine);
        assert(outcome(file, s[9]) is Fine);
        assert(outcome(file, s[10]) is Fine);
        assert(outcome(file, s[11]) is Fine);
    }
}

proof fn layer_fine(file: FileModel, l: nat)
    ensures
        all_fine(file, layer_steps(l)) <==> layer_ready(file, l),
{
    let s = layer_steps(l);
    if all_fine(file, s) {
        assert(outcome(file, s[0]) is Fine);
        assert(outcome(file, s[1]) is Fine);
        assert(outcome(file, s[2]) is Fine);
        assert(outcome(file, s[3]) is Fine);
        assert(outcome(file, s[4]) is Fine);
        assert(outcome(file, s[5]) is Fine);
        assert(outcome(file, s[6]) is Fine);
        assert(outcome(file, s[7]) is Fine);
    }
}

proof fn head_fine(file: FileModel)
    ensures
        all_fine(file, last_steps()) <==> head_ready(file),
{
    let s = last_steps();
    if all_fine(file, s) {
        assert(outcome(file, s[0]) is Fine);
        assert(outcome(file, s[1]) is Fine);
        assert(outcome(file, s[2]) is Fine);
        assert(outcome(file, s[3]) is Fine);
        assert(outcome(file, s[4]) is Fine);
        assert(outcome(file, s[5]) is Fine);
    }
}

proof fn layers_fine(file: FileModel, n: nat)
    ensures
        all_fine(file, layers_steps(n)) <==> forall|l: nat|
            l < n ==> #[trigger] layer_ready(file, l),
    decreases n,
{
    if n > 0 {
        let m = (n - 1) as nat;
        layers_fine(file, m);
        layer_fine(file, m);
        all_fine_concat(file, layers_steps(m), layer_steps(m));
    }
}

/// A system can be built from a file exactly where all its tensors can be read.
pub proof fn fine_is_ready(file: FileModel)
    ensures
        verdict(file) is Fine <==> system_ready(file),
{
    let n = file.header.num_layers as nat;
    fine_steps(file, all_steps(n));
    all_fine_concat(file, first_steps() + layers_steps(n), last_steps());
    all_fine_concat(file, first_steps(), layers_steps(n));
    front_fine(file);
    layers_fine(file, n);
    head_fine(file);
}

/// `matrix` is the tensor `name` of the file.
pub open spec fn is_matrix(matrix: Matrix, file: FileModel, name: Seq<char>) -> bool {
    lookup(file.bytes, file.registry, name) matches Lookup::Found { data, shape } && {
        &&& matrix.well_formed()
        &&& matrix.data@ == data
        &&& matrix.has_shape(shape[0] as int, shape[1] as int)
    }
}

/// `values` are those of the tensor `name` of the file.
pub open spec fn is_vector(values: Seq<u32>, file: FileModel, name: Seq<char>) -> bool {
    lookup(file.bytes, file.registry, name) matches Lookup::Found { data, .. } && values == data
}

/// `layer` holds the tensors of layer `l` of the file.
pub open spec fn is_layer(layer: BioInspiredLayer, file: FileModel, l: nat) -> bool {
    &&& layer.well_formed()
    &&& is_matrix(layer.w_down, file, layer_name("w_down_"@, l))
    &&& is_matrix(layer.w_up, file, layer_name("w_up_"@, l))
    &&& is_matrix(layer.m_base, file, layer_name("m_base_"@, l))
    &&& lookup(file.bytes, file.registry, layer_name("gamma_"@, l)) matches Lookup::Found {
        data,
        ..
    }
    &&& layer.gamma == data[0]
}

impl ArcaSystem {
    /// Every part has its dimensions.
    pub open spec fn well_formed(&self) -> bool {
        &&& self.encoder.well_formed()
        &&& self.reservoir.well_formed()
        &&& self.lsh.w_lsh.cols == 4096
        &&& forall|l: int|
            0 <= l < self.layers@.len() ==> (#[trigger] self.layers@[l]).well_formed()
        &&& self.prediction_head.well_formed()
    }

    /// The weights are those of the file.
    pub open spec fn holds(&self, file: FileModel) -> bool {
        &&& self.well_formed()
        &&& is_matrix(self.encoder.bpe_embeddings, file, "bpe_embeddings"@)
        &&& is_matrix(self.encoder.w_fusion, file, "w_fusion"@)
        &&& is_matrix(self.encoder.w_phrase, file, "w_phrase"@)
        &&& is_matrix(self.reservoir.w_in, file, "w_in"@)
        &&& is_matrix(self.lsh.w_lsh, file, "w_lsh"@)
        &&& self.layers@.len() == file.header.num_layers
        &&& forall|l: int|
            0 <= l < self.layers@.len() ==> is_layer(#[trigger] self.layers@[l], file, l as nat)
        &&& is_matrix(self.prediction_head.aggregator.w_out, file, "w_out"@)
        &&& is_matrix(self.prediction_head.head.output_embeddings, file, "output_embeddings"@)
        &&& is_vector(self.prediction_head.head.output_bias@, file, "output_bias"@)
    }

    /// Read the weights of a system. `r_matrix` is the reservoir matrix that
    /// the seed of the header generates; it matters only where all tensors can
    /// be read.
    pub fn from_sovereign(model: &SovereignModel, r_matrix: Matrix) -> (out: Result<
        Self,
        SovereignError,
    >)
        requires
            !(verdict(file_of(*model)) is Unusable),
            verdict(file_of(*model)) is Fine ==> r_matrix.has_shape(
                model.header.n_res as int,
                model.header.n_res as int,
            ),
        ensures
            match verdict(file_of(*model)) {
                VerdictModel::Fine => out matches Ok(weights) && weights.holds(file_of(*model))
                    && weights.reservoir.r_matrix == r_matrix,
                VerdictModel::Missing { name } => out matches Err(
                    SovereignError::TensorNotFound(n),
                ) && n@ == name,
                VerdictModel::Misaligned => out matches Err(SovereignError::AlignmentError),
                VerdictModel::Unusable => false,
            },
    {
        let ghost file = file_of(*model);
        match audit(model) {
            Verdict::Missing { name } => {
                return Err(SovereignError::TensorNotFound(name));
            },
            Verdict::Misaligned => {
                return Err(SovereignError::AlignmentError);
            },
            _ => {},
        }
        proof {
            fine_is_ready(file);
        }
        let bpe_embeddings = model.tensor_as_array2("bpe_embeddings")?;
        let w_fusion = model.tensor_as_array2("w_fusion")?;
        let w_phrase = model.tensor_as_array2("w_phrase")?;
        let encoder = MultiScaleEncoder::new(bpe_embeddings, w_fusion, w_phrase);
        let w_in = model.tensor_as_array2("w_in")?;
        let reservoir = LiquidReservoir::new(r_matrix, w_in);
        let w_lsh = model.tensor_as_array2("w_lsh")?;
        let lsh = LshRouter::new(w_lsh);
        let mut layers: Vec<BioInspiredLayer> = Vec::new();
        let mut l: usize = 0;
        while l < model.header.num_layers
            invariant
                file == file_of(*model),
                system_ready(file),
                verdict(file) is Fine,
                l <= model.header.num_layers,
                layers@.len() == l,
                forall|k: int| 0 <= k < l ==> is_layer(#[trigger] layers@[k], file, k as nat),
            decreases model.header.num_layers - l,
        {
            assert(layer_ready(file, l as nat));
            let w_down = model.tensor_as_array2(numbered("w_down_", l).as_str())?;
            let w_up = model.tensor_as_array2(numbered("w_up_", l).as_str())?;
            let m_base = model.tensor_as_array2(numbered("m_base_", l).as_str())?;
            let gamma = model.tensor_as_array1(numbered("gamma_", l).as_str())?;
            layers.push(BioInspiredLayer::new(w_down, w_up, m_base, gamma[0]));
            l += 1;
        }
        let w_out = model.tensor_as_array2("w_out")?;
        let aggregator = HolographicMemoryAggregator::new(w_out);
        let output_embeddings = model.tensor_as_array2("output_embeddings")?;
        let output_bias = model.tensor_as_array1("output_bias")?;
        let head = SparseOutputHead::new(output_embeddings, output_bias);
        let prediction_head = PredictionHead::new(aggregator, head);
        Ok(ArcaSystem { encoder, reservoir, lsh, layers, prediction_head })
    }
}

/// Each weight of a system that holds a file is the tensor of its name there,
/// and gamma of a layer is the first value of its tensor.
pub proof fn weights_bear_names(w: ArcaSystem, file: FileModel, l: nat)
    requires
        w.holds(file),
    ensures
        ({
            let values = |name: Seq<char>| lookup(file.bytes, file.registry, name)->data;
            let dims = |name: Seq<char>| file.registry[name].shape;
            let layer = w.layers@[l as int];
            &&& w.encoder.bpe_embeddings.data@ == values("bpe_embeddings"@)
            &&& w.encoder.w_fusion.data@ == values("w_fusion"@)
            &&& w.encoder.w_phrase.data@ == values("w_phrase"@)
            &&& w.encoder.w_phrase.rows == dims("w_phrase"@)[0]
            &&& w.encoder.w_phrase.cols == dims("w_phrase"@)[1]
            &&& w.encoder.phrase_window == w.encoder.w_phrase.cols as int / 256
            &&& w.reservoir.w_in.data@ == values("w_in"@)
            &&& w.lsh.w_lsh.data@ == values("w_lsh"@)
            &&& w.lsh.w_lsh.rows == dims("w_lsh"@)[0]
            &&& w.lsh.w_lsh.cols == 4096
            &&& w.prediction_head.aggregator.w_out.data@ == values("w_out"@)
            &&& w.prediction_head.head.output_embeddings.data@ == values("output_embeddings"@)
            &&& w.prediction_head.head.output_bias@ == values("output_bias"@)
            &&& w.layers@.len() == file.header.num_layers
            &&& l < w.layers@.len() ==> {
                &&& layer.w_down.data@ == values("w_down_"@ + decimal(l))
                &&& layer.w_up.data@ == values("w_up_"@ + decimal(l))
                &&& layer.m_base.data@ == values("m_base_"@ + decimal(l))
                &&& layer.gamma == values("gamma_"@ + decimal(l))[0]
            }
        }),
{
    if l < w.layers@.len() {
        assert(is_layer(w.layers@[l as int], file, l));
    }
}

/// Every part of a well-formed system has the dimensions that the model is made
/// for.
pub proof fn parts_have_dimensions(w: ArcaSystem, l: int)
    requires
        w.well_formed(),
    ensures
        w.encoder.bpe_embeddings.rows == 4096 && w.encoder.bpe_embeddings.cols == 256,
        w.encoder.w_fusion.rows == 512 && w.encoder.w_fusion.cols == 512,
        4 <= w.encoder.phrase_window <= 8,
        w.reservoir.r_matrix.rows == 4096 && w.reservoir.r_matrix.cols == 4096,
        w.reservoir.w_in.rows == 4096 && w.reservoir.w_in.cols == 512,
        w.lsh.w_lsh.cols == 4096,
        0 <= l < w.layers@.len() ==> {
            let layer = w.layers@[l];
            &&& layer.w_down.rows == 32 && layer.w_down.cols == 512
            &&& layer.w_up.rows == 32 && layer.w_up.cols == 4096
            &&& layer.m_base.rows == 32 && layer.m_base.cols == 32
        },
        w.prediction_head.aggregator.w_out.rows == 512,
        w.prediction_head.aggregator.w_out.cols == 4096,
        w.prediction_head.head.output_embeddings.rows == 50_000,
        w.prediction_head.head.output_embeddings.cols == 512,
        w.prediction_head.head.output_bias@.len() == 50_000,
{
}

} // verus!
