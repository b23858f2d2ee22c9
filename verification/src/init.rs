//! The tensors of a new system: their names, their dimensions, and how they
//! are filled.

use crate::audit::numbered;
use crate::encoder::MultiScaleEncoder;
use crate::memory::{HolographicMemoryAggregator, PredictionHead, SparseOutputHead};
use crate::metabolic_core::{BioInspiredLayer, LiquidReservoir, LshRouter};
use crate::system::ArcaSystem;
use crate::tensor::Matrix;
use vstd::prelude::*;

verus! {

use crate::audit::{file_of, generable, layer_name, FileModel};
use crate::layout::{
    data_start,
    file_bytes,
    read_dict,
    read_head,
    DictModel,
    HeadModel,
    TensorModel,
};
use crate::decimal::decimal;
use crate::round_trip::{file_storable, registry_of};
use crate::sovereign::{lookup, SovereignHeader, SovereignModel};
use crate::system::{front_ready, head_ready, layer_ready, system_ready};

/// How the values of a new tensor are chosen.
#[derive(Debug, Clone, Copy, PartialEq, Eq, Structural)]
pub enum Fill {
    /// Random, in a range that depends on the number of rows and columns.
    Scaled,
    /// Random, of small size.
    Noise,
    /// Random, as a starting value of a gate.
    Gate,
    Zeros,
}

/// A tensor of a new system.
#[derive(Debug, Clone)]
pub struct TensorPlan {
    pub name: String,
    pub shape: Vec<usize>,
    pub fill: Fill,
}

/// A tensor of a new system.
pub struct PlanModel {
    pub name: Seq<char>,
    pub shape: Seq<usize>,
    pub fill: Fill,
}

impl View for TensorPlan {
    type V = PlanModel;

    open spec fn view(&self) -> PlanModel {
        PlanModel { name: self.name@, shape: self.shape@, fill: self.fill }
    }
}

/// The tensors that do not belong to a layer.
pub open spec fn fixed_plan(lsh_k: usize, bias: Fill) -> Seq<PlanModel> {
    seq![
        PlanModel {
            name: "bpe_embeddings"@,
            shape: seq![4096usize, 256usize],
            fill: Fill::Scaled,
        },
        PlanModel { name: "w_fusion"@, shape: seq![512usize, 512usize], fill: Fill::Scaled },
        PlanModel { name: "w_phrase"@, shape: seq![128usize, 1024usize], fill: Fill::Scaled },
        PlanModel { name: "w_in"@, shape: seq![4096usize, 512usize], fill: Fill::Scaled },
        PlanModel { name: "w_lsh"@, shape: seq![lsh_k, 4096usize], fill: Fill::Scaled },
        PlanModel { name: "w_out"@, shape: seq![512usize, 4096usize], fill: Fill::Scaled },
        PlanModel {
            name: "output_embeddings"@,
            shape: seq![50_000usize, 512usize],
            fill: Fill::Scaled,
        },
        PlanModel { name: "output_bias"@, shape: seq![50_000usize], fill: bias },
    ]
}

/// The tensors of layer `l`.
pub open spec fn layer_plan(l: nat) -> Seq<PlanModel> {
    seq![
        PlanModel {
            name: layer_name("w_down_"@, l),
            shape: seq![32usize, 512usize],
            fill: Fill::Scaled,
        },
        PlanModel {
            name: layer_name("w_up_"@, l),
            shape: seq![32usize, 4096usize],
            fill: Fill::Scaled,
        },
        PlanModel {
            name: layer_name("m_base_"@, l),
            shape: seq![32usize, 32usize],
            fill: Fill::Zeros,
        },
        PlanModel { name: layer_name("gamma_"@, l), shape: seq![1usize], fill: Fill::Gate },
    ]
}

/// The tensors of a system with `n` layers; `bias` is how the output bias is
/// filled.
pub open spec fn system_plan(lsh_k: usize, n: nat, bias: Fill) -> Seq<PlanModel> {
    Seq::new(
        8 + 4 * n,
        |i: int|
            if i < 8 {
                fixed_plan(lsh_k, bias)[i]
            } else {
                layer_plan(((i - 8) / 4) as nat)[(i - 8) % 4]
            },
    )
}

/// The number of values of a tensor with these dimensions.
pub open spec fn volume(shape: Seq<usize>) -> int
    decreases shape.len(),
{
    if shape.len() == 0 {
        1
    } else {
        volume(shape.drop_last()) * shape.last()
    }
}

fn push_plan(plan: &mut Vec<TensorPlan>, name: String, shape: Vec<usize>, fill: Fill)
    ensures
        final(plan)@.map_values(|p: TensorPlan| p@) == old(plan)@.map_values(
            |p: TensorPlan| p@,
        ).push(PlanModel { name: name@, shape: shape@, fill }),
{
    plan.push(TensorPlan { name, shape, fill });
    assert(plan@.map_values(|p: TensorPlan| p@) =~= old(plan)@.map_values(
        |p: TensorPlan| p@,
    ).push(PlanModel { name: name@, shape: shape@, fill }));
}

/// The tensors of a new system, in the order in which they are stored.
pub fn init_plan(lsh_k: usize, num_layers: usize, bias: Fill) -> (plan: Vec<TensorPlan>)
    ensures
        plan@.map_values(|p: TensorPlan| p@) == system_plan(lsh_k, num_layers as nat, bias),
{
    let mut plan: Vec<TensorPlan> = Vec::new();
    let ghost whole = system_plan(lsh_k, num_layers as nat, bias);
    let ghost fixed = fixed_plan(lsh_k, bias);
    push_plan(&mut plan, "bpe_embeddings".to_owned(), vec![4096, 256], Fill::Scaled);
    push_plan(&mut plan, "w_fusion".to_owned(), vec![512, 512], Fill::Scaled);
    push_plan(&mut plan, "w_phrase".to_owned(), vec![128, 1024], Fill::Scaled);
    push_plan(&mut plan, "w_in".to_owned(), vec![4096, 512], Fill::Scaled);
    push_plan(&mut plan, "w_lsh".to_owned(), vec![lsh_k, 4096], Fill::Scaled);
    push_plan(&mut plan, "w_out".to_owned(), vec![512, 4096], Fill::Scaled);
    push_plan(&mut plan, "output_embeddings".to_owned(), vec![50_000, 512], Fill::Scaled);
    push_plan(&mut plan, "output_bias".to_owned(), vec![50_000], bias);
    proof {
        let models = plan@.map_values(|p: TensorPlan| p@);
        assert forall|i: int| 0 <= i < 8 implies models[i] == fixed[i] by {
            assert(models[i].shape =~= fixed[i].shape);
        }
        assert(models =~= whole.take(8));
    }
    let mut l: usize = 0;
    while l < num_layers
        invariant
            l <= num_layers,
            whole == system_plan(lsh_k, num_layers as nat, bias),
            plan@.map_values(|p: TensorPlan| p@) == whole.take(8 + 4 * l),
        decreases num_layers - l,
    {
        push_plan(&mut plan, numbered("w_down_", l), vec![32, 512], Fill::Scaled);
        push_plan(&mut plan, numbered("w_up_", l), vec![32, 4096], Fill::Scaled);
        push_plan(&mut plan, numbered("m_base_", l), vec![32, 32], Fill::Zeros);
        push_plan(&mut plan, numbered("gamma_", l), vec![1], Fill::Gate);
        proof {
            let models = plan@.map_values(|p: TensorPlan| p@);
            let layer = layer_plan(l as nat);
            let at = 8 + 4 * l;
            assert(models[at].shape =~= layer[0].shape && whole[at] == layer[0]);
            assert(models[at + 1].shape =~= layer[1].shape && whole[at + 1] == layer[1]);
            assert(models[at + 2].shape =~= layer[2].shape && whole[at + 2] == layer[2]);
            assert(models[at + 3].shape =~= layer[3].shape && whole[at + 3] == layer[3]);
            assert(models =~= whole.take(8 + 4 * (l + 1)));
        }
        l += 1;
    }
    assert(whole.take(8 + 4 * num_layers) =~= whole);
    plan
}

/// `data` holds the values of the tensors of a plan, in order.
pub open spec fn fills(data: Seq<Vec<u32>>, plan: Seq<PlanModel>) -> bool {
    &&& data.len() == plan.len()
    &&& forall|i: int|
        0 <= i < data.len() ==> (#[trigger] data[i])@.len() == volume(plan[i].shape)
}

proof fn volume_of_two(rows: usize, cols: usize)
    ensures
        volume(seq![rows, cols]) == rows * cols,
{
    let shape = seq![rows, cols];
    assert(shape.drop_last() =~= seq![rows]);
    assert(seq![rows].drop_last() =~= Seq::<usize>::empty());
    reveal_with_fuel(volume, 3);
    assert(1 * rows as int == rows) by (nonlinear_arith);
}

proof fn volume_of_one(n: usize)
    ensures
        volume(seq![n]) == n,
{
    assert(seq![n].drop_last() =~= Seq::<usize>::empty());
    reveal_with_fuel(volume, 2);
    assert(1 * n as int == n) by (nonlinear_arith);
}

/// A matrix of given values.
fn matrix_of(values: &Vec<u32>, rows: usize, cols: usize) -> (matrix: Matrix)
    requires
        values@.len() == rows * cols,
    ensures
        matrix.well_formed(),
        matrix.has_shape(rows as int, cols as int),
        matrix.data@ == values@,
{
    let data = values.clone();
    assert(data@ =~= values@);
    Matrix { rows, cols, data }
}

/// `layer` holds the values of layer `l` of a plan.
pub open spec fn layer_filled(layer: BioInspiredLayer, data: Seq<Vec<u32>>, l: int) -> bool {
    &&& layer.well_formed()
    &&& layer.w_down.data@ == data[8 + 4 * l]@
    &&& layer.w_up.data@ == data[8 + 4 * l + 1]@
    &&& layer.m_base.data@ == data[8 + 4 * l + 2]@
    &&& layer.gamma == data[8 + 4 * l + 3]@[0]
}

impl ArcaSystem {
    /// The weights are the values of a plan, in order.
    pub open spec fn filled_with(&self, data: Seq<Vec<u32>>) -> bool {
        &&& self.well_formed()
        &&& self.encoder.bpe_embeddings.data@ == data[0]@
        &&& self.encoder.w_fusion.data@ == data[1]@
        &&& self.encoder.w_phrase.data@ == data[2]@
        &&& self.reservoir.w_in.data@ == data[3]@
        &&& self.lsh.w_lsh.data@ == data[4]@
        &&& self.prediction_head.aggregator.w_out.data@ == data[5]@
        &&& self.prediction_head.head.output_embeddings.data@ == data[6]@
        &&& self.prediction_head.head.output_bias@ == data[7]@
        &&& forall|l: int|
            0 <= l < self.layers@.len() ==> layer_filled(#[trigger] self.layers@[l], data, l)
    }

    /// A system of new weights. `data` holds the values for `init_plan`, and
    /// `r_matrix` is the reservoir matrix that the seed of the header
    /// generates.
    pub fn new_random(header: &SovereignHeader, data: &Vec<Vec<u32>>, r_matrix: Matrix) -> (out:
        Self)
        requires
            header.n_res == 4096,
            r_matrix.has_shape(header.n_res as int, header.n_res as int),
            fills(
                data@,
                system_plan(header.lsh_k, header.num_layers as nat, Fill::Noise),
            ),
        ensures
            out.filled_with(data@),
            out.layers@.len() == header.num_layers,
            out.lsh.w_lsh.has_shape(header.lsh_k as int, 4096),
            out.encoder.w_phrase.well_formed(),
            out.encoder.w_phrase.has_shape(128, 1024),
            out.encoder.phrase_window == 4,
            out.reservoir.r_matrix == r_matrix,
            r_matrix.well_formed() ==> out.complete(),
            out.encoder.bpe_embeddings.data@ == data@[0]@,
            out.encoder.w_fusion.data@ == data@[1]@,
            out.encoder.w_phrase.data@ == data@[2]@,
            out.reservoir.w_in.data@ == data@[3]@,
            out.lsh.w_lsh.data@ == data@[4]@,
            out.prediction_head.aggregator.w_out.data@ == data@[5]@,
            out.prediction_head.head.output_embeddings.data@ == data@[6]@,
            out.prediction_head.head.output_bias@ == data@[7]@,
            forall|l: int|
                0 <= l < header.num_layers ==> {
                    let layer = #[trigger] out.layers@[l];
                    &&& layer.w_down.data@ == data@[8 + 4 * l]@
                    &&& layer.w_up.data@ == data@[8 + 4 * l + 1]@
                    &&& layer.m_base.data@ == data@[8 + 4 * l + 2]@
                    &&& layer.gamma == data@[8 + 4 * l + 3]@[0]
                },
    {
        let ghost plan = system_plan(header.lsh_k, header.num_layers as nat, Fill::Noise);
        let ghost fixed = fixed_plan(header.lsh_k, Fill::Noise);
        proof {
            volume_of_two(4096, 256);
            volume_of_two(512, 512);
            volume_of_two(128, 1024);
            volume_of_two(4096, 512);
            volume_of_two(header.lsh_k, 4096);
            volume_of_two(512, 4096);
            volume_of_two(50_000, 512);
            volume_of_one(50_000);
            assert(forall|i: int| 0 <= i < 8 ==> plan[i] == fixed[i]);
            assert(data@[0]@.len() == 4096 * 256);
            assert(data@[1]@.len() == 512 * 512);
            assert(data@[2]@.len() == 128 * 1024);
            assert(data@[3]@.len() == 4096 * 512);
            assert(data@[4]@.len() == header.lsh_k * 4096);
            assert(data@[5]@.len() == 512 * 4096);
            assert(data@[6]@.len() == 50_000 * 512);
            assert(data@[7]@.len() == 50_000);
        }
        let encoder = MultiScaleEncoder::new(
            matrix_of(&data[0], 4096, 256),
            matrix_of(&data[1], 512, 512),
            matrix_of(&data[2], 128, 1024),
        );
        let reservoir = LiquidReservoir::new(r_matrix, matrix_of(&data[3], 4096, 512));
        let lsh = LshRouter::new(matrix_of(&data[4], header.lsh_k, 4096));
        let aggregator = HolographicMemoryAggregator::new(matrix_of(&data[5], 512, 4096));
        let bias = data[7].clone();
        assert(bias@ =~= data@[7]@);
        let head = SparseOutputHead::new(matrix_of(&data[6], 50_000, 512), bias);
        let prediction_head = PredictionHead::new(aggregator, head);
        let mut layers: Vec<BioInspiredLayer> = Vec::new();
        let mut l: usize = 0;
        while l < header.num_layers
            invariant
                plan == system_plan(header.lsh_k, header.num_layers as nat, Fill::Noise),
                fills(data@, plan),
                l <= header.num_layers,
                layers@.len() == l,
                forall|k: int|
                    0 <= k < l ==> {
                        &&& layer_filled(#[trigger] layers@[k], data@, k)
                        &&& layers@[k].w_up.well_formed()
                        &&& layers@[k].w_down.well_formed()
                        &&& layers@[k].m_base.well_formed()
                    },
            decreases header.num_layers - l,
        {
            let at: usize = data.len() - 4 * (header.num_layers - l);
            proof {
                let layer = layer_plan(l as nat);
                volume_of_two(32, 512);
                volume_of_two(32, 4096);
                volume_of_two(32, 32);
                volume_of_one(1);
                assert(at == 8 + 4 * l);
                assert(plan[8 + 4 * l] == layer[0]);
                assert(plan[8 + 4 * l + 1] == layer[1]);
                assert(plan[8 + 4 * l + 2] == layer[2]);
                assert(plan[8 + 4 * l + 3] == layer[3]);
                assert(data@[8 + 4 * l]@.len() == 32 * 512);
                assert(data@[8 + 4 * l + 1]@.len() == 32 * 4096);
                assert(data@[8 + 4 * l + 2]@.len() == 32 * 32);
                assert(data@[8 + 4 * l + 3]@.len() == 1);
            }
            layers.push(
                BioInspiredLayer::new(
                    matrix_of(&data[at], 32, 512),
                    matrix_of(&data[at + 1], 32, 4096),
                    matrix_of(&data[at + 2], 32, 32),
                    data[at + 3][0],
                ),
            );
            l += 1;
        }
        ArcaSystem { encoder, reservoir, lsh, layers, prediction_head }
    }
}

/// `tensors` are those of a plan.
pub open spec fn realizes(tensors: Seq<TensorModel>, plan: Seq<PlanModel>) -> bool {
    &&& tensors.len() == plan.len()
    &&& forall|i: int|
        0 <= i < tensors.len() ==> {
            &&& (#[trigger] tensors[i]).name == plan[i].name
            &&& tensors[i].shape == plan[i].shape
            &&& tensors[i].data.len() == volume(plan[i].shape)
        }
}

/// What a written file holds.
pub open spec fn written_file(
    header: SovereignHeader,
    header_json: Seq<char>,
    tensors: Seq<TensorModel>,
) -> FileModel {
    FileModel {
        header,
        bytes: file_bytes(header_json, tensors),
        registry: registry_of(tensors, data_start(header_json, tensors)),
    }
}

/// A file that was written and loaded again holds what was written.
pub proof fn written_file_is_loaded(
    header: SovereignHeader,
    header_json: Seq<char>,
    tensors: Seq<TensorModel>,
    model: SovereignModel,
)
    requires
        file_storable(header_json, tensors),
        model.header == header,
        model.bytes@ == file_bytes(header_json, tensors),
        read_head(model.bytes@) matches HeadModel::Head { dict_start, .. } && read_dict(
            model.bytes@,
            dict_start,
        ) matches DictModel::Read { registry, .. } && model.registry() == registry,
    ensures
        file_of(model) == written_file(header, header_json, tensors),
{
    crate::round_trip::head_read_back(header_json, tensors);
    crate::round_trip::dict_read_back(header_json, tensors);
}

/// A tensor of a written plan is found in the file.
proof fn planned_tensor_found(
    header: SovereignHeader,
    header_json: Seq<char>,
    tensors: Seq<TensorModel>,
    lsh_k: usize,
    n: nat,
    bias: Fill,
    k: int,
)
    requires
        realizes(tensors, system_plan(lsh_k, n, bias)),
        file_storable(header_json, tensors),
        0 <= k < tensors.len(),
    ensures
        ({
            let file = written_file(header, header_json, tensors);
            let plan = system_plan(lsh_k, n, bias)[k];
            &&& file.registry.contains_key(plan.name)
            &&& file.registry[plan.name].shape == plan.shape
            &&& file.registry[plan.name].byte_len == 4 * volume(plan.shape)
            &&& lookup(file.bytes, file.registry, plan.name) is Found
        }),
{
    let plan = system_plan(lsh_k, n, bias);
    let start = data_start(header_json, tensors);
    assert(tensors[k].name == plan[k].name);
    assert forall|j: int| k < j < tensors.len() implies (#[trigger] tensors[j]).name
        != tensors[k].name by {
        crate::names::plan_names_differ(lsh_k, n, bias, k, j);
    }
    crate::round_trip::registry_holds(tensors, start, k);
    crate::round_trip::head_read_back(header_json, tensors);
    crate::round_trip::dict_read_back(header_json, tensors);
    crate::round_trip::data_read_back(header_json, tensors, k);
    crate::sovereign::written_tensor_is_found(header_json, tensors, k);
}

/// The tensors of a plan, once written, make up a system: a file made for a
/// header is one from which a system can be built.
pub proof fn new_file_is_ready(
    header: SovereignHeader,
    header_json: Seq<char>,
    tensors: Seq<TensorModel>,
    bias: Fill,
)
    requires
        header.n_res == 4096,
        generable(header),
        realizes(tensors, system_plan(header.lsh_k, header.num_layers as nat, bias)),
        file_storable(header_json, tensors),
    ensures
        system_ready(written_file(header, header_json, tensors)),
{
    let n = header.num_layers as nat;
    let k = header.lsh_k;
    let plan = system_plan(k, n, bias);
    let fixed = fixed_plan(k, bias);
    let file = written_file(header, header_json, tensors);
    assert forall|i: int| 0 <= i < plan.len() implies {
        let p = #[trigger] plan[i];
        &&& file.registry.contains_key(p.name)
        &&& file.registry[p.name].shape == p.shape
        &&& file.registry[p.name].byte_len == 4 * volume(p.shape)
        &&& lookup(file.bytes, file.registry, p.name) is Found
    } by {
        planned_tensor_found(header, header_json, tensors, k, n, bias, i);
    }
    volume_of_two(4096, 256);
    volume_of_two(512, 512);
    volume_of_two(128, 1024);
    volume_of_two(4096, 512);
    volume_of_two(k, 4096);
    volume_of_two(512, 4096);
    volume_of_two(50_000, 512);
    volume_of_one(50_000);
    assert(plan[0] == fixed[0]);
    assert(plan[1] == fixed[1]);
    assert(plan[2] == fixed[2]);
    assert(plan[3] == fixed[3]);
    assert(plan[4] == fixed[4]);
    assert(plan[5] == fixed[5]);
    assert(plan[6] == fixed[6]);
    assert(plan[7] == fixed[7]);
    assert(front_ready(file));
    assert(head_ready(file));
    assert forall|l: nat| l < header.num_layers implies #[trigger] layer_ready(file, l) by {
        let layer = layer_plan(l);
        volume_of_two(32, 512);
        volume_of_two(32, 4096);
        volume_of_two(32, 32);
        volume_of_one(1);
        let at = 8 + 4 * l as int;
        assert(plan[at] == layer[0]);
        assert(plan[at + 1] == layer[1]);
        assert(plan[at + 2] == layer[2]);
        assert(plan[at + 3] == layer[3]);
    }
}

/// The number of values is the product of the dimensions.
pub proof fn volume_is_product(shape: Seq<usize>, n: usize)
    ensures
        volume(Seq::empty()) == 1,
        volume(shape.push(n)) == volume(shape) * n,
{
    assert(shape.push(n).drop_last() =~= shape);
}

/// The tensors of a new system: their names, dimensions and how they are
/// filled.
pub proof fn new_system_has_tensors(lsh_k: usize, n: nat, bias: Fill, l: nat)
    ensures
        ({
            let p = system_plan(lsh_k, n, bias);
            let at = 8 + 4 * l as int;
            let scaled = Fill::Scaled;
            &&& p.len() == 8 + 4 * n
            &&& p[0].name == "bpe_embeddings"@ && p[0].shape == seq![4096usize, 256usize]
            &&& p[1].name == "w_fusion"@ && p[1].shape == seq![512usize, 512usize]
            &&& p[2].name == "w_phrase"@ && p[2].shape == seq![128usize, 1024usize]
            &&& p[3].name == "w_in"@ && p[3].shape == seq![4096usize, 512usize]
            &&& p[4].name == "w_lsh"@ && p[4].shape == seq![lsh_k, 4096usize]
            &&& p[5].name == "w_out"@ && p[5].shape == seq![512usize, 4096usize]
            &&& p[6].name == "output_embeddings"@ && p[6].shape == seq![50_000usize, 512usize]
            &&& p[7].name == "output_bias"@ && p[7].shape == seq![50_000usize]
            &&& forall|i: int| 0 <= i < 7 ==> (#[trigger] p[i]).fill == scaled
            &&& p[7].fill == bias
            &&& l < n ==> {
                &&& p[at].name == "w_down_"@ + decimal(l) && p[at].shape == seq![32usize, 512usize]
                &&& p[at + 1].name == "w_up_"@ + decimal(l) && p[at + 1].shape
                    == seq![32usize, 4096usize]
                &&& p[at + 2].name == "m_base_"@ + decimal(l) && p[at + 2].shape
                    == seq![32usize, 32usize]
                &&& p[at + 3].name == "gamma_"@ + decimal(l) && p[at + 3].shape == seq![1usize]
                &&& p[at].fill == scaled && p[at + 1].fill == scaled
                &&& p[at + 2].fill == Fill::Zeros && p[at + 3].fill == Fill::Gate
            }
        }),
{
    let p = system_plan(lsh_k, n, bias);
    let fixed = fixed_plan(lsh_k, bias);
    assert(forall|i: int| 0 <= i < 8 ==> p[i] == fixed[i]);
    if l < n {
        let at = 8 + 4 * l as int;
        let layer = layer_plan(l);
        assert(p[at] == layer[0]);
        assert(p[at + 1] == layer[1]);
        assert(p[at + 2] == layer[2]);
        assert(p[at + 3] == layer[3]);
    }
}

/// Values fill a plan where there are as many for each tensor as it has places.
pub proof fn values_fill_places(data: Seq<Vec<u32>>, plan: Seq<PlanModel>)
    ensures
        fills(data, plan) <==> data.len() == plan.len() && forall|i: int|
            0 <= i < data.len() ==> (#[trigger] data[i])@.len() == volume(plan[i].shape),
{
}

/// A planned tensor is its name, its dimensions and how it is filled.
pub proof fn planned_tensor_is_its_parts(plan: TensorPlan)
    ensures
        plan@.name == plan.name@,
        plan@.shape == plan.shape@,
        plan@.fill == plan.fill,
{
}

} // verus!
