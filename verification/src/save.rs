//! Storing the weights of a system.

use crate::audit::numbered;
use crate::metabolic_core::BioInspiredLayer;
use crate::system::ArcaSystem;
use crate::writer::{file_image, TensorRecord};
use vstd::prelude::*;

verus! {

use crate::audit::{file_of, generable, layer_name, verdict};
use crate::decimal::decimal;
use crate::init::{written_file, written_file_is_loaded};
use crate::layout::{
    data_start,
    file_bytes,
    file_size,
    read_dict,
    read_head,
    DictModel,
    HeadModel,
    TensorModel,
};
use crate::names::{fixed_name, layer_prefix};
use crate::round_trip::file_storable;
use crate::sovereign::{lookup, Lookup, SovereignHeader, SovereignModel};
use crate::system::{
    fine_is_ready,
    front_ready,
    head_ready,
    is_layer,
    is_matrix,
    is_vector,
    layer_ready,
};
use crate::tensor::Matrix;
use crate::writer::{model_of, models_of};

/// A tensor with its own copy of the values.
#[derive(Debug, Clone)]
pub struct StoredTensor {
    pub name: String,
    /// The bit patterns of the values.
    pub data: Vec<u32>,
    pub shape: Vec<usize>,
}

impl View for StoredTensor {
    type V = TensorModel;

    open spec fn view(&self) -> TensorModel {
        TensorModel { name: self.name@, data: self.data@, shape: self.shape@ }
    }
}

/// The tensors outside the layers.
pub open spec fn fixed_tensors(w: ArcaSystem) -> Seq<TensorModel> {
    seq![
        TensorModel {
            name: "bpe_embeddings"@,
            data: w.encoder.bpe_embeddings.data@,
            shape: seq![4096usize, 256usize],
        },
        TensorModel {
            name: "w_fusion"@,
            data: w.encoder.w_fusion.data@,
            shape: seq![512usize, 512usize],
        },
        TensorModel {
            name: "w_phrase"@,
            data: w.encoder.w_phrase.data@,
            shape: seq![w.encoder.w_phrase.rows, w.encoder.w_phrase.cols],
        },
        TensorModel {
            name: "w_in"@,
            data: w.reservoir.w_in.data@,
            shape: seq![4096usize, 512usize],
        },
        TensorModel {
            name: "w_lsh"@,
            data: w.lsh.w_lsh.data@,
            shape: seq![w.lsh.w_lsh.rows, w.lsh.w_lsh.cols],
        },
        TensorModel {
            name: "w_out"@,
            data: w.prediction_head.aggregator.w_out.data@,
            shape: seq![512usize, 4096usize],
        },
        TensorModel {
            name: "output_embeddings"@,
            data: w.prediction_head.head.output_embeddings.data@,
            shape: seq![50_000usize, 512usize],
        },
        TensorModel {
            name: "output_bias"@,
            data: w.prediction_head.head.output_bias@,
            shape: seq![50_000usize],
        },
    ]
}

/// The tensors of layer `l`.
pub open spec fn layer_tensors(layer: BioInspiredLayer, l: nat) -> Seq<TensorModel> {
    seq![
        TensorModel {
            name: layer_name("w_down_"@, l),
            data: layer.w_down.data@,
            shape: seq![32usize, 512usize],
        },
        TensorModel {
            name: layer_name("w_up_"@, l),
            data: layer.w_up.data@,
            shape: seq![32usize, 4096usize],
        },
        TensorModel {
            name: layer_name("m_base_"@, l),
            data: layer.m_base.data@,
            shape: seq![32usize, 32usize],
        },
        TensorModel {
            name: layer_name("gamma_"@, l),
            data: seq![layer.gamma],
            shape: seq![1usize],
        },
    ]
}

/// The tensors that are stored, in order: all weights but the reservoir matrix,
/// which its seed generates.
pub open spec fn saved_tensors(w: ArcaSystem) -> Seq<TensorModel> {
    Seq::new(
        8 + 4 * w.layers@.len(),
        |i: int|
            if i < 8 {
                fixed_tensors(w)[i]
            } else {
                layer_tensors(w.layers@[(i - 8) / 4], ((i - 8) / 4) as nat)[(i - 8) % 4]
            },
    )
}

fn push_tensor(tensors: &mut Vec<StoredTensor>, name: String, data: &Vec<u32>, shape: Vec<usize>)
    ensures
        final(tensors)@.map_values(|t: StoredTensor| t@) == old(tensors)@.map_values(
            |t: StoredTensor| t@,
        ).push(TensorModel { name: name@, data: data@, shape: shape@ }),
{
    let copy = data.clone();
    assert(copy@ =~= data@);
    tensors.push(StoredTensor { name, data: copy, shape });
    assert(tensors@.map_values(|t: StoredTensor| t@) =~= old(tensors)@.map_values(
        |t: StoredTensor| t@,
    ).push(TensorModel { name: name@, data: data@, shape: shape@ }));
}

/// Tensors as records of a file.
pub fn as_records(tensors: &[StoredTensor]) -> (records: Vec<TensorRecord<'_>>)
    ensures
        models_of(records@) == tensors@.map_values(|t: StoredTensor| t@),
        records@.len() == tensors@.len(),
        forall|i: int|
            0 <= i < records@.len() ==> {
                &&& (#[trigger] records@[i]).0@ == tensors@[i].name@
                &&& records@[i].1@ == tensors@[i].data@
                &&& records@[i].2@ == tensors@[i].shape@
            },
{
    let mut records: Vec<TensorRecord> = Vec::with_capacity(tensors.len());
    let mut i: usize = 0;
    while i < tensors.len()
        invariant
            i <= tensors.len(),
            records@.len() == i,
            forall|j: int| 0 <= j < i ==> model_of(#[trigger] records@[j]) == tensors@[j]@,
            forall|j: int|
                0 <= j < i ==> {
                    &&& (#[trigger] records@[j]).0@ == tensors@[j].name@
                    &&& records@[j].1@ == tensors@[j].data@
                    &&& records@[j].2@ == tensors@[j].shape@
                },
        decreases tensors.len() - i,
    {
        let tensor = &tensors[i];
        records.push((tensor.name.as_str(), tensor.data.as_slice(), tensor.shape.as_slice()));
        i += 1;
    }
    assert(models_of(records@) =~= tensors@.map_values(|t: StoredTensor| t@));
    records
}

impl ArcaSystem {
    /// The tensors to be stored.
    pub fn save_entries(&self) -> (tensors: Vec<StoredTensor>)
        ensures
            tensors@.map_values(|t: StoredTensor| t@) == saved_tensors(*self),
    {
        let ghost whole = saved_tensors(*self);
        let ghost fixed = fixed_tensors(*self);
        let mut tensors: Vec<StoredTensor> = Vec::new();
        push_tensor(
            &mut tensors,
            "bpe_embeddings".to_owned(),
            &self.encoder.bpe_embeddings.data,
            vec![4096, 256],
        );
        push_tensor(
            &mut tensors,
            "w_fusion".to_owned(),
            &self.encoder.w_fusion.data,
            vec![512, 512],
        );
        push_tensor(
            &mut tensors,
            "w_phrase".to_owned(),
            &self.encoder.w_phrase.data,
            vec![self.encoder.w_phrase.rows, self.encoder.w_phrase.cols],
        );
        push_tensor(
            &mut tensors,
            "w_in".to_owned(),
            &self.reservoir.w_in.data,
            vec![4096, 512],
        );
        push_tensor(
            &mut tensors,
            "w_lsh".to_owned(),
            &self.lsh.w_lsh.data,
            vec![self.lsh.w_lsh.rows, self.lsh.w_lsh.cols],
        );
        push_tensor(
            &mut tensors,
            "w_out".to_owned(),
            &self.prediction_head.aggregator.w_out.data,
            vec![512, 4096],
        );
        push_tensor(
            &mut tensors,
            "output_embeddings".to_owned(),
            &self.prediction_head.head.output_embeddings.data,
            vec![50_000, 512],
        );
        push_tensor(
            &mut tensors,
            "output_bias".to_owned(),
            &self.prediction_head.head.output_bias,
            vec![50_000],
        );
        proof {
            let models = tensors@.map_values(|t: StoredTensor| t@);
            assert forall|i: int| 0 <= i < 8 implies models[i] == fixed[i] by {
                assert(models[i].shape =~= fixed[i].shape);
            }
            assert(models =~= whole.take(8));
        }
        let mut l: usize = 0;
        while l < self.layers.len()
            invariant
                l <= self.layers.len(),
                whole == saved_tensors(*self),
                tensors@.map_values(|t: StoredTensor| t@) == whole.take(8 + 4 * l),
            decreases self.layers.len() - l,
        {
            let layer = &self.layers[l];
            let gate: Vec<u32> = vec![layer.gamma];
            push_tensor(&mut tensors, numbered("w_down_", l), &layer.w_down.data, vec![32, 512]);
            push_tensor(&mut tensors, numbered("w_up_", l), &layer.w_up.data, vec![32, 4096]);
            push_tensor(&mut tensors, numbered("m_base_", l), &layer.m_base.data, vec![32, 32]);
            push_tensor(&mut tensors, numbered("gamma_", l), &gate, vec![1]);
            proof {
                let models = tensors@.map_values(|t: StoredTensor| t@);
                let expected = layer_tensors(self.layers@[l as int], l as nat);
                let at = 8 + 4 * l;
                assert(gate@ =~= seq![layer.gamma]);
                assert(models[at].shape =~= expected[0].shape && whole[at] == expected[0]);
                assert(models[at + 1].shape =~= expected[1].shape && whole[at + 1] == expected[1]);
                assert(models[at + 2].shape =~= expected[2].shape && whole[at + 2] == expected[2]);
                assert(models[at + 3].shape =~= expected[3].shape && whole[at + 3] == expected[3]);
                assert(models =~= whole.take(8 + 4 * (l + 1)));
            }
            l += 1;
        }
        assert(whole.take(8 + 4 * self.layers@.len() as int) =~= whole);
        tensors
    }

    /// The image of a file with these weights.
    pub fn save_weights(&self, header_json: &str) -> (image: Vec<u8>)
        requires
            file_size(header_json@, saved_tensors(*self)) <= usize::MAX,
        ensures
            image@ == file_bytes(header_json@, saved_tensors(*self)),
    {
        let tensors = self.save_entries();
        let records = as_records(&tensors);
        file_image(header_json, &records)
    }
}

/// No two stored tensors have the same name.
pub proof fn saved_names_differ(w: ArcaSystem, i: int, k: int)
    requires
        0 <= i < k < saved_tensors(w).len(),
    ensures
        saved_tensors(w)[i].name != saved_tensors(w)[k].name,
{
    let t = saved_tensors(w);
    if k < 8 {
        assert(t[i].name == fixed_name(i));
        assert(t[k].name == fixed_name(k));
        crate::names::fixed_names_differ(i, k);
    } else {
        let m = ((k - 8) / 4) as nat;
        let b = (k - 8) % 4;
        assert(t[k].name == layer_name(layer_prefix(b), m));
        if i < 8 {
            assert(t[i].name == fixed_name(i));
            crate::names::fixed_and_layer_names_differ(i, b, m);
        } else {
            let l = ((i - 8) / 4) as nat;
            let a = (i - 8) % 4;
            assert(t[i].name == layer_name(layer_prefix(a), l));
            crate::names::layer_names_differ(a, l, b, m);
        }
    }
}

/// Every stored tensor is found in the file with its values and dimensions.
pub proof fn saved_tensor_is_found(
    w: ArcaSystem,
    header: SovereignHeader,
    header_json: Seq<char>,
    k: int,
)
    requires
        file_storable(header_json, saved_tensors(w)),
        0 <= k < saved_tensors(w).len(),
    ensures
        ({
            let file = written_file(header, header_json, saved_tensors(w));
            lookup(file.bytes, file.registry, saved_tensors(w)[k].name) == (Lookup::Found {
                data: saved_tensors(w)[k].data,
                shape: saved_tensors(w)[k].shape,
            })
        }),
{
    let t = saved_tensors(w);
    assert forall|j: int| k < j < t.len() implies (#[trigger] t[j]).name != t[k].name by {
        saved_names_differ(w, k, j);
    }
    crate::round_trip::head_read_back(header_json, t);
    crate::round_trip::dict_read_back(header_json, t);
    crate::sovereign::written_tensor_is_found(header_json, t, k);
}

/// Every stored tensor is in the dictionary with its dimensions and length.
proof fn saved_tensor_is_listed(
    w: ArcaSystem,
    header: SovereignHeader,
    header_json: Seq<char>,
    k: int,
)
    requires
        file_storable(header_json, saved_tensors(w)),
        0 <= k < saved_tensors(w).len(),
    ensures
        ({
            let file = written_file(header, header_json, saved_tensors(w));
            let tensor = saved_tensors(w)[k];
            &&& file.registry.contains_key(tensor.name)
            &&& file.registry[tensor.name].shape == tensor.shape
            &&& file.registry[tensor.name].byte_len == 4 * tensor.data.len()
            &&& lookup(file.bytes, file.registry, tensor.name) == (Lookup::Found {
                data: tensor.data,
                shape: tensor.shape,
            })
        }),
{
    let t = saved_tensors(w);
    assert forall|j: int| k < j < t.len() implies (#[trigger] t[j]).name != t[k].name by {
        saved_names_differ(w, k, j);
    }
    crate::round_trip::registry_holds(t, data_start(header_json, t), k);
    crate::round_trip::data_read_back(header_json, t, k);
    saved_tensor_is_found(w, header, header_json, k);
}

/// The encoder, the reservoir and the router can be read again.
proof fn saved_front_is_ready(
    w: ArcaSystem,
    header: SovereignHeader,
    header_json: Seq<char>,
)
    requires
        w.well_formed(),
        w.complete(),
        header.n_res == 4096,
        generable(header),
        file_storable(header_json, saved_tensors(w)),
    ensures
        ({
            let file = written_file(header, header_json, saved_tensors(w));
            &&& front_ready(file)
            &&& is_matrix(w.encoder.bpe_embeddings, file, "bpe_embeddings"@)
            &&& is_matrix(w.encoder.w_fusion, file, "w_fusion"@)
            &&& is_matrix(w.encoder.w_phrase, file, "w_phrase"@)
            &&& is_matrix(w.reservoir.w_in, file, "w_in"@)
            &&& is_matrix(w.lsh.w_lsh, file, "w_lsh"@)
        }),
{
    let fixed = fixed_tensors(w);
    assert(saved_tensors(w)[0] == fixed[0]);
    saved_tensor_is_listed(w, header, header_json, 0);
    assert(saved_tensors(w)[1] == fixed[1]);
    saved_tensor_is_listed(w, header, header_json, 1);
    assert(saved_tensors(w)[2] == fixed[2]);
    saved_tensor_is_listed(w, header, header_json, 2);
    assert(saved_tensors(w)[3] == fixed[3]);
    saved_tensor_is_listed(w, header, header_json, 3);
    assert(saved_tensors(w)[4] == fixed[4]);
    saved_tensor_is_listed(w, header, header_json, 4);
}

/// The output head can be read again.
proof fn saved_head_is_ready(
    w: ArcaSystem,
    header: SovereignHeader,
    header_json: Seq<char>,
)
    requires
        w.well_formed(),
        w.complete(),
        file_storable(header_json, saved_tensors(w)),
    ensures
        ({
            let file = written_file(header, header_json, saved_tensors(w));
            &&& head_ready(file)
            &&& is_matrix(w.prediction_head.aggregator.w_out, file, "w_out"@)
            &&& is_matrix(
                w.prediction_head.head.output_embeddings,
                file,
                "output_embeddings"@,
            )
            &&& is_vector(w.prediction_head.head.output_bias@, file, "output_bias"@)
        }),
{
    let fixed = fixed_tensors(w);
    assert(saved_tensors(w)[5] == fixed[5]);
    saved_tensor_is_listed(w, header, header_json, 5);
    assert(saved_tensors(w)[6] == fixed[6]);
    saved_tensor_is_listed(w, header, header_json, 6);
    assert(saved_tensors(w)[7] == fixed[7]);
    saved_tensor_is_listed(w, header, header_json, 7);
}

/// A layer can be read again.
proof fn saved_layer_is_ready(
    w: ArcaSystem,
    header: SovereignHeader,
    header_json: Seq<char>,
    l: int,
)
    requires
        w.well_formed(),
        w.complete(),
        0 <= l < w.layers@.len(),
        file_storable(header_json, saved_tensors(w)),
    ensures
        ({
            let file = written_file(header, header_json, saved_tensors(w));
            &&& layer_ready(file, l as nat)
            &&& is_layer(w.layers@[l], file, l as nat)
        }),
{
    let layer = layer_tensors(w.layers@[l], l as nat);
    let at = 8 + 4 * l;
    assert(w.layers@[l].well_formed());
    assert(saved_tensors(w)[at + 0] == layer[0]);
    saved_tensor_is_listed(w, header, header_json, at + 0);
    assert(saved_tensors(w)[at + 1] == layer[1]);
    saved_tensor_is_listed(w, header, header_json, at + 1);
    assert(saved_tensors(w)[at + 2] == layer[2]);
    saved_tensor_is_listed(w, header, header_json, at + 2);
    assert(saved_tensors(w)[at + 3] == layer[3]);
    saved_tensor_is_listed(w, header, header_json, at + 3);
}

/// A system can be built again from a file of its stored weights, and has the
/// same weights then; the header is to have the number of layers, and the
/// reservoir its seed can generate.
pub proof fn saved_file_is_ready(w: ArcaSystem, header: SovereignHeader, header_json: Seq<char>)
    requires
        w.well_formed(),
        w.complete(),
        header.num_layers == w.layers@.len(),
        header.n_res == 4096,
        generable(header),
        file_storable(header_json, saved_tensors(w)),
    ensures
        verdict(written_file(header, header_json, saved_tensors(w))) is Fine,
        w.holds(written_file(header, header_json, saved_tensors(w))),
{
    let file = written_file(header, header_json, saved_tensors(w));
    saved_front_is_ready(w, header, header_json);
    saved_head_is_ready(w, header, header_json);
    assert forall|l: nat| l < header.num_layers implies #[trigger] layer_ready(file, l) by {
        saved_layer_is_ready(w, header, header_json, l as int);
    }
    assert forall|l: int| 0 <= l < w.layers@.len() implies is_layer(
        #[trigger] w.layers@[l],
        file,
        l as nat,
    ) by {
        saved_layer_is_ready(w, header, header_json, l);
    }
    fine_is_ready(file);
}

/// The two matrices have the same dimensions and values.
pub open spec fn same_matrix(a: Matrix, b: Matrix) -> bool {
    a.rows == b.rows && a.cols == b.cols && a.data@ == b.data@
}

/// The two layers have the same weights.
pub open spec fn same_layer(a: BioInspiredLayer, b: BioInspiredLayer) -> bool {
    &&& same_matrix(a.w_down, b.w_down)
    &&& same_matrix(a.w_up, b.w_up)
    &&& same_matrix(a.m_base, b.m_base)
    &&& a.gamma == b.gamma
}

/// The two systems have the same weights, but for the reservoir matrix.
pub open spec fn same_weights(a: ArcaSystem, b: ArcaSystem) -> bool {
    &&& same_matrix(a.encoder.bpe_embeddings, b.encoder.bpe_embeddings)
    &&& same_matrix(a.encoder.w_fusion, b.encoder.w_fusion)
    &&& same_matrix(a.encoder.w_phrase, b.encoder.w_phrase)
    &&& a.encoder.phrase_window == b.encoder.phrase_window
    &&& same_matrix(a.reservoir.w_in, b.reservoir.w_in)
    &&& same_matrix(a.lsh.w_lsh, b.lsh.w_lsh)
    &&& a.layers@.len() == b.layers@.len()
    &&& forall|l: int|
        0 <= l < a.layers@.len() ==> same_layer(#[trigger] a.layers@[l], b.layers@[l])
    &&& same_matrix(a.prediction_head.aggregator.w_out, b.prediction_head.aggregator.w_out)
    &&& same_matrix(
        a.prediction_head.head.output_embeddings,
        b.prediction_head.head.output_embeddings,
    )
    &&& a.prediction_head.head.output_bias@ == b.prediction_head.head.output_bias@
}

/// A system that is stored, loaded and built again has the weights that it had:
/// building goes through, and whatever holds the weights of the loaded file has
/// the same ones.
pub proof fn rebuilt_system_is_the_same(
    w: ArcaSystem,
    header: SovereignHeader,
    header_json: Seq<char>,
    model: SovereignModel,
    rebuilt: ArcaSystem,
)
    requires
        w.well_formed(),
        w.complete(),
        header.num_layers == w.layers@.len(),
        header.n_res == 4096,
        generable(header),
        file_storable(header_json, saved_tensors(w)),
        model.header == header,
        model.bytes@ == file_bytes(header_json, saved_tensors(w)),
        read_head(model.bytes@) matches HeadModel::Head { dict_start, .. } && read_dict(
            model.bytes@,
            dict_start,
        ) matches DictModel::Read { registry, .. } && model.registry() == registry,
    ensures
        verdict(file_of(model)) is Fine,
        rebuilt.holds(file_of(model)) ==> same_weights(w, rebuilt),
{
    let file = file_of(model);
    written_file_is_loaded(header, header_json, saved_tensors(w), model);
    saved_file_is_ready(w, header, header_json);
    if rebuilt.holds(file) {
        assert forall|l: int| 0 <= l < w.layers@.len() implies same_layer(
            #[trigger] w.layers@[l],
            rebuilt.layers@[l],
        ) by {
            assert(is_layer(w.layers@[l], file, l as nat));
            assert(is_layer(rebuilt.layers@[l], file, l as nat));
        }
    }
}

/// The stored tensors: each weight under its own name, with its dimensions.
pub proof fn stored_tensors_are_weights(w: ArcaSystem, l: nat)
    ensures
        ({
            let t = saved_tensors(w);
            let at = 8 + 4 * l as int;
            let layer = w.layers@[l as int];
            &&& t.len() == 8 + 4 * w.layers@.len()
            &&& t[0].name == "bpe_embeddings"@ && t[0].data == w.encoder.bpe_embeddings.data@
            &&& t[1].name == "w_fusion"@ && t[1].data == w.encoder.w_fusion.data@
            &&& t[2].name == "w_phrase"@ && t[2].data == w.encoder.w_phrase.data@
            &&& t[3].name == "w_in"@ && t[3].data == w.reservoir.w_in.data@
            &&& t[4].name == "w_lsh"@ && t[4].data == w.lsh.w_lsh.data@
            &&& t[5].name == "w_out"@ && t[5].data == w.prediction_head.aggregator.w_out.data@
            &&& t[6].name == "output_embeddings"@ && t[6].data
                == w.prediction_head.head.output_embeddings.data@
            &&& t[7].name == "output_bias"@ && t[7].data == w.prediction_head.head.output_bias@
            &&& t[0].shape == seq![4096usize, 256usize]
            &&& t[1].shape == seq![512usize, 512usize]
            &&& t[2].shape == seq![w.encoder.w_phrase.rows, w.encoder.w_phrase.cols]
            &&& t[3].shape == seq![4096usize, 512usize]
            &&& t[4].shape == seq![w.lsh.w_lsh.rows, w.lsh.w_lsh.cols]
            &&& t[5].shape == seq![512usize, 4096usize]
            &&& t[6].shape == seq![50_000usize, 512usize]
            &&& t[7].shape == seq![50_000usize]
            &&& l < w.layers@.len() ==> {
                &&& t[at].name == "w_down_"@ + decimal(l) && t[at].data == layer.w_down.data@
                &&& t[at + 1].name == "w_up_"@ + decimal(l) && t[at + 1].data == layer.w_up.data@
                &&& t[at + 2].name == "m_base_"@ + decimal(l) && t[at + 2].data
                    == layer.m_base.data@
                &&& t[at + 3].name == "gamma_"@ + decimal(l) && t[at + 3].data == seq![layer.gamma]
                &&& t[at].shape == seq![32usize, 512usize]
                &&& t[at + 1].shape == seq![32usize, 4096usize]
                &&& t[at + 2].shape == seq![32usize, 32usize]
                &&& t[at + 3].shape == seq![1usize]
            }
        }),
{
    let t = saved_tensors(w);
    let fixed = fixed_tensors(w);
    assert(forall|i: int| 0 <= i < 8 ==> t[i] == fixed[i]);
    if l < w.layers@.len() {
        let at = 8 + 4 * l as int;
        let layer = layer_tensors(w.layers@[l as int], l);
        assert(t[at] == layer[0]);
        assert(t[at + 1] == layer[1]);
        assert(t[at + 2] == layer[2]);
        assert(t[at + 3] == layer[3]);
    }
}

/// A stored tensor is its name, its values and its dimensions.
pub proof fn stored_tensor_is_its_parts(tensor: StoredTensor)
    ensures
        tensor@.name == tensor.name@,
        tensor@.data == tensor.data@,
        tensor@.shape == tensor.shape@,
{
}

} // verus!
