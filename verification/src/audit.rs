//! Whether a file holds the weights of a whole system.
//!
//! Building a system looks its tensors up one after the other and now and then
//! requires some dimension. The steps are listed here in the order in which
//! they are taken; the first one that does not go through decides.

use crate::decimal::to_decimal;
use crate::ieee::le;
use crate::sovereign::{SovereignHeader, SovereignModel};
use vstd::prelude::*;
use vstd::string::StringExecFns;

verus! {

use crate::decimal::decimal;
use crate::ieee::at_most;
use crate::layout::EntryModel;
use crate::sovereign::{entry_model, is_rank_two, lookup, Lookup};

/// The bit pattern of 1.
pub const ONE: u32 = 0x3F80_0000;

/// A step of building a system.
pub enum Step {
    /// Look up a tensor of two dimensions.
    Matrix { name: String },
    /// Look up a tensor as a flat vector.
    Vector { name: String },
    /// A tensor that was looked up has these dimensions.
    Shape { name: String, rows: usize, cols: usize },
    /// The columns of the phrase projection are a window of embeddings.
    Window { name: String },
    /// The reservoir matrix can be generated.
    Generate,
    /// The reservoir has the number of units that the system is made for.
    Units,
    /// A tensor that was looked up has as many columns as the reservoir units.
    Columns { name: String },
    /// A vector that was looked up is not empty.
    NonEmpty { name: String },
    /// A vector that was looked up has this many values.
    Length { name: String, n: usize },
}

/// A step, with its name as a sequence of characters.
pub enum StepModel {
    Matrix { name: Seq<char> },
    Vector { name: Seq<char> },
    Shape { name: Seq<char>, rows: int, cols: int },
    Window { name: Seq<char> },
    Generate,
    Units,
    Columns { name: Seq<char> },
    NonEmpty { name: Seq<char> },
    Length { name: Seq<char>, n: int },
}

impl View for Step {
    type V = StepModel;

    open spec fn view(&self) -> StepModel {
        match self {
            Step::Matrix { name } => StepModel::Matrix { name: name@ },
            Step::Vector { name } => StepModel::Vector { name: name@ },
            Step::Shape { name, rows, cols } => StepModel::Shape {
                name: name@,
                rows: *rows as int,
                cols: *cols as int,
            },
            Step::Window { name } => StepModel::Window { name: name@ },
            Step::Generate => StepModel::Generate,
            Step::Units => StepModel::Units,
            Step::Columns { name } => StepModel::Columns { name: name@ },
            Step::NonEmpty { name } => StepModel::NonEmpty { name: name@ },
            Step::Length { name, n } => StepModel::Length { name: name@, n: *n as int },
        }
    }
}

/// What became of a step.
pub enum Verdict {
    Fine,
    /// There is no tensor of that name.
    Missing { name: String },
    /// A tensor does not begin at a multiple of four.
    Misaligned,
    /// A dimension is not what it must be, or the data lies beyond the end of
    /// the file.
    Unusable,
}

/// What became of a step.
pub enum VerdictModel {
    Fine,
    Missing { name: Seq<char> },
    Misaligned,
    Unusable,
}

impl View for Verdict {
    type V = VerdictModel;

    open spec fn view(&self) -> VerdictModel {
        match self {
            Verdict::Fine => VerdictModel::Fine,
            Verdict::Missing { name } => VerdictModel::Missing { name: name@ },
            Verdict::Misaligned => VerdictModel::Misaligned,
            Verdict::Unusable => VerdictModel::Unusable,
        }
    }
}

/// What a file holds.
pub struct FileModel {
    pub header: SovereignHeader,
    pub bytes: Seq<u8>,
    pub registry: Map<Seq<char>, EntryModel>,
}

pub open spec fn file_of(model: SovereignModel) -> FileModel {
    FileModel { header: model.header, bytes: model.bytes@, registry: model.registry() }
}

/// The reservoir matrix can be generated: it has a row, and the density is a
/// probability.
pub open spec fn generable(header: SovereignHeader) -> bool {
    header.n_res >= 1 && at_most(0, header.lsm_density) && at_most(header.lsm_density, ONE)
}

pub open spec fn requires_that(condition: bool) -> VerdictModel {
    if condition {
        VerdictModel::Fine
    } else {
        VerdictModel::Unusable
    }
}

/// What becomes of a step that looks `name` up.
pub open spec fn found(file: FileModel, name: Seq<char>) -> VerdictModel {
    match lookup(file.bytes, file.registry, name) {
        Lookup::Missing => VerdictModel::Missing { name },
        Lookup::Misaligned => VerdictModel::Misaligned,
        Lookup::OutOfBounds => VerdictModel::Unusable,
        Lookup::Found { .. } => VerdictModel::Fine,
    }
}

/// There is a tensor `name`, and it has two dimensions.
pub open spec fn has_two_dims(file: FileModel, name: Seq<char>) -> bool {
    file.registry.contains_key(name) && file.registry[name].shape.len() == 2
}

/// What becomes of a step, given that the steps before it went through.
pub open spec fn outcome(file: FileModel, step: StepModel) -> VerdictModel {
    match step {
        StepModel::Matrix { name } => if is_rank_two(file.registry, name) {
            found(file, name)
        } else {
            VerdictModel::Unusable
        },
        StepModel::Vector { name } => found(file, name),
        StepModel::Shape { name, rows, cols } => requires_that(
            has_two_dims(file, name) && file.registry[name].shape[0] == rows
                && file.registry[name].shape[1] == cols,
        ),
        StepModel::Window { name } => requires_that(
            has_two_dims(file, name) && 4 <= file.registry[name].shape[1] as int / 256 <= 8,
        ),
        StepModel::Generate => requires_that(generable(file.header)),
        StepModel::Units => requires_that(file.header.n_res == 4096),
        StepModel::Columns { name } => requires_that(
            has_two_dims(file, name) && file.registry[name].shape[1] == 4096,
        ),
        StepModel::NonEmpty { name } => requires_that(
            file.registry.contains_key(name) && file.registry[name].byte_len as int / 4 >= 1,
        ),
        StepModel::Length { name, n } => requires_that(
            file.registry.contains_key(name) && file.registry[name].byte_len as int / 4 == n,
        ),
    }
}

/// What becomes of steps taken in order: the first that does not go through
/// decides.
pub open spec fn run(file: FileModel, steps: Seq<StepModel>) -> VerdictModel
    decreases steps.len(),
{
    if steps.len() == 0 {
        VerdictModel::Fine
    } else {
        match run(file, steps.drop_last()) {
            VerdictModel::Fine => outcome(file, steps.last()),
            failed => failed,
        }
    }
}

/// The name of a tensor of layer `l`.
pub open spec fn layer_name(prefix: Seq<char>, l: nat) -> Seq<char> {
    prefix + decimal(l)
}

/// The steps up to the layers: the encoder, the reservoir and the router.
pub open spec fn first_steps() -> Seq<StepModel> {
    seq![
        StepModel::Matrix { name: "bpe_embeddings"@ },
        StepModel::Matrix { name: "w_fusion"@ },
        StepModel::Matrix { name: "w_phrase"@ },
        StepModel::Shape { name: "bpe_embeddings"@, rows: 4096, cols: 256 },
        StepModel::Shape { name: "w_fusion"@, rows: 512, cols: 512 },
        StepModel::Window { name: "w_phrase"@ },
        StepModel::Generate,
        StepModel::Matrix { name: "w_in"@ },
        StepModel::Units,
        StepModel::Shape { name: "w_in"@, rows: 4096, cols: 512 },
        StepModel::Matrix { name: "w_lsh"@ },
        StepModel::Columns { name: "w_lsh"@ },
    ]
}

/// The steps of a layer.
pub open spec fn layer_steps(l: nat) -> Seq<StepModel> {
    seq![
        StepModel::Matrix { name: layer_name("w_down_"@, l) },
        StepModel::Matrix { name: layer_name("w_up_"@, l) },
        StepModel::Matrix { name: layer_name("m_base_"@, l) },
        StepModel::Vector { name: layer_name("gamma_"@, l) },
        StepModel::NonEmpty { name: layer_name("gamma_"@, l) },
        StepModel::Shape { name: layer_name("w_down_"@, l), rows: 32, cols: 512 },
        StepModel::Shape { name: layer_name("w_up_"@, l), rows: 32, cols: 4096 },
        StepModel::Shape { name: layer_name("m_base_"@, l), rows: 32, cols: 32 },
    ]
}

/// The steps of the first `n` layers.
pub open spec fn layers_steps(n: nat) -> Seq<StepModel>
    decreases n,
{
    if n == 0 {
        Seq::empty()
    } else {
        layers_steps((n - 1) as nat) + layer_steps((n - 1) as nat)
    }
}

/// The steps behind the layers: the output head.
pub open spec fn last_steps() -> Seq<StepModel> {
    seq![
        StepModel::Matrix { name: "w_out"@ },
        StepModel::Shape { name: "w_out"@, rows: 512, cols: 4096 },
        StepModel::Matrix { name: "output_embeddings"@ },
        StepModel::Vector { name: "output_bias"@ },
        StepModel::Shape { name: "output_embeddings"@, rows: 50_000, cols: 512 },
        StepModel::Length { name: "output_bias"@, n: 50_000 },
    ]
}

/// All steps of building a system with `n` layers.
pub open spec fn all_steps(n: nat) -> Seq<StepModel> {
    first_steps() + layers_steps(n) + last_steps()
}

/// What becomes of building a system from a file.
pub open spec fn verdict(file: FileModel) -> VerdictModel {
    run(file, all_steps(file.header.num_layers as nat))
}

/// Steps that went through went through one by one.
pub proof fn fine_steps(file: FileModel, steps: Seq<StepModel>)
    ensures
        run(file, steps) is Fine <==> forall|i: int|
            0 <= i < steps.len() ==> outcome(file, #[trigger] steps[i]) is Fine,
    decreases steps.len(),
{
    if steps.len() > 0 {
        let init = steps.drop_last();
        fine_steps(file, init);
        if run(file, steps) is Fine {
            assert forall|i: int| 0 <= i < steps.len() implies outcome(
                file,
                #[trigger] steps[i],
            ) is Fine by {
                if i < init.len() {
                    assert(init[i] == steps[i]);
                }
            }
        }
        if forall|i: int| 0 <= i < steps.len() ==> outcome(file, #[trigger] steps[i]) is Fine {
            assert forall|i: int| 0 <= i < init.len() implies outcome(
                file,
                #[trigger] init[i],
            ) is Fine by {
                assert(init[i] == steps[i]);
            }
            assert(outcome(file, steps[steps.len() - 1]) is Fine);
        }
    }
}

/// Steps that failed decide, whatever comes behind them.
pub proof fn failed_steps(file: FileModel, steps: Seq<StepModel>, k: int)
    requires
        0 <= k <= steps.len(),
        !(run(file, steps.take(k)) is Fine),
    ensures
        run(file, steps) == run(file, steps.take(k)),
    decreases steps.len(),
{
    if k == steps.len() {
        assert(steps.take(k) =~= steps);
    } else {
        assert(steps.drop_last().take(k) =~= steps.take(k));
        failed_steps(file, steps.drop_last(), k);
    }
}

/// `prefix` with a number behind it.
pub fn numbered(prefix: &str, l: usize) -> (name: String)
    ensures
        name@ == layer_name(prefix@, l as nat),
{
    let mut name = prefix.to_owned();
    let number = to_decimal(l);
    name.append(number.as_str());
    name
}

/// The steps of building a system with `n` layers.
pub fn build_steps(n: usize) -> (steps: Vec<Step>)
    ensures
        steps@.map_values(|s: Step| s@) == all_steps(n as nat),
{
    let mut steps: Vec<Step> = Vec::new();
    steps.push(Step::Matrix { name: "bpe_embeddings".to_owned() });
    steps.push(Step::Matrix { name: "w_fusion".to_owned() });
    steps.push(Step::Matrix { name: "w_phrase".to_owned() });
    steps.push(Step::Shape { name: "bpe_embeddings".to_owned(), rows: 4096, cols: 256 });
    steps.push(Step::Shape { name: "w_fusion".to_owned(), rows: 512, cols: 512 });
    steps.push(Step::Window { name: "w_phrase".to_owned() });
    steps.push(Step::Generate);
    steps.push(Step::Matrix { name: "w_in".to_owned() });
    steps.push(Step::Units);
    steps.push(Step::Shape { name: "w_in".to_owned(), rows: 4096, cols: 512 });
    steps.push(Step::Matrix { name: "w_lsh".to_owned() });
    steps.push(Step::Columns { name: "w_lsh".to_owned() });
    assert(steps@.map_values(|s: Step| s@) =~= first_steps() + layers_steps(0));
    let mut l: usize = 0;
    while l < n
        invariant
            l <= n,
            steps@.map_values(|s: Step| s@) == first_steps() + layers_steps(l as nat),
        decreases n - l,
    {
        let ghost before = steps@.map_values(|s: Step| s@);
        steps.push(Step::Matrix { name: numbered("w_down_", l) });
        steps.push(Step::Matrix { name: numbered("w_up_", l) });
        steps.push(Step::Matrix { name: numbered("m_base_", l) });
        steps.push(Step::Vector { name: numbered("gamma_", l) });
        steps.push(Step::NonEmpty { name: numbered("gamma_", l) });
        steps.push(Step::Shape { name: numbered("w_down_", l), rows: 32, cols: 512 });
        steps.push(Step::Shape { name: numbered("w_up_", l), rows: 32, cols: 4096 });
        steps.push(Step::Shape { name: numbered("m_base_", l), rows: 32, cols: 32 });
        proof {
            assert(steps@.map_values(|s: Step| s@) =~= before + layer_steps(l as nat));
            assert(before + layer_steps(l as nat) =~= first_steps() + layers_steps(
                (l + 1) as nat,
            ));
        }
        l += 1;
    }
    let ghost before = steps@.map_values(|s: Step| s@);
    steps.push(Step::Matrix { name: "w_out".to_owned() });
    steps.push(Step::Shape { name: "w_out".to_owned(), rows: 512, cols: 4096 });
    steps.push(Step::Matrix { name: "output_embeddings".to_owned() });
    steps.push(Step::Vector { name: "output_bias".to_owned() });
    steps.push(Step::Shape { name: "output_embeddings".to_owned(), rows: 50_000, cols: 512 });
    steps.push(Step::Length { name: "output_bias".to_owned(), n: 50_000 });
    assert(steps@.map_values(|s: Step| s@) =~= before + last_steps());
    steps
}

/// The dimensions of a tensor that has two.
fn two_dims(model: &SovereignModel, name: &str) -> (dims: Option<(usize, usize)>)
    ensures
        match dims {
            Some((rows, cols)) => has_two_dims(file_of(*model), name@)
                && model.registry()[name@].shape[0] == rows && model.registry()[name@].shape[1]
                == cols,
            None => !has_two_dims(file_of(*model), name@),
        },
{
    match model.tensor_registry.get(name) {
        None => None,
        Some(entry) => {
            assert(model.registry()[name@] == entry_model(*entry));
            if entry.2.len() == 2 {
                Some((entry.2[0], entry.2[1]))
            } else {
                None
            }
        },
    }
}

/// The number of values of a tensor.
fn value_count(model: &SovereignModel, name: &str) -> (n: Option<usize>)
    ensures
        match n {
            Some(n) => model.registry().contains_key(name@) && n
                == model.registry()[name@].byte_len as int / 4,
            None => !model.registry().contains_key(name@),
        },
{
    match model.tensor_registry.get(name) {
        None => None,
        Some(entry) => {
            assert(model.registry()[name@] == entry_model(*entry));
            Some(entry.1 / 4)
        },
    }
}

fn verdict_if(condition: bool) -> (v: Verdict)
    ensures
        v@ == requires_that(condition),
{
    if condition {
        Verdict::Fine
    } else {
        Verdict::Unusable
    }
}

/// Look a tensor up without reading it.
fn look_up(model: &SovereignModel, name: &str) -> (v: Verdict)
    ensures
        v@ == found(file_of(*model), name@),
{
    match model.tensor_registry.get(name) {
        None => Verdict::Missing { name: name.to_owned() },
        Some(entry) => {
            assert(model.registry()[name@] == entry_model(*entry));
            if entry.0 % 4 != 0 {
                Verdict::Misaligned
            } else if entry.0 > model.bytes.len() || entry.1 > model.bytes.len() - entry.0 {
                Verdict::Unusable
            } else {
                Verdict::Fine
            }
        },
    }
}

/// Whether `rows * cols * 4` is `byte_len`.
fn is_matrix_size(rows: usize, cols: usize, byte_len: usize) -> (ok: bool)
    ensures
        ok == (rows * cols * 4 == byte_len),
{
    match rows.checked_mul(cols) {
        Some(n) => match n.checked_mul(4) {
            Some(bytes) => bytes == byte_len,
            None => false,
        },
        None => {
            assert(rows * cols * 4 >= rows * cols) by (nonlinear_arith)
                requires
                    rows * cols >= 0,
            ;
            false
        },
    }
}

/// Look a tensor of two dimensions up without reading it.
fn look_up_matrix(model: &SovereignModel, name: &str) -> (v: Verdict)
    ensures
        v@ == outcome(file_of(*model), StepModel::Matrix { name: name@ }),
{
    match model.tensor_registry.get(name) {
        None => Verdict::Missing { name: name.to_owned() },
        Some(entry) => {
            assert(model.registry()[name@] == entry_model(*entry));
            if entry.2.len() != 2 || !is_matrix_size(entry.2[0], entry.2[1], entry.1) {
                Verdict::Unusable
            } else {
                look_up(model, name)
            }
        },
    }
}

/// Take a step.
fn take(model: &SovereignModel, step: &Step) -> (v: Verdict)
    ensures
        v@ == outcome(file_of(*model), step@),
{
    match step {
        Step::Matrix { name } => look_up_matrix(model, name.as_str()),
        Step::Vector { name } => look_up(model, name.as_str()),
        Step::Shape { name, rows, cols } => verdict_if(
            match two_dims(model, name.as_str()) {
                Some((r, c)) => r == *rows && c == *cols,
                None => false,
            },
        ),
        Step::Window { name } => verdict_if(
            match two_dims(model, name.as_str()) {
                Some((_, c)) => 4 <= c / 256 && c / 256 <= 8,
                None => false,
            },
        ),
        Step::Generate => verdict_if(
            model.header.n_res >= 1 && le(0, model.header.lsm_density) && le(
                model.header.lsm_density,
                ONE,
            ),
        ),
        Step::Units => verdict_if(model.header.n_res == 4096),
        Step::Columns { name } => verdict_if(
            match two_dims(model, name.as_str()) {
                Some((_, c)) => c == 4096,
                None => false,
            },
        ),
        Step::NonEmpty { name } => verdict_if(
            match value_count(model, name.as_str()) {
                Some(n) => n >= 1,
                None => false,
            },
        ),
        Step::Length { name, n } => verdict_if(
            match value_count(model, name.as_str()) {
                Some(found) => found == *n,
                None => false,
            },
        ),
    }
}

/// What becomes of building a system from a file.
pub fn audit(model: &SovereignModel) -> (v: Verdict)
    ensures
        v@ == verdict(file_of(*model)),
{
    let steps = build_steps(model.header.num_layers);
    let ghost models = steps@.map_values(|s: Step| s@);
    let mut i: usize = 0;
    while i < steps.len()
        invariant
            i <= steps.len(),
            models == steps@.map_values(|s: Step| s@),
            models == all_steps(model.header.num_layers as nat),
            run(file_of(*model), models.take(i as int)) is Fine,
        decreases steps.len() - i,
    {
        let v = take(model, &steps[i]);
        proof {
            assert(models.take(i + 1).drop_last() =~= models.take(i as int));
            assert(models.take(i + 1).last() == steps@[i as int]@);
        }
        match v {
            Verdict::Fine => {},
            _ => {
                proof {
                    failed_steps(file_of(*model), models, i + 1);
                }
                return v;
            },
        }
        i += 1;
    }
    assert(models.take(i as int) =~= models);
    Verdict::Fine
}

/// The first step that does not go through decides.
pub proof fn first_failure_decides(file: FileModel, steps: Seq<StepModel>, k: int)
    requires
        0 <= k < steps.len(),
        forall|i: int| 0 <= i < k ==> outcome(file, #[trigger] steps[i]) is Fine,
        !(outcome(file, steps[k]) is Fine),
    ensures
        run(file, steps) == outcome(file, steps[k]),
        run(file, Seq::empty()) is Fine,
{
    let before = steps.take(k);
    assert(forall|i: int| 0 <= i < k ==> before[i] == steps[i]);
    fine_steps(file, before);
    assert(steps.take(k + 1).drop_last() =~= before);
    assert(steps.take(k + 1).last() == steps[k]);
    failed_steps(file, steps, k + 1);
}

/// Building looks the tensors of the encoder up first, then those of the
/// reservoir and the router, then layer by layer those of the layers, and those
/// of the output head last; between the lookups it requires the dimensions.
pub proof fn steps_are_in_order(n: nat, l: nat)
    ensures
        ({
            let s = all_steps(n);
            let at = 12 + 8 * l as int;
            let end = 12 + 8 * n as int;
            &&& s.len() == 18 + 8 * n
            &&& s[0] == (StepModel::Matrix { name: "bpe_embeddings"@ })
            &&& s[1] == (StepModel::Matrix { name: "w_fusion"@ })
            &&& s[2] == (StepModel::Matrix { name: "w_phrase"@ })
            &&& s[3] == (StepModel::Shape { name: "bpe_embeddings"@, rows: 4096, cols: 256 })
            &&& s[4] == (StepModel::Shape { name: "w_fusion"@, rows: 512, cols: 512 })
            &&& s[5] == (StepModel::Window { name: "w_phrase"@ })
            &&& s[6] == StepModel::Generate
            &&& s[7] == (StepModel::Matrix { name: "w_in"@ })
            &&& s[8] == StepModel::Units
            &&& s[9] == (StepModel::Shape { name: "w_in"@, rows: 4096, cols: 512 })
            &&& s[10] == (StepModel::Matrix { name: "w_lsh"@ })
            &&& s[11] == (StepModel::Columns { name: "w_lsh"@ })
            &&& l < n ==> {
                &&& s[at] == (StepModel::Matrix { name: "w_down_"@ + decimal(l) })
                &&& s[at + 1] == (StepModel::Matrix { name: "w_up_"@ + decimal(l) })
                &&& s[at + 2] == (StepModel::Matrix { name: "m_base_"@ + decimal(l) })
                &&& s[at + 3] == (StepModel::Vector { name: "gamma_"@ + decimal(l) })
                &&& s[at + 4] == (StepModel::NonEmpty { name: "gamma_"@ + decimal(l) })
                &&& s[at + 5] == (StepModel::Shape {
                    name: "w_down_"@ + decimal(l),
                    rows: 32,
                    cols: 512,
                })
                &&& s[at + 6] == (StepModel::Shape {
                    name: "w_up_"@ + decimal(l),
                    rows: 32,
                    cols: 4096,
                })
                &&& s[at + 7] == (StepModel::Shape {
                    name: "m_base_"@ + decimal(l),
                    rows: 32,
                    cols: 32,
                })
            }
            &&& s[end] == (StepModel::Matrix { name: "w_out"@ })
            &&& s[end + 1] == (StepModel::Shape { name: "w_out"@, rows: 512, cols: 4096 })
            &&& s[end + 2] == (StepModel::Matrix { name: "output_embeddings"@ })
            &&& s[end + 3] == (StepModel::Vector { name: "output_bias"@ })
            &&& s[end + 4] == (StepModel::Shape {
                name: "output_embeddings"@,
                rows: 50_000,
                cols: 512,
            })
            &&& s[end + 5] == (StepModel::Length { name: "output_bias"@, n: 50_000 })
        }),
{
    layers_steps_size(n);
    if l < n {
        layer_steps_place(n, l, 0);
        layer_steps_place(n, l, 1);
        layer_steps_place(n, l, 2);
        layer_steps_place(n, l, 3);
        layer_steps_place(n, l, 4);
        layer_steps_place(n, l, 5);
        layer_steps_place(n, l, 6);
        layer_steps_place(n, l, 7);
    }
}

proof fn layers_steps_size(n: nat)
    ensures
        layers_steps(n).len() == 8 * n,
    decreases n,
{
    if n > 0 {
        layers_steps_size((n - 1) as nat);
    }
}

proof fn layer_steps_place(n: nat, l: nat, j: int)
    requires
        l < n,
        0 <= j < 8,
    ensures
        layers_steps(n)[8 * l + j] == layer_steps(l)[j],
    decreases n,
{
    layers_steps_size(n);
    layers_steps_size((n - 1) as nat);
    if l < n - 1 {
        layer_steps_place((n - 1) as nat, l, j);
    }
}

/// A lookup goes through where the tensor is found, and fails as missing, as
/// misaligned or, where its data lies beyond the end, as unusable; for a matrix
/// the dimensions come before the place of the data. A requirement fails as
/// unusable.
pub proof fn outcomes_of_steps(file: FileModel, name: Seq<char>, rows: int, cols: int, n: int)
    ensures
        ({
            let listed = file.registry.contains_key(name);
            let entry = file.registry[name];
            let two = listed && entry.shape.len() == 2;
            let aligned = entry.offset as int % 4 == 0;
            let within = entry.offset + entry.byte_len <= file.bytes.len();
            let matrix = outcome(file, StepModel::Matrix { name });
            let vector = outcome(file, StepModel::Vector { name });
            &&& !listed ==> matrix == (VerdictModel::Missing { name }) && vector == (
            VerdictModel::Missing { name })
            &&& listed ==> {
                let sized = two && 4 * (entry.shape[0] * entry.shape[1]) == entry.byte_len;
                &&& vector is Misaligned <==> !aligned
                &&& vector is Unusable <==> aligned && !within
                &&& vector is Fine <==> aligned && within
                &&& matrix is Misaligned <==> sized && !aligned
                &&& matrix is Unusable <==> !sized || aligned && !within
                &&& matrix is Fine <==> sized && aligned && within
            }
            &&& outcome(file, StepModel::Shape { name, rows, cols }) == requires_that(
                two && entry.shape[0] == rows && entry.shape[1] == cols,
            )
            &&& outcome(file, StepModel::Window { name }) == requires_that(
                two && 1024 <= entry.shape[1] < 2304,
            )
            &&& outcome(file, StepModel::Columns { name }) == requires_that(
                two && entry.shape[1] == 4096,
            )
            &&& outcome(file, StepModel::NonEmpty { name }) == requires_that(
                listed && entry.byte_len >= 4,
            )
            &&& outcome(file, StepModel::Length { name, n }) == requires_that(
                listed && 4 * n <= entry.byte_len < 4 * n + 4,
            )
            &&& outcome(file, StepModel::Units) == requires_that(file.header.n_res == 4096)
            &&& outcome(file, StepModel::Generate) == requires_that(
                file.header.n_res >= 1 && at_most(0, file.header.lsm_density) && at_most(
                    file.header.lsm_density,
                    0x3F80_0000,
                ),
            )
            &&& requires_that(true) is Fine
            &&& requires_that(false) is Unusable
        }),
{
}

/// What becomes of building a system is told as it is, a missing tensor by its
/// name, and a file is its header, its bytes and its dictionary.
pub proof fn verdicts_are_told(v: Verdict, model: SovereignModel)
    ensures
        v@ is Fine <==> v is Fine,
        v@ is Misaligned <==> v is Misaligned,
        v@ is Unusable <==> v is Unusable,
        v matches Verdict::Missing { name } ==> v@ == (VerdictModel::Missing { name: name@ }),
        file_of(model).header == model.header,
        file_of(model).bytes == model.bytes@,
        file_of(model).registry == model.registry(),
        verdict(file_of(model)) == run(
            file_of(model),
            all_steps(model.header.num_layers as nat),
        ),
{
}

/// A step is told with its name and its numbers.
pub proof fn steps_are_told(step: Step)
    ensures
        match step {
            Step::Matrix { name } => step@ == (StepModel::Matrix { name: name@ }),
            Step::Vector { name } => step@ == (StepModel::Vector { name: name@ }),
            Step::Shape { name, rows, cols } => step@ == (StepModel::Shape {
                name: name@,
                rows: rows as int,
                cols: cols as int,
            }),
            Step::Window { name } => step@ == (StepModel::Window { name: name@ }),
            Step::Generate => step@ is Generate,
            Step::Units => step@ is Units,
            Step::Columns { name } => step@ == (StepModel::Columns { name: name@ }),
            Step::NonEmpty { name } => step@ == (StepModel::NonEmpty { name: name@ }),
            Step::Length { name, n } => step@ == (StepModel::Length { name: name@, n: n as int }),
        },
{
}

} // verus!
