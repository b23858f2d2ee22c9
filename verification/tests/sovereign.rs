use arca::audit::{audit, Verdict};
use arca::init::{init_plan, Fill};
use arca::gpu_context;
use arca::gpu_inference_context;
use arca::save::{as_records, StoredTensor};
use arca::sovereign::{
    align_up, scan_head, scan_tensor_dict, SovereignError, SovereignHeader, SovereignModel, ALIGN,
    MAGIC,
};
use arca::system::ArcaSystem;
use arca::tensor::Matrix;
use arca::writer::file_image;

const HEADER: &str = "{\"num_layers\":1}";

fn header() -> SovereignHeader {
    let mut h = SovereignHeader::default();
    h.num_layers = 1;
    h
}

fn bits(values: &[f32]) -> Vec<u32> {
    values.iter().map(|v| v.to_bits()).collect()
}

fn load(image: &[u8]) -> SovereignModel<'_> {
    match SovereignModel::load(image, Some(header())) {
        Ok(model) => model,
        Err(e) => panic!("{}", e.message()),
    }
}

#[test]
fn header_defaults() {
    let h = SovereignHeader::default();
    assert_eq!(h.num_layers, 4);
    assert_eq!(h.d_model, 512);
    assert_eq!(h.n_res, 4096);
    assert_eq!(h.lsh_k, 32);
    assert_eq!(h.rank_r, 32);
    assert_eq!(h.lsm_seed, 0xDEAD_BEEF_CAFE_1234);
    assert_eq!(f32::from_bits(h.lsm_density), 0.05f32);
    assert_eq!(h.vocab_size, 50_000);
    assert_eq!(h.top_k_out, 200);
}

#[test]
fn alignment() {
    assert_eq!(align_up(0, ALIGN), 0);
    assert_eq!(align_up(1, ALIGN), 64);
    assert_eq!(align_up(64, ALIGN), 64);
    assert_eq!(align_up(65, ALIGN), 128);
    assert_eq!(align_up(5, 1), 5);
    assert_eq!(align_up(17, 16), 32);
    // The formula, where the alignment is no power of two.
    assert_eq!(align_up(5, 6), 10 & !5);
}

#[test]
fn magic_is_ascii() {
    assert_eq!(&MAGIC, b"SOV_ARCA");
}

#[test]
fn written_tensors_are_read_back() {
    let a = bits(&[1.0, -2.5, 3.25, 0.0, 7.0, 9.5]);
    let b = bits(&[0.125]);
    let image = file_image(HEADER, &[("first", &a, &[2, 3]), ("zweiter", &b, &[1])]);
    assert_eq!(&image[0..8], b"SOV_ARCA");
    assert_eq!(u64::from_le_bytes(image[8..16].try_into().unwrap()), HEADER.len() as u64);
    assert_eq!(image.len() % 64, 0);
    // Head 64, dictionary 4 + (24 + 5 + 8) + (24 + 7 + 4) bytes: the data begins at 192.
    assert_eq!(u32::from_le_bytes(image[64..68].try_into().unwrap()), 2);
    assert_eq!(&image[192..196], &1.0f32.to_ne_bytes());
    assert_eq!(image.len(), 192 + 64 + 64);

    let model = load(&image);
    let first = model.tensor_as_array2("first").unwrap();
    assert_eq!((first.rows, first.cols), (2, 3));
    assert_eq!(first.data, a);
    assert_eq!(model.tensor_as_array1("zweiter").unwrap(), b);
    assert_eq!(model.tensor_f32_slice("zweiter").unwrap(), b);
    let entry = model.tensor_registry.get("zweiter").unwrap();
    assert_eq!(entry.0, 256);
    assert_eq!(entry.1, 4);
    assert_eq!(entry.2, vec![1]);
}

#[test]
fn later_tensor_of_a_name_wins() {
    let a = bits(&[1.0]);
    let b = bits(&[2.0]);
    let image = file_image(HEADER, &[("x", &a, &[1]), ("x", &b, &[1])]);
    assert_eq!(load(&image).tensor_as_array1("x").unwrap(), b);
}

#[test]
fn head_is_read() {
    let image = file_image("{\"é\":1}", &[]);
    match scan_head(&image) {
        Some(Ok((text, dict_start))) => {
            assert_eq!(text, "{\"é\":1}");
            assert_eq!(dict_start, 64);
        }
        _ => panic!("the head is readable"),
    }
}

#[test]
fn missing_tensor_is_reported() {
    let image = file_image(HEADER, &[]);
    let model = load(&image);
    match model.tensor_as_array2("nothing") {
        Err(SovereignError::TensorNotFound(name)) => assert_eq!(name, "nothing"),
        _ => panic!("there is no such tensor"),
    }
}

#[test]
fn other_magic_is_refused() {
    let mut image = file_image(HEADER, &[]);
    image[0] = b'X';
    assert!(matches!(
        SovereignModel::load(&image, Some(header())),
        Err(SovereignError::InvalidMagicBytes)
    ));
}

#[test]
fn header_that_is_no_text_is_refused() {
    let mut image = file_image(HEADER, &[]);
    image[16] = 0xff;
    assert!(matches!(
        SovereignModel::load(&image, Some(header())),
        Err(SovereignError::HeaderParsingFailed)
    ));
}

#[test]
fn header_that_does_not_parse_is_refused() {
    let image = file_image("nonsense", &[]);
    assert!(matches!(
        SovereignModel::load(&image, None),
        Err(SovereignError::HeaderParsingFailed)
    ));
}

#[test]
fn name_that_is_no_text_is_refused() {
    let a = bits(&[1.0]);
    let mut image = file_image(HEADER, &[("x", &a, &[1])]);
    image[64 + 4 + 4] = 0xff;
    assert!(matches!(
        SovereignModel::load(&image, Some(header())),
        Err(SovereignError::HeaderParsingFailed)
    ));
}

#[test]
fn misaligned_tensor_is_refused() {
    let a = bits(&[1.0]);
    let mut image = file_image(HEADER, &[("x", &a, &[1])]);
    // The offset follows the count, the length of the name, and the name.
    image[64 + 4 + 4 + 1] = 130;
    let model = load(&image);
    assert!(matches!(model.tensor_f32_slice("x"), Err(SovereignError::AlignmentError)));
}

#[test]
fn short_files() {
    assert!(scan_head(b"SOV").is_none());
    assert!(scan_head(b"SOV_ARCA\x05\0\0\0").is_none());
    assert!(scan_head(b"SOV_ARCA\x05\0\0\0\0\0\0\0ab").is_none());
    let whole = file_image(HEADER, &[("x", &bits(&[1.0]), &[1])]);
    assert!(scan_tensor_dict(&whole[..70], 64).is_none());
    // A file that ends with its head has no tensors.
    match scan_tensor_dict(&whole[..64], 64) {
        Some(Ok(registry)) => assert!(registry.get("x").is_none()),
        _ => panic!("an empty dictionary"),
    }
    assert!(SovereignModel::parse_tensor_dict(&whole, 64).is_ok());
}

#[test]
fn error_texts() {
    assert_eq!(
        SovereignError::InvalidMagicBytes.message(),
        "Invalid magic bytes: expected SOV_ARCA"
    );
    assert_eq!(
        SovereignError::HeaderParsingFailed.message(),
        "Failed to parse sovereign header JSON"
    );
    assert_eq!(
        SovereignError::TensorNotFound("w".to_string()).message(),
        "Tensor not found in registry: w"
    );
    assert_eq!(SovereignError::AlignmentError.message(), "Tensor data is not 64-byte aligned");
    assert_eq!(SovereignError::IOError("gone".to_string()).message(), "IO error: gone");
    assert_eq!(
        SovereignError::ShapeMismatch {
            name: "w".to_string(),
            expected: vec![1, 20],
            got: vec![]
        }
        .message(),
        "Shape mismatch for 'w': expected [1, 20], got []"
    );
}

fn new_tensors(h: &SovereignHeader) -> Vec<StoredTensor> {
    init_plan(h.lsh_k, h.num_layers, Fill::Zeros)
        .into_iter()
        .map(|p| {
            let n: usize = p.shape.iter().product();
            StoredTensor { name: p.name, data: vec![7u32; n], shape: p.shape }
        })
        .collect()
}

#[test]
fn new_file_makes_a_system() {
    let h = header();
    let tensors = new_tensors(&h);
    assert_eq!(tensors.len(), 12);
    assert_eq!(tensors[11].name, "gamma_0");
    let image = file_image(HEADER, &as_records(&tensors));
    let model = load(&image);
    assert!(matches!(audit(&model), Verdict::Fine));
    let r = Matrix::zeros(h.n_res, h.n_res);
    let weights = ArcaSystem::from_sovereign(&model, r).unwrap();
    assert_eq!(weights.layers.len(), 1);
    assert_eq!(weights.layers[0].gamma, 7);
    assert_eq!(weights.encoder.phrase_window, 4);
    assert_eq!(weights.lsh.w_lsh.rows, 32);
    assert_eq!(weights.prediction_head.head.output_bias.len(), 50_000);
    assert_eq!(weights.w_up_all().len(), 32 * 4096);
    assert_eq!(weights.w_down_all().len(), 32 * 512);
    assert_eq!(weights.m_base_all(), vec![7; 32 * 32]);
    assert_eq!(weights.train_values(gpu_context::Slot::WIn).unwrap(), vec![7; 4096 * 512]);
    assert_eq!(
        weights.train_values(gpu_context::Slot::RestingMemory { layer: 0 }).unwrap(),
        vec![7; 32 * 32]
    );
    assert_eq!(weights.train_values(gpu_context::Slot::Logits), None);
    assert_eq!(
        weights.inference_values(gpu_inference_context::Slot::WPhrase).unwrap(),
        vec![7; 128 * 1024]
    );
    assert_eq!(weights.inference_values(gpu_inference_context::Slot::WQ), None);
    for plan in gpu_context::buffer_plan(1) {
        if let Some(values) = weights.train_values(plan.slot) {
            assert_eq!(values.len(), gpu_context::buffer_words(plan.slot, 1));
        }
    }
}

#[test]
fn missing_weights_are_reported_in_order() {
    let h = header();
    let small = [
        ("bpe_embeddings", 4096usize, 256usize),
        ("w_fusion", 512, 512),
        ("w_phrase", 128, 1024),
    ];
    let tensors: Vec<StoredTensor> = small
        .iter()
        .map(|&(n, r, c)| StoredTensor {
            name: n.to_string(),
            data: vec![0; r * c],
            shape: vec![r, c],
        })
        .collect();
    let r = || Matrix::zeros(h.n_res, h.n_res);
    let image = file_image(HEADER, &as_records(&tensors));
    match ArcaSystem::from_sovereign(&load(&image), r()) {
        Err(SovereignError::TensorNotFound(name)) => assert_eq!(name, "w_in"),
        _ => panic!("there is no input projection"),
    }
    let image = file_image(HEADER, &as_records(&tensors[..1]));
    match ArcaSystem::from_sovereign(&load(&image), r()) {
        Err(SovereignError::TensorNotFound(name)) => assert_eq!(name, "w_fusion"),
        _ => panic!("there is no fusion matrix"),
    }
}

#[test]
fn wrong_dimensions_are_unusable() {
    let wide = StoredTensor {
        name: "bpe_embeddings".to_string(),
        data: vec![0; 6],
        shape: vec![2, 3],
    };
    let flat = StoredTensor {
        name: "bpe_embeddings".to_string(),
        data: vec![0; 6],
        shape: vec![6],
    };
    // The dimensions are looked at only once all three tensors are found.
    let image = file_image(HEADER, &as_records(&[wide]));
    assert!(matches!(audit(&load(&image)), Verdict::Missing { .. }));
    let image = file_image(HEADER, &as_records(&[flat]));
    assert!(matches!(audit(&load(&image)), Verdict::Unusable));
}

#[test]
fn stored_weights_are_found_again() {
    let h = header();
    let data: Vec<Vec<u32>> = init_plan(h.lsh_k, h.num_layers, Fill::Noise)
        .iter()
        .enumerate()
        .map(|(i, p)| vec![i as u32; p.shape.iter().product()])
        .collect();
    let weights = ArcaSystem::new_random(&h, &data, Matrix::zeros(h.n_res, h.n_res));
    assert_eq!(weights.layers[0].gamma, 11);
    assert_eq!((weights.encoder.w_phrase.rows, weights.encoder.w_phrase.cols), (128, 1024));
    let entries = weights.save_entries();
    let names: Vec<&str> = entries.iter().map(|t| t.name.as_str()).collect();
    assert_eq!(
        names,
        vec![
            "bpe_embeddings",
            "w_fusion",
            "w_phrase",
            "w_in",
            "w_lsh",
            "w_out",
            "output_embeddings",
            "output_bias",
            "w_down_0",
            "w_up_0",
            "m_base_0",
            "gamma_0"
        ]
    );
    let image = weights.save_weights(HEADER);
    let model = load(&image);
    assert_eq!(model.tensor_as_array1("output_bias").unwrap(), vec![7; 50_000]);
    assert_eq!(model.tensor_as_array1("gamma_0").unwrap(), vec![11]);
    assert_eq!(model.tensor_as_array2("w_up_0").unwrap().data, vec![9; 32 * 4096]);
    // The file can be built from, and gives the same weights again.
    assert!(matches!(audit(&model), Verdict::Fine));
    let again = ArcaSystem::from_sovereign(&model, Matrix::zeros(h.n_res, h.n_res)).unwrap();
    assert_eq!(again.encoder.w_phrase.data, weights.encoder.w_phrase.data);
    assert_eq!(again.encoder.w_phrase.rows, 128);
    assert_eq!(again.encoder.w_phrase.cols, 1024);
    assert_eq!(again.encoder.bpe_embeddings.data, weights.encoder.bpe_embeddings.data);
    assert_eq!(again.reservoir.w_in.data, weights.reservoir.w_in.data);
    assert_eq!(again.lsh.w_lsh.data, weights.lsh.w_lsh.data);
    assert_eq!(again.lsh.w_lsh.rows, h.lsh_k);
    assert_eq!(again.layers.len(), 1);
    assert_eq!(again.layers[0].gamma, 11);
    assert_eq!(again.layers[0].m_base.data, weights.layers[0].m_base.data);
    assert_eq!(
        again.prediction_head.head.output_embeddings.data,
        weights.prediction_head.head.output_embeddings.data
    );
    assert_eq!(again.prediction_head.head.output_bias, vec![7; 50_000]);
    assert_eq!(again.save_weights(HEADER), image);
}
