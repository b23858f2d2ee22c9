use arca::gpu::{
    group_count, pack_halves, split_rows, upload_image, BindingKind, Groups, Start, Usage,
    MAX_BUFFER_BYTES,
};
use arca::gpu_context;
use arca::gpu_inference_context as inference;
use arca::gpu_inference_context::{GpuInferenceContext, Slot, Stage};
use arca::machine::{is_little_endian, read_memory_words};

#[test]
fn workgroups_cover_the_items() {
    assert_eq!(group_count(4096, 64), 64);
    assert_eq!(group_count(50_000, 256), 196);
    assert_eq!(group_count(1, 64), 1);
    assert_eq!(group_count(0, 64), 0);
}

#[test]
fn halves_are_packed_low_first() {
    assert_eq!(pack_halves(&[0x1234, 0xabcd, 0x00ff]), vec![0xabcd_1234, 0x0000_00ff]);
    assert_eq!(pack_halves(&[]), Vec::<u32>::new());
}

#[test]
fn upload_image_is_the_memory_of_the_words() {
    let words = [1u32, 0x0102_0304];
    let mut expected = Vec::new();
    for w in words {
        expected.extend_from_slice(&w.to_ne_bytes());
    }
    assert_eq!(upload_image(&words), expected);
}

#[test]
fn words_are_read_from_memory() {
    assert_eq!(is_little_endian(), 1u32.to_ne_bytes()[0] == 1);
    let words = [7u32, 0x0102_0304, u32::MAX];
    let mut bytes = vec![0xaau8; 4];
    bytes.extend_from_slice(&upload_image(&words));
    assert_eq!(read_memory_words(&bytes, 4, 3), words);
    assert_eq!(read_memory_words(&bytes, 8, 1), vec![0x0102_0304]);
    assert_eq!(read_memory_words(&bytes, 0, 1), vec![0xaaaa_aaaa]);
}

#[test]
fn rows_are_split() {
    assert_eq!(split_rows(&[1, 2, 3, 4, 5, 6, 7], 2, 3), vec![vec![1, 2, 3], vec![4, 5, 6]]);
    assert_eq!(split_rows(&[], 0, 3), Vec::<Vec<u32>>::new());
}

#[test]
fn training_step_runs_every_stage() {
    let mut gpu = gpu_context::GpuContext::new(2);
    let passes = gpu.forward_step();
    let stages: Vec<gpu_context::Stage> = passes.iter().map(|p| p.stage).collect();
    assert_eq!(
        stages,
        vec![
            gpu_context::Stage::Reservoir,
            gpu_context::Stage::Projections,
            gpu_context::Stage::Hebbian,
            gpu_context::Stage::Hebbian,
            gpu_context::Stage::Aggregate,
            gpu_context::Stage::Logits
        ]
    );
    for p in &passes {
        assert_eq!(p.bindings.len(), gpu_context::binding_layout(p.stage).len());
    }
    assert_eq!(passes[0].bindings[2], gpu_context::Slot::State { ping: 0 });
    assert_eq!(passes[0].bindings[4], gpu_context::Slot::State { ping: 1 });
    assert_eq!(passes[0].groups, Groups { x: 64, y: 1, z: 1 });
    assert_eq!(passes[1].groups.x, 2);
    assert_eq!(passes[3].bindings[4], gpu_context::Slot::Memory { layer: 1, ping: 1 });
    assert_eq!(passes[5].groups.x, 196);
    assert_eq!((gpu.s_ping, gpu.m_ping.clone()), (1, vec![1, 1]));
    // The next step reads what this one wrote.
    let next = gpu.forward_step();
    assert_eq!(next[0].bindings[2], gpu_context::Slot::State { ping: 1 });
    assert_eq!(next[2].bindings[0], gpu_context::Slot::Memory { layer: 0, ping: 1 });
    assert_eq!((gpu.s_ping, gpu.m_ping.clone()), (0, vec![0, 0]));
}

#[test]
fn resets_go_back_to_the_first_buffer() {
    let mut gpu = gpu_context::GpuContext::new(3);
    gpu.dispatch_reservoir();
    gpu.dispatch_hebbian(0);
    gpu.dispatch_hebbian(2);
    assert_eq!(
        gpu.reset_reservoir_state(),
        vec![gpu_context::Slot::State { ping: 0 }, gpu_context::Slot::State { ping: 1 }]
    );
    assert_eq!(gpu.s_ping, 0);
    assert_eq!(
        gpu.reset_m_states(2),
        vec![
            gpu_context::Slot::Memory { layer: 0, ping: 0 },
            gpu_context::Slot::Memory { layer: 0, ping: 1 },
            gpu_context::Slot::Memory { layer: 1, ping: 0 },
            gpu_context::Slot::Memory { layer: 1, ping: 1 }
        ]
    );
    assert_eq!(gpu.m_ping, vec![0, 0, 1]);
}

#[test]
fn training_buffers_fit() {
    assert_eq!(gpu_context::buffer_words(gpu_context::Slot::RMatrix, 4), 16_777_216);
    assert_eq!(gpu_context::buffer_words(gpu_context::Slot::WUpAll, 4), 4 * 32 * 4096);
    assert_eq!(gpu_context::buffer_words(gpu_context::Slot::OutputEmbeddings, 4), 25_600_000);
    assert_eq!(gpu_context::buffer_words(gpu_context::Slot::Readouts, 4), 128);
    assert!(gpu_context::buffer_words(gpu_context::Slot::OutputEmbeddings, 4) * 4 <= MAX_BUFFER_BYTES);
}

#[test]
fn batch_is_described_and_planned() {
    let mut gpu = GpuInferenceContext::new(4, 5);
    let bytes = vec![b"ab".to_vec(), b"x".to_vec()];
    let ids = vec![vec![97, 98], vec![120]];
    let plan = gpu.forward_inference(&bytes, &[1, 0], &ids);
    let expected: Vec<u32> = vec![
        98, 1, 5, 98, 97, 0, 98, 97, 0, 0, 0, 0, 0, 0, 0, 0, // first sequence
        120, 0, 5, 120, 0, 0, 120, 0, 0, 0, 0, 0, 0, 0, 0, 0, // second sequence
    ];
    assert_eq!(plan.encoder_params, upload_image(&expected));
    assert_eq!(plan.attention_params, upload_image(&[1, 0, 0, 0]));
    assert_eq!(plan.readback_words, 100);
    let stages: Vec<Stage> = plan.passes.iter().map(|p| p.stage).collect();
    assert_eq!(
        stages,
        vec![
            Stage::Encoder,
            Stage::Attention,
            Stage::Reservoir,
            Stage::Projections,
            Stage::Aggregate,
            Stage::Logits,
            Stage::Sampling
        ]
    );
    for p in &plan.passes {
        assert_eq!(p.bindings.len(), inference::binding_layout(p.stage).len());
        assert_eq!(p.groups.y, 2);
    }
    // The reservoir is driven by the attended input.
    assert_eq!(plan.passes[1].bindings[7], Slot::Attended);
    assert_eq!(plan.passes[2].bindings[3], Slot::Attended);
    assert_eq!(gpu.s_ping, 1);
}

#[test]
fn position_past_the_bytes_has_no_byte() {
    let mut gpu = GpuInferenceContext::new(1, 4);
    let plan = gpu.forward_inference(&[b"ab".to_vec()], &[2], &[vec![1, 2, 3]]);
    let expected: Vec<u32> = vec![3, 2, 4, 0, 98, 97, 3, 2, 1, 0, 0, 0, 0, 0, 0, 0];
    assert_eq!(plan.encoder_params, upload_image(&expected));
}

#[test]
fn greedy_run_skips_encoder_and_attention() {
    let mut gpu = GpuInferenceContext::new(4, 4);
    let passes = gpu.forward_greedy();
    assert_eq!(passes.len(), 5);
    assert_eq!(passes[0].bindings[3], Slot::Encoded);
    assert_eq!(passes[4].bindings, vec![Slot::Logits, Slot::TopTokens]);
    assert_eq!(inference::greedy_binding_layout(Stage::Sampling).len(), 2);
    assert_eq!(gpu.s_ping, 1);
}

#[test]
fn inference_buffers_fit() {
    let words = |slot| inference::scratch_words(slot, 4, inference::MAX_BATCH_SIZE);
    assert_eq!(words(Slot::KCache), Some(32 * 1024 * 512));
    assert_eq!(words(Slot::EncoderParams), Some(512));
    assert_eq!(words(Slot::TopScores), Some(1600));
    assert_eq!(words(Slot::RMatrix), None);
    assert!(words(Slot::KCache).unwrap() * 4 <= MAX_BUFFER_BYTES);
}

#[test]
fn readback_is_cut_by_sequence() {
    let flat: Vec<u32> = (0..100).collect();
    let rows = GpuInferenceContext::collect(&flat, 2);
    assert_eq!(rows.len(), 2);
    assert_eq!(rows[1][0], 50);
    assert_eq!(rows[1].len(), 50);
}

#[test]
fn every_training_binding_has_a_fitting_buffer() {
    let plans = gpu_context::buffer_plan(2);
    assert_eq!(plans.len(), 27);
    let mut gpu = gpu_context::GpuContext::new(2);
    for _ in 0..2 {
        for pass in gpu.forward_step() {
            let kinds = gpu_context::binding_layout(pass.stage);
            for (slot, kind) in pass.bindings.iter().zip(kinds) {
                let of_slot: Vec<_> = plans.iter().filter(|p| p.slot == *slot).collect();
                assert_eq!(of_slot.len(), 1);
                assert_eq!(of_slot[0].usage == Usage::Uniform, kind == BindingKind::Uniform);
            }
        }
    }
}

#[test]
fn training_buffers_start_as_planned() {
    use_plan(gpu_context::Slot::State { ping: 1 }, Start::Zeros { words: 4096 });
    use_plan(gpu_context::Slot::Readouts, Start::Zeros { words: 3 * 32 });
    use_plan(gpu_context::Slot::HebbianParams { layer: 2 }, Start::Zeros { words: 8 });
    use_plan(gpu_context::Slot::NumLayers, Start::Word { word: 3 });
    use_plan(gpu_context::Slot::LayerIndex { layer: 2 }, Start::Word { word: 2 });
    use_plan(gpu_context::Slot::Memory { layer: 1, ping: 1 }, Start::Weights);
}

fn use_plan(slot: gpu_context::Slot, start: Start) {
    let plans = gpu_context::buffer_plan(3);
    let found: Vec<_> = plans.iter().filter(|p| p.slot == slot).collect();
    assert_eq!(found.len(), 1);
    assert_eq!(found[0].start, start);
}

#[test]
fn what_a_step_wrote_is_read_back() {
    let mut gpu = gpu_context::GpuContext::new(2);
    gpu.forward_step();
    assert_eq!(
        gpu.readback_stable_point(),
        vec![gpu_context::Slot::State { ping: 1 }, gpu_context::Slot::Logits]
    );
    gpu.dispatch_hebbian(1);
    assert_eq!(
        gpu.readback_all(2),
        vec![
            gpu_context::Slot::State { ping: 1 },
            gpu_context::Slot::Logits,
            gpu_context::Slot::Memory { layer: 0, ping: 1 },
            gpu_context::Slot::Memory { layer: 1, ping: 0 }
        ]
    );
}

#[test]
fn every_inference_binding_has_a_fitting_buffer() {
    let mut gpu = GpuInferenceContext::new(2, 4);
    let plans = inference::batch_buffer_plan(2);
    assert_eq!(plans.len(), 31);
    for pass in gpu.forward_inference(&[vec![1]], &[0], &[vec![1]]).passes {
        for (slot, kind) in pass.bindings.iter().zip(inference::binding_layout(pass.stage)) {
            let of_slot: Vec<_> = plans.iter().filter(|p| p.slot == *slot).collect();
            assert_eq!(of_slot.len(), 1);
            assert_eq!(of_slot[0].usage == Usage::Uniform, kind == BindingKind::Uniform);
        }
    }
    let plans = inference::greedy_buffer_plan(2);
    assert_eq!(plans.len(), 18);
    for pass in gpu.forward_greedy() {
        let kinds = inference::greedy_binding_layout(pass.stage);
        for (slot, kind) in pass.bindings.iter().zip(kinds) {
            let of_slot: Vec<_> = plans.iter().filter(|p| p.slot == *slot).collect();
            assert_eq!(of_slot.len(), 1);
            assert_eq!(of_slot[0].usage == Usage::Uniform, kind == BindingKind::Uniform);
        }
    }
    assert_eq!(plans[17].start, Start::Zeros { words: 1 });
}

#[test]
fn an_empty_batch_reads_nothing_back() {
    let mut gpu = GpuInferenceContext::new(1, 4);
    let plan = gpu.forward_inference(&[], &[5], &[]);
    assert_eq!(plan.encoder_params, Vec::<u8>::new());
    assert_eq!(plan.attention_params, upload_image(&[5, 0, 0, 0]));
    assert_eq!(plan.readback, vec![Slot::TopTokens, Slot::TopScores]);
    assert_eq!(plan.readback_words, 0);
    assert_eq!(plan.passes[6].groups, Groups { x: 1, y: 0, z: 1 });
}
