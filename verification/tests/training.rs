use arca::cli::{parse, Command};
use arca::generation::Generation;
use arca::tokenizer::BpeTokenizer;
use arca::train::{
    build_batches, checkpoint_path, should_checkpoint, target_token, Action, Progress,
};

#[test]
fn batches_are_windows_of_the_corpus() {
    let bytes = b"abcdefgh".to_vec();
    let ids: Vec<u32> = (0..8).collect();
    let batches = build_batches(&bytes, &ids, 3);
    assert_eq!(batches.len(), 3);
    assert_eq!(batches[0].bytes, b"abc".to_vec());
    assert_eq!(batches[2].bytes, b"gh".to_vec());
    assert_eq!(batches[2].bpe_ids, vec![6, 7]);
    let joined: Vec<u8> = batches.iter().flat_map(|b| b.bytes.clone()).collect();
    assert_eq!(joined, bytes);
    assert_eq!(build_batches(b"abcd", &[1, 2, 3, 4], 2).len(), 2);
    assert_eq!(build_batches(b"", &[], 2).len(), 0);
}

#[test]
fn run_visits_every_position_with_a_next_byte() {
    let batches = build_batches(b"abcde", &[1, 2, 3, 4, 5], 3);
    let mut progress = Progress::start();
    let mut actions = Vec::new();
    loop {
        let action = progress.next(&batches, 2);
        if action == Action::Done {
            break;
        }
        actions.push(action);
        progress.advance(action);
    }
    assert_eq!(
        actions,
        vec![
            Action::Step { batch: 0, t: 0, target: 98, log: true },
            Action::Step { batch: 0, t: 1, target: 99, log: false },
            Action::EndBatch,
            Action::Step { batch: 1, t: 0, target: 101, log: true },
            Action::EndBatch,
        ]
    );
    assert_eq!(progress.global_step, 3);
}

#[test]
fn target_is_the_next_byte() {
    assert_eq!(target_token(b"az", 0), 122);
    assert_eq!(target_token(&[0, 255], 0), 255);
}

#[test]
fn checkpoint_names() {
    assert_eq!(checkpoint_path("arca.sovereign", 40), "arca_step40.sovereign");
    assert_eq!(checkpoint_path("dir/m.sovereign.sovereign", 7), "dir/m_step7.sovereign");
    assert_eq!(checkpoint_path("plain", 0), "plain_step0.sovereign");
    assert_eq!(checkpoint_path("modèle.sovereign", 123), "modèle_step123.sovereign");
    assert_eq!(checkpoint_path(".sovereign", 5), "_step5.sovereign");
}

#[test]
fn checkpoints_are_periodic() {
    assert!(!should_checkpoint(0, 10));
    assert!(!should_checkpoint(9, 10));
    assert!(should_checkpoint(10, 10));
    assert!(should_checkpoint(30, 10));
}

#[test]
fn generation_appends_decoded_tokens() {
    let tok = BpeTokenizer::train(b"abababab", 1, 300);
    let mut state = Generation::start(&tok, b"xa");
    assert_eq!(state.position(), 1);
    assert!(state.wants_more(2));
    assert!(!state.wants_more(0));
    assert_eq!(state.bpe_ids, vec![120, 97]);
    state.accept(&tok, 98);
    assert_eq!(state.bytes, b"xab".to_vec());
    // The new byte changes the token of the one before it.
    assert_eq!(state.bpe_ids, vec![120, 256, 256]);
    state.accept(&tok, 256);
    assert_eq!(state.bytes, b"xabab".to_vec());
    assert_eq!(state.position(), 4);
    assert_eq!(state.generated, vec![98, 256]);
    assert!(!state.wants_more(2));
    assert!(state.wants_more(3));
    assert_eq!(state.finish(&tok), b"bab".to_vec());
}

fn args(values: &[&str]) -> Vec<String> {
    values.iter().map(|v| v.to_string()).collect()
}

#[test]
fn commands_and_their_defaults() {
    assert!(matches!(parse(&args(&["arca"])), Command::Demo));
    assert!(matches!(parse(&args(&["arca", "other", "x"])), Command::Demo));
    match parse(&args(&["arca", "train"])) {
        Command::Train { sovereign_path, tokenizer_path } => {
            assert_eq!(sovereign_path, "arca.sovereign");
            assert_eq!(tokenizer_path, "arca.tokenizer.json");
        }
        _ => panic!("not a training command"),
    }
    match parse(&args(&["arca", "infer", "m", "t", "hi"])) {
        Command::Infer { sovereign_path, tokenizer_path, prompt } => {
            assert_eq!(sovereign_path, "m");
            assert_eq!(tokenizer_path, "t");
            assert_eq!(prompt, "hi");
        }
        _ => panic!("not an inference command"),
    }
    match parse(&args(&["arca", "infer", "m"])) {
        Command::Infer { prompt, .. } => assert_eq!(prompt, "Hello ARCA"),
        _ => panic!("not an inference command"),
    }
    match parse(&args(&["arca", "init", "m"])) {
        Command::Init { sovereign_path, tokenizer_path } => {
            assert_eq!(sovereign_path, "m");
            assert_eq!(tokenizer_path, "arca.tokenizer.json");
        }
        _ => panic!("not an init command"),
    }
}
