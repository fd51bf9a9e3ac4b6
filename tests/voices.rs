use fish_speech_server::index::SpeakerIndex;
use fish_speech_server::prompt::{PromptEncoder, PromptError, TokenGrid};
use fish_speech_server::register::{register_step, RegisterAction, RegisterEvent, RegisterState};
use fish_speech_server::registry::{load_speaker_prompts, RegistryError, VoiceSource, VoiceTable};

fn grid(rows: &[&[u32]]) -> TokenGrid {
    TokenGrid { rows: rows.iter().map(|r| r.to_vec()).collect() }
}

fn source(id: &str, text: &[u32], codes: Option<TokenGrid>) -> VoiceSource {
    VoiceSource { id: id.to_string(), text_tokens: text.to_vec(), codes }
}

#[test]
fn conditioning_prompt_puts_reference_before_text() {
    let enc = PromptEncoder::new(2, 99);
    let p = enc
        .encode_conditioning_prompt(&vec![5, 6, 7], &Some(grid(&[&[1, 2], &[3, 4]])))
        .unwrap();
    assert_eq!(p.rows, vec![vec![99, 99, 5, 6, 7], vec![1, 2, 0, 0, 0], vec![3, 4, 0, 0, 0]]);
}

#[test]
fn conditioning_prompt_without_reference_is_the_text() {
    let enc = PromptEncoder::new(2, 99);
    let p = enc.encode_conditioning_prompt(&vec![5, 6], &None).unwrap();
    assert_eq!(p.rows, vec![vec![5, 6], vec![0, 0], vec![0, 0]]);
}

#[test]
fn conditioning_prompt_rejects_wrong_codebook_count() {
    let enc = PromptEncoder::new(3, 99);
    let r = enc.encode_conditioning_prompt(&vec![5], &Some(grid(&[&[1], &[2]])));
    assert_eq!(r.err(), Some(PromptError::CodebookMismatch { expected: 3, found: 2 }));
}

#[test]
fn conditioning_prompt_rejects_ragged_codes() {
    let enc = PromptEncoder::new(2, 99);
    let r = enc.encode_conditioning_prompt(&vec![5], &Some(grid(&[&[1, 2], &[3]])));
    assert_eq!(r.err(), Some(PromptError::RaggedTokens));
}

#[test]
fn text_grid_has_placeholders_on_codebook_rows() {
    let enc = PromptEncoder::new(2, 99);
    assert_eq!(enc.encode_text(&vec![8, 9]).rows, vec![vec![8, 9], vec![0, 0], vec![0, 0]]);
}

#[test]
fn sequence_without_chunks_is_an_input_error() {
    let enc = PromptEncoder::new(1, 99);
    let r = enc.encode_sequence(&vec![], &None, &None, true);
    assert_eq!(r.err(), Some(PromptError::NoChunks));
}

#[test]
fn sequence_prefix_goes_on_first_chunk_only() {
    let enc = PromptEncoder::new(1, 99);
    let base = grid(&[&[99, 40], &[7, 0]]);
    let (n, prompts) = enc
        .encode_sequence(&vec![vec![1, 2], vec![3]], &Some(vec![50]), &Some(base), true)
        .unwrap();
    assert_eq!(n, 3);
    assert_eq!(prompts.len(), 2);
    assert_eq!(prompts[0].rows, vec![vec![50, 99, 40, 1, 2], vec![0, 7, 0, 0, 0]]);
    assert_eq!(prompts[1].rows, vec![vec![3], vec![0]]);
}

#[test]
fn sequence_leaves_out_system_text_when_asked() {
    let enc = PromptEncoder::new(1, 99);
    let (n, prompts) = enc.encode_sequence(&vec![vec![1]], &Some(vec![50]), &None, false).unwrap();
    assert_eq!(n, 0);
    assert_eq!(prompts[0].rows, vec![vec![1], vec![0]]);
}

#[test]
fn sequence_rejects_base_of_wrong_shape() {
    let enc = PromptEncoder::new(2, 99);
    let r = enc.encode_sequence(&vec![vec![1]], &None, &Some(grid(&[&[1], &[2]])), true);
    assert_eq!(r.err(), Some(PromptError::CodebookMismatch { expected: 3, found: 2 }));
}

#[test]
fn loading_without_voices_fails() {
    let enc = PromptEncoder::new(1, 99);
    assert_eq!(load_speaker_prompts(&enc, &vec![]).err(), Some(RegistryError::NoVoices));
    let missing = vec![source("a", &[1], None)];
    assert_eq!(load_speaker_prompts(&enc, &missing).err(), Some(RegistryError::NoVoices));
}

#[test]
fn loading_skips_missing_files_and_prefers_default() {
    let enc = PromptEncoder::new(1, 99);
    let sources = vec![
        source("alice", &[1], Some(grid(&[&[4]]))),
        source("ghost", &[2], None),
        source("default", &[3], Some(grid(&[&[5, 6]]))),
    ];
    let (table, default) = load_speaker_prompts(&enc, &sources).unwrap();
    assert_eq!(table.ids(), vec!["alice".to_string(), "default".to_string()]);
    assert!(table.get(&"ghost".to_string()).is_none());
    assert_eq!(default.rows, vec![vec![99, 99, 3], vec![5, 6, 0]]);
    assert_eq!(table.get(&"alice".to_string()).unwrap().rows, vec![vec![99, 1], vec![4, 0]]);
}

#[test]
fn loading_without_default_takes_smallest_present_id() {
    let enc = PromptEncoder::new(1, 99);
    let sources = vec![
        source("c", &[3], Some(grid(&[&[8]]))),
        source("a", &[1], None),
        source("b", &[2], Some(grid(&[&[7]]))),
        source("bb", &[4], Some(grid(&[&[9]]))),
    ];
    let (_, default) = load_speaker_prompts(&enc, &sources).unwrap();
    assert_eq!(default.rows, vec![vec![99, 2], vec![7, 0]]);
}

#[test]
fn loading_fails_on_unusable_codes() {
    let enc = PromptEncoder::new(2, 99);
    let sources = vec![source("a", &[1], Some(grid(&[&[7]])))];
    assert_eq!(
        load_speaker_prompts(&enc, &sources).err(),
        Some(RegistryError::Prompt(PromptError::CodebookMismatch { expected: 2, found: 1 }))
    );
}

#[test]
fn registered_voice_reloads_to_the_same_prompt() {
    let enc = PromptEncoder::new(1, 99);
    let codes = grid(&[&[11, 12]]);
    let at_registration = enc.encode_conditioning_prompt(&vec![4], &Some(codes.duplicate())).unwrap();
    let mut table = VoiceTable::new();
    table.insert("v".to_string(), at_registration.duplicate()).unwrap();
    let (reloaded, _) = load_speaker_prompts(&enc, &vec![source("v", &[4], Some(codes))]).unwrap();
    assert_eq!(
        reloaded.get(&"v".to_string()).unwrap().rows,
        table.get(&"v".to_string()).unwrap().rows
    );
}

#[test]
fn table_refuses_a_taken_id() {
    let mut table = VoiceTable::new();
    assert!(table.insert("v".to_string(), grid(&[&[1]])).is_ok());
    assert_eq!(table.insert("v".to_string(), grid(&[&[2]])), Err(RegistryError::DuplicateVoice));
    assert_eq!(table.get(&"v".to_string()).unwrap().rows, vec![vec![1]]);
    assert!(table.contains(&"v".to_string()));
}

#[test]
fn index_lists_discovered_voices_with_empty_text() {
    let mut index = SpeakerIndex::new();
    index.insert("known".to_string(), "hello".to_string()).unwrap();
    let added = index.add_discovered(&vec!["known".to_string(), "new".to_string()]);
    assert!(added);
    assert_eq!(
        index.speakers,
        vec![("known".to_string(), "hello".to_string()), ("new".to_string(), String::new())]
    );
    assert!(!index.add_discovered(&vec!["new".to_string()]));
}

#[test]
fn index_refuses_a_taken_id() {
    let mut index = SpeakerIndex::new();
    index.insert("a".to_string(), "x".to_string()).unwrap();
    assert_eq!(index.insert("a".to_string(), "y".to_string()), Err(RegistryError::DuplicateVoice));
    assert_eq!(index.speakers, vec![("a".to_string(), "x".to_string())]);
}

#[test]
fn duplicate_registration_touches_nothing() {
    let (s, a) = register_step(RegisterState::Checking, RegisterEvent::Checked { duplicate: true });
    assert_eq!(s, RegisterState::Finished);
    assert_eq!(a, RegisterAction::Fail(RegistryError::DuplicateVoice));
    let (s2, a2) = register_step(s, RegisterEvent::TokensWritten { ok: true });
    assert_eq!((s2, a2), (RegisterState::Finished, RegisterAction::Wait));
}

#[test]
fn registration_writes_tokens_then_index_then_inserts() {
    let (s, a) = register_step(RegisterState::Checking, RegisterEvent::Checked { duplicate: false });
    assert_eq!((s, a), (RegisterState::WritingTokens, RegisterAction::WriteTokenFile));
    let (s, a) = register_step(s, RegisterEvent::TokensWritten { ok: true });
    assert_eq!((s, a), (RegisterState::WritingIndex, RegisterAction::WriteIndex));
    let (s, a) = register_step(s, RegisterEvent::IndexWritten { ok: true });
    assert_eq!((s, a), (RegisterState::Finished, RegisterAction::InsertAndReply));
}

#[test]
fn failed_index_write_removes_token_file() {
    let (s, a) = register_step(RegisterState::WritingIndex, RegisterEvent::IndexWritten { ok: false });
    assert_eq!((s, a), (RegisterState::RemovingTokens, RegisterAction::RemoveTokenFile));
    let (s, a) = register_step(s, RegisterEvent::TokensRemoved);
    assert_eq!((s, a), (RegisterState::Finished, RegisterAction::Fail(RegistryError::Io)));
}

#[test]
fn failed_token_write_fails_with_io() {
    let (s, a) = register_step(RegisterState::WritingTokens, RegisterEvent::TokensWritten { ok: false });
    assert_eq!((s, a), (RegisterState::Finished, RegisterAction::Fail(RegistryError::Io)));
}

#[test]
fn default_does_not_depend_on_source_order() {
    let enc = PromptEncoder::new(1, 99);
    let first = vec![source("b", &[2], Some(grid(&[&[7]]))), source("a", &[1], Some(grid(&[&[6]])))];
    let second = vec![source("a", &[1], Some(grid(&[&[6]]))), source("b", &[2], Some(grid(&[&[7]])))];
    let (_, d1) = load_speaker_prompts(&enc, &first).unwrap();
    let (_, d2) = load_speaker_prompts(&enc, &second).unwrap();
    assert_eq!(d1.rows, vec![vec![99, 1], vec![6, 0]]);
    assert_eq!(d1.rows, d2.rows);
}

#[test]
fn smallest_id_compares_by_code_point() {
    let enc = PromptEncoder::new(1, 99);
    let sources = vec![source("a", &[1], Some(grid(&[&[6]]))), source("Z", &[2], Some(grid(&[&[7]])))];
    let (_, d) = load_speaker_prompts(&enc, &sources).unwrap();
    assert_eq!(d.rows, vec![vec![99, 2], vec![7, 0]]);
}
