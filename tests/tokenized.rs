use fish_speech_server::index::SpeakerIndex;
use fish_speech_server::prompt::{PromptEncoder, PromptError, TokenGrid};
use fish_speech_server::model::ModelVariant;
use fish_speech_server::registry::{load_speaker_prompts, voice_sources};
use fish_speech_server::warmup::{warmup_prompt, warmup_request};
use tokenizers::Tokenizer;

fn word_tokenizer() -> Tokenizer {
    let json = r#"{
        "version": "1.0",
        "truncation": null,
        "padding": null,
        "added_tokens": [],
        "normalizer": null,
        "pre_tokenizer": {"type": "WhitespaceSplit"},
        "post_processor": null,
        "decoder": null,
        "model": {"type": "WordLevel", "vocab": {"hello": 10, "world": 11, "[UNK]": 12}, "unk_token": "[UNK]"}
    }"#;
    json.parse::<Tokenizer>().unwrap()
}

#[test]
fn voice_prompt_tokenizes_text_after_reference() {
    let tok = word_tokenizer();
    let enc = PromptEncoder::new(1, 99);
    let codes = TokenGrid { rows: vec![vec![4, 5]] };
    let p = enc.encode_voice_prompt(&tok, "hello world", &Some(codes)).unwrap();
    assert_eq!(p.rows, vec![vec![99, 99, 10, 11], vec![4, 5, 0, 0]]);
}

#[test]
fn voice_prompt_without_reference_is_tokenized_text() {
    let tok = word_tokenizer();
    let enc = PromptEncoder::new(1, 99);
    let p = enc.encode_voice_prompt(&tok, "world whatever", &None).unwrap();
    assert_eq!(p.rows, vec![vec![11, 12], vec![0, 0]]);
}

#[test]
fn voice_prompt_refuses_unusable_codes() {
    let tok = word_tokenizer();
    let enc = PromptEncoder::new(2, 99);
    let codes = TokenGrid { rows: vec![vec![4]] };
    let r = enc.encode_voice_prompt(&tok, "hello", &Some(codes));
    assert_eq!(r.err(), Some(PromptError::CodebookMismatch { expected: 2, found: 1 }));
}

#[test]
fn sources_pair_index_entries_with_codes() {
    let tok = word_tokenizer();
    let mut index = SpeakerIndex::new();
    index.insert("a".to_string(), "hello".to_string()).unwrap();
    index.insert("b".to_string(), "world hello".to_string()).unwrap();
    let codes = vec![None, Some(TokenGrid { rows: vec![vec![7]] })];
    let sources = voice_sources(&tok, &index, codes).unwrap();
    assert_eq!(sources.len(), 2);
    assert_eq!(sources[0].id, "a");
    assert_eq!(sources[0].text_tokens, vec![10]);
    assert!(sources[0].codes.is_none());
    assert_eq!(sources[1].text_tokens, vec![11, 10]);
    let enc = PromptEncoder::new(1, 99);
    let (table, default) = load_speaker_prompts(&enc, &sources).unwrap();
    assert_eq!(table.ids(), vec!["b".to_string()]);
    assert_eq!(default.rows, vec![vec![99, 11, 10], vec![7, 0, 0]]);
}

#[test]
fn empty_index_gives_no_sources() {
    let tok = word_tokenizer();
    let sources = voice_sources(&tok, &SpeakerIndex::new(), vec![]).unwrap();
    assert!(sources.is_empty());
}

#[test]
fn warmup_prompt_is_system_voice_then_first_chunk() {
    let enc = PromptEncoder::new(1, 99);
    let voice = TokenGrid { rows: vec![vec![99, 30], vec![5, 0]] };
    let (n, p) = warmup_prompt(&enc, &vec![vec![1, 2], vec![3]], &Some(vec![50]), &voice).unwrap();
    assert_eq!(n, 3);
    assert_eq!(p.rows, vec![vec![50, 99, 30, 1, 2], vec![0, 5, 0, 0, 0]]);
}

#[test]
fn warmup_prompt_needs_a_chunk() {
    let enc = PromptEncoder::new(1, 99);
    let voice = TokenGrid { rows: vec![vec![99], vec![5]] };
    assert_eq!(warmup_prompt(&enc, &vec![], &None, &voice).err(), Some(PromptError::NoChunks));
}

#[test]
fn warmup_request_tokenizes_text_and_system_prompt() {
    let tok = word_tokenizer();
    let enc = PromptEncoder::new(1, 99);
    let voice = TokenGrid { rows: vec![vec![99], vec![5]] };
    // every warmup word is unknown to this vocabulary
    let (n, p) = warmup_request(&tok, &enc, ModelVariant::Fish1_4, &voice).unwrap();
    assert_eq!(n, 1);
    assert_eq!(p.rows[0][0], 99);
    assert_eq!(p.rows[0].len(), 1 + 6);
    assert!(p.rows[0][1..].iter().all(|&t| t == 12));
    let (n5, _) = warmup_request(&tok, &enc, ModelVariant::Fish1_5, &voice).unwrap();
    assert_eq!(n5, 1 + 5);
}
