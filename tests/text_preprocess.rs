use fish_speech_server::model::{system_prompt, warmup_chunks, ModelVariant, WARMUP_TEXT};
use fish_speech_server::text::preprocess_text;

#[test]
fn preprocess_mixed_languages_splits_sentences() {
    let input = "Hello world! これはテストです。你好，世界！";
    let chunks = preprocess_text(input);
    assert!(!chunks.is_empty());
    assert!(chunks.len() >= 3);
}

#[test]
fn chunks_join_back_to_the_input() {
    let input = "One. Two? Three! 四。五";
    let chunks = preprocess_text(input);
    assert_eq!(chunks, vec!["One.", " Two?", " Three!", " 四。", "五"]);
    assert_eq!(chunks.concat(), input);
}

#[test]
fn text_without_terminator_is_one_chunk() {
    assert_eq!(preprocess_text("no terminator here"), vec!["no terminator here"]);
}

#[test]
fn empty_text_gives_no_chunk() {
    assert!(preprocess_text("").is_empty());
}

#[test]
fn whitespace_only_text_is_kept_as_one_chunk() {
    assert_eq!(preprocess_text("   "), vec!["   "]);
}

#[test]
fn every_chunk_is_non_empty_with_runs_of_terminators() {
    let chunks = preprocess_text("Wait...!? 好！！");
    assert_eq!(chunks, vec!["Wait.", ".", ".", "!", "?", " 好！", "！"]);
    assert!(chunks.iter().all(|c| !c.is_empty()));
}

#[test]
fn warmup_request_is_one_sentence() {
    let chunks = warmup_chunks();
    assert_eq!(chunks, vec![WARMUP_TEXT.to_string()]);
}

#[test]
fn only_the_newest_model_has_a_system_prompt() {
    assert_eq!(
        system_prompt(ModelVariant::Fish1_5),
        Some("Speak out the provided text.".to_string())
    );
    assert_eq!(system_prompt(ModelVariant::Fish1_4), None);
    assert_eq!(system_prompt(ModelVariant::Fish1_2), None);
}
