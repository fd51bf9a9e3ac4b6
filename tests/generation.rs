use fish_speech_server::batch::{pad_prompts, StaticBatch};
use fish_speech_server::error::AppError;
use fish_speech_server::gate::AdmissionGate;
use fish_speech_server::prompt::{PromptError, TokenGrid};
use fish_speech_server::registry::RegistryError;
use fish_speech_server::session::GenerationSession;
use fish_speech_server::slot::DecodeSlot;
use fish_speech_server::warmup::{warmup_step, WarmupAction, WarmupEvent, WarmupStage};

const EOS: u32 = 2;

#[test]
fn slot_stops_at_end_token_without_keeping_it() {
    let mut slot = DecodeSlot::new(10);
    assert!(!slot.accept(vec![7, 1], EOS));
    assert!(slot.accept(vec![EOS, 0], EOS));
    assert_eq!(slot.tokens, vec![vec![7, 1]]);
    assert!(slot.accept(vec![8, 1], EOS));
    assert_eq!(slot.tokens, vec![vec![7, 1]]);
}

#[test]
fn slot_stops_at_its_bound() {
    let mut slot = DecodeSlot::new(2);
    assert!(!slot.accept(vec![5], EOS));
    assert!(slot.accept(vec![6], EOS));
    assert_eq!(slot.tokens, vec![vec![5], vec![6]]);
}

#[test]
fn slot_with_zero_bound_is_finished_at_once() {
    let slot = DecodeSlot::new(0);
    assert!(slot.finished);
}

#[test]
fn session_keeps_cache_across_chunks() {
    let mut s = GenerationSession::new(3, EOS);
    s.start_chunk(10);
    assert_eq!(s.cache_len, 10);
    assert!(!s.accept(vec![4]));
    assert!(s.accept(vec![EOS]));
    assert_eq!(s.cache_len, 11);
    s.start_chunk(5);
    assert_eq!(s.cache_len, 16);
    assert!(!s.accept(vec![6]));
    assert!(!s.accept(vec![7]));
    assert!(s.accept(vec![8]));
    assert_eq!(s.cache_len, 19);
    assert_eq!(s.finish(), vec![vec![4], vec![6], vec![7], vec![8]]);
}

#[test]
fn session_reset_clears_cache() {
    let mut s = GenerationSession::new(3, EOS);
    s.start_chunk(10);
    s.accept(vec![4]);
    s.reset();
    assert_eq!(s.cache_len, 0);
    assert!(s.finish().is_empty());
}

#[test]
fn end_to_end_output_is_bounded_and_non_empty() {
    let max = 4;
    let mut s = GenerationSession::new(max, EOS);
    s.start_chunk(3);
    let mut steps = 0;
    while !s.accept(vec![9, 1]) {
        steps += 1;
        assert!(steps < 100);
    }
    let out = s.finish();
    assert!(!out.is_empty());
    assert_eq!(out.len(), max);
}

#[test]
fn batch_slots_finish_independently() {
    let mut b = StaticBatch::new(&vec![3, 3, 1], EOS);
    assert!(!b.step(vec![vec![11], vec![EOS], vec![5]]));
    assert!(!b.step(vec![vec![12], vec![9], vec![9]]));
    assert!(b.step(vec![vec![13], vec![9], vec![9]]));
    let out = b.outputs();
    assert_eq!(out.len(), 3);
    assert_eq!(out[0], vec![vec![11], vec![12], vec![13]]);
    assert!(out[1].is_empty());
    assert_eq!(out[2], vec![vec![5]]);
}

#[test]
fn slot_output_does_not_depend_on_siblings() {
    let mut alone = StaticBatch::new(&vec![5], EOS);
    alone.step(vec![vec![1]]);
    alone.step(vec![vec![EOS]]);
    let mut shared = StaticBatch::new(&vec![5, 5], EOS);
    shared.step(vec![vec![1], vec![7]]);
    shared.step(vec![vec![EOS], vec![8]]);
    shared.step(vec![vec![4], vec![EOS]]);
    assert_eq!(alone.outputs()[0], shared.outputs()[0]);
}

#[test]
fn padding_aligns_prompts_on_the_right() {
    let a = TokenGrid { rows: vec![vec![1, 2, 3], vec![4, 5, 6]] };
    let b = TokenGrid { rows: vec![vec![7], vec![8]] };
    let (m, grids, masks) = pad_prompts(&vec![a, b]);
    assert_eq!(m, 3);
    assert_eq!(grids[0].rows, vec![vec![1, 2, 3], vec![4, 5, 6]]);
    assert_eq!(grids[1].rows, vec![vec![0, 0, 7], vec![0, 0, 8]]);
    assert_eq!(masks[0], vec![true, true, true]);
    assert_eq!(masks[1], vec![false, false, true]);
}

#[test]
fn gate_of_one_serializes_callers() {
    let mut g = AdmissionGate::new(1);
    assert!(g.acquire(1));
    assert!(!g.acquire(2));
    assert!(!g.acquire(3));
    assert_eq!(g.holders, vec![1]);
    assert_eq!(g.release(1), Some(2));
    assert_eq!(g.holders, vec![2]);
    assert_eq!(g.release(2), Some(3));
    assert_eq!(g.release(3), None);
    assert!(g.holders.is_empty());
}

#[test]
fn gate_admits_up_to_capacity() {
    let mut g = AdmissionGate::new(2);
    assert!(g.acquire(1));
    assert!(g.acquire(2));
    assert!(!g.acquire(3));
    assert_eq!(g.release(1), Some(3));
    assert_eq!(g.holders, vec![2, 3]);
}

#[test]
fn error_kinds_statuses_and_messages() {
    let e = AppError::Io("disk full".to_string());
    assert_eq!((e.status_code(), e.kind()), (500, "io"));
    assert_eq!(e.message(), "I/O error: disk full");
    let e = AppError::SerdeJson("bad".to_string());
    assert_eq!((e.status_code(), e.kind()), (400, "serde_json"));
    assert_eq!(e.message(), "Serialization error: bad");
    let e = AppError::Message("x".to_string());
    assert_eq!((e.status_code(), e.kind()), (500, "message"));
    assert_eq!(e.message(), "Application error: x");
    let e = AppError::Anyhow("plain".to_string());
    assert_eq!(e.message(), "plain");
    let e = AppError::from(RegistryError::DuplicateVoice);
    assert_eq!((e.status_code(), e.kind()), (409, "duplicate_voice"));
    let e = AppError::from(RegistryError::NoVoices);
    assert_eq!((e.status_code(), e.kind()), (500, "no_voices"));
    assert_eq!(e.message(), "No speakers found in voices directory");
    let e = AppError::from(PromptError::NoChunks);
    assert_eq!((e.status_code(), e.kind()), (400, "prompt"));
    assert_eq!(e.message(), "Prompt error: no text chunks to encode");
}

#[test]
fn warmup_clears_caches_before_release() {
    let (s, a) = warmup_step(WarmupStage::Admitting, WarmupEvent::Admitted);
    assert_eq!((s, a), (WarmupStage::Generating, WarmupAction::Generate));
    let (s, a) = warmup_step(s, WarmupEvent::Generated { ok: true });
    assert_eq!((s, a), (WarmupStage::Vocoding, WarmupAction::Vocode));
    let (s, a) = warmup_step(s, WarmupEvent::Vocoded { ok: true });
    assert_eq!((s, a), (WarmupStage::Clearing { ok: true }, WarmupAction::ClearCaches));
    let (s, a) = warmup_step(s, WarmupEvent::Cleared);
    assert_eq!((s, a), (WarmupStage::Done { ok: true }, WarmupAction::Release { ok: true }));
}

#[test]
fn failed_warmup_still_clears_caches() {
    let (s, a) = warmup_step(WarmupStage::Generating, WarmupEvent::Generated { ok: false });
    assert_eq!((s, a), (WarmupStage::Clearing { ok: false }, WarmupAction::ClearCaches));
    let (s, a) = warmup_step(s, WarmupEvent::Cleared);
    assert_eq!((s, a), (WarmupStage::Done { ok: false }, WarmupAction::Release { ok: false }));
    let (s2, a2) = warmup_step(WarmupStage::Admitting, WarmupEvent::Cleared);
    assert_eq!((s2, a2), (WarmupStage::Admitting, WarmupAction::Wait));
}
