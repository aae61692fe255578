use neuropipe::stt::{
    decode_text, read_wav, requested_mode, stt_command, vocab_from_text, wav_readable, DecodeCursor, SttCommand, Recording, TurnCheck, TurnPolicy,
    PRE_RECORD_CHUNKS, TAIL_SAMPLES, WINDOW_SIZE,
};

fn chunk(sample: f32) -> Vec<f32> {
    vec![sample; WINDOW_SIZE]
}

fn default_policy() -> TurnPolicy {
    TurnPolicy {
        turn_end_enabled: true,
        turn_hard_ceiling_ms: 2500,
        turn_hold_ms: 250,
        turn_score_cadence_ms: 400,
        max_silence_ms: 1000,
    }
}

fn tail_glide(freq_from: f32, freq_to: f32) -> Vec<f32> {
    let sr = 16_000.0f32;
    let n = (0.6 * sr) as usize;
    let mut out = Vec::with_capacity(n);
    let mut phase = 0.0f32;
    for i in 0..n {
        let frac = i as f32 / n as f32;
        let freq = freq_from + (freq_to - freq_from) * frac;
        out.push(phase.sin());
        phase += 2.0 * std::f32::consts::PI * freq / sr;
    }
    out
}

#[test]
fn recording_pre_roll_ring_is_bounded() {
    let mut rec = Recording::new();
    for i in 0..PRE_RECORD_CHUNKS + 5 {
        rec.buffer_pre(chunk(i as f32));
    }
    assert_eq!(rec.pre_speech.len(), PRE_RECORD_CHUNKS);
    // The oldest frames were dropped.
    assert_eq!(rec.pre_speech[0][0], 5.0);
}

#[test]
fn recording_tail_is_bounded() {
    let mut rec = Recording::new();
    rec.start();
    for _ in 0..(TAIL_SAMPLES / WINDOW_SIZE + 50) {
        rec.push(&chunk(0.1));
    }
    assert!(rec.tail.len() <= TAIL_SAMPLES);
}

#[test]
fn recording_utterance_ms_tracks_samples() {
    let mut rec = Recording::new();
    rec.start();
    for _ in 0..100 {
        rec.push(&chunk(0.1));
    }
    assert_eq!(rec.utterance_ms(), 3200);
}

#[test]
fn silence_run_resets_on_speech() {
    let mut rec: Recording<f32> = Recording::new();
    rec.start();
    rec.silence_ms = 500;
    rec.last_scored_ms = 300;
    rec.on_speech();
    assert_eq!(rec.silence_ms, 0);
    assert_eq!(rec.last_scored_ms, 0);
}

#[test]
fn endpoint_holds_below_hold_window() {
    let mut rec = Recording::new();
    rec.start();
    rec.push(&tail_glide(440.0, 160.0));
    rec.silence_ms = 100;
    assert_eq!(rec.should_end_turn(&default_policy()), TurnCheck::Hold);
}

#[test]
fn endpoint_finalizes_at_hard_ceiling() {
    let mut rec = Recording::new();
    rec.start();
    rec.push(&tail_glide(440.0, 220.0));
    rec.silence_ms = 3000;
    assert_eq!(rec.should_end_turn(&default_policy()), TurnCheck::End);
}

#[test]
fn endpoint_respects_score_cadence() {
    let mut rec = Recording::new();
    rec.start();
    rec.push(&tail_glide(440.0, 160.0));
    rec.silence_ms = 600;
    assert_eq!(rec.should_end_turn(&default_policy()), TurnCheck::Score);
    assert_eq!(rec.last_scored_ms, 600);
    rec.silence_ms = 632;
    assert_eq!(rec.should_end_turn(&default_policy()), TurnCheck::Hold);
    rec.silence_ms = 1000;
    assert_eq!(rec.should_end_turn(&default_policy()), TurnCheck::Score);
}

#[test]
fn endpoint_falls_back_to_fixed_silence_when_disabled() {
    let policy = TurnPolicy { turn_end_enabled: false, ..default_policy() };
    let mut rec = Recording::new();
    rec.start();
    rec.push(&tail_glide(440.0, 160.0));
    rec.silence_ms = 500;
    assert_eq!(rec.should_end_turn(&policy), TurnCheck::Hold);
    rec.silence_ms = 1024;
    assert_eq!(rec.should_end_turn(&policy), TurnCheck::End);
}

#[test]
fn silent_frame_adds_one_frame_of_silence() {
    let mut rec: Recording<f32> = Recording::new();
    rec.start();
    rec.push(&chunk(0.2));
    assert_eq!(rec.silent_frame(&default_policy()), TurnCheck::Hold);
    assert_eq!(rec.silence_ms, 32);
}

#[test]
fn start_moves_pre_roll_into_recording() {
    let mut rec = Recording::new();
    rec.buffer_pre(chunk(1.0));
    rec.buffer_pre(chunk(2.0));
    rec.start();
    assert!(rec.is_recording);
    assert!(rec.pre_speech.is_empty());
    assert_eq!(rec.recorded.len(), 2);
    rec.push(&chunk(3.0));
    let all = rec.take_recorded();
    assert_eq!(all.len(), 3 * WINDOW_SIZE);
    assert_eq!(all[0], 1.0);
    assert_eq!(all[2 * WINDOW_SIZE], 3.0);
    rec.reset();
    assert!(!rec.is_recording);
    assert!(rec.recorded.is_empty());
}

#[test]
fn tail_samples_keep_the_latest_audio() {
    let mut rec = Recording::new();
    rec.start();
    for i in 0..(TAIL_SAMPLES / WINDOW_SIZE + 2) {
        rec.push(&chunk(i as f32));
    }
    let tail = rec.tail_samples();
    assert_eq!(tail.len(), TAIL_SAMPLES);
    assert_eq!(*tail.last().unwrap(), (TAIL_SAMPLES / WINDOW_SIZE + 1) as f32);
}

#[test]
fn decode_collapses_spaces() {
    let vocab: Vec<String> = vec!["<blk>".into(), " Hello".into(), " world".into()];
    assert_eq!(decode_text(&[1, 2], &vocab), "Hello world");
    assert_eq!(decode_text(&[1], &vocab), "Hello");
    assert_eq!(decode_text(&[1, 2, 1, 2], &vocab), "Hello world Hello world");
}

#[test]
fn decode_skips_ids_outside_vocabulary() {
    let vocab: Vec<String> = vec![" a".into(), "  b ".into()];
    assert_eq!(decode_text(&[0, 7, 1], &vocab), "a b");
    assert_eq!(decode_text(&[], &vocab), "");
}

#[test]
fn decode_cursor_moves_on_blank_and_limit() {
    let mut c = DecodeCursor::start();
    assert!(c.advance(5, 0, 0, 2));
    assert_eq!((c.frame, c.emitted), (0, 1));
    assert!(c.advance(6, 0, 0, 2));
    assert_eq!((c.frame, c.emitted), (1, 0));
    assert!(!c.advance(0, 0, 0, 2));
    assert_eq!((c.frame, c.emitted), (2, 0));
    assert!(c.advance(3, 4, 0, 2));
    assert_eq!((c.frame, c.emitted), (6, 0));
}

fn wav_bytes(tag: u16, channels: u16, rate: u32, bits: u16, samples: &[i16]) -> Vec<u8> {
    let mut out = Vec::new();
    out.extend_from_slice(b"RIFF");
    out.extend_from_slice(&0u32.to_le_bytes());
    out.extend_from_slice(b"WAVE");
    out.extend_from_slice(b"fmt ");
    out.extend_from_slice(&16u32.to_le_bytes());
    out.extend_from_slice(&tag.to_le_bytes());
    out.extend_from_slice(&channels.to_le_bytes());
    out.extend_from_slice(&rate.to_le_bytes());
    out.extend_from_slice(&0u32.to_le_bytes());
    out.extend_from_slice(&0u16.to_le_bytes());
    out.extend_from_slice(&bits.to_le_bytes());
    out.extend_from_slice(b"data");
    out.extend_from_slice(&((samples.len() * 2) as u32).to_le_bytes());
    for s in samples {
        out.extend_from_slice(&s.to_le_bytes());
    }
    out
}

#[test]
fn reads_mono_pcm16() {
    let data = wav_bytes(1, 1, 16000, 16, &[1, -2, 300]);
    assert!(wav_readable(&data));
    let wav = read_wav(&data).unwrap();
    assert_eq!(wav.rate, 16000);
    assert_eq!(wav.samples, vec![1, -2, 300]);
}

#[test]
fn averages_stereo_frames_toward_zero() {
    let data = wav_bytes(1, 2, 22050, 16, &[3, 4, -3, -4, 9]);
    let wav = read_wav(&data).unwrap();
    assert_eq!(wav.rate, 22050);
    assert_eq!(wav.samples, vec![3, -3, 9]);
}

#[test]
fn wav_errors() {
    let mut not_riff = wav_bytes(1, 1, 16000, 16, &[1]);
    not_riff[0] = b'X';
    assert_eq!(read_wav(&not_riff).unwrap_err(), "not a RIFF/WAVE file");
    let float = wav_bytes(3, 1, 16000, 32, &[1]);
    assert_eq!(read_wav(&float).unwrap_err(), "only PCM_16 supported (tag=3, bits=32)");
    let silent = wav_bytes(1, 0, 16000, 16, &[1]);
    assert_eq!(read_wav(&silent).unwrap_err(), "no channels");
    let mut no_fmt = Vec::new();
    no_fmt.extend_from_slice(b"RIFF\0\0\0\0WAVE");
    no_fmt.extend_from_slice(b"data");
    no_fmt.extend_from_slice(&2u32.to_le_bytes());
    no_fmt.extend_from_slice(&[1, 0]);
    assert_eq!(read_wav(&no_fmt).unwrap_err(), "no fmt chunk");
}

#[test]
fn truncated_fmt_chunk_is_not_readable() {
    let mut data = Vec::new();
    data.extend_from_slice(b"RIFF\0\0\0\0WAVE");
    data.extend_from_slice(b"fmt ");
    data.extend_from_slice(&4u32.to_le_bytes());
    data.extend_from_slice(&[1, 0, 1, 0]);
    assert!(!wav_readable(&data));
    assert!(!wav_readable(b"RIFF"));
}

#[test]
fn short_inputs_that_are_not_riff_are_refused_with_an_error() {
    assert!(!wav_readable(b"RIF"));
    assert!(wav_readable(b"ABCDE"));
    assert_eq!(read_wav(b"ABCDE").unwrap_err(), "not a RIFF/WAVE file");
    assert!(wav_readable(b"RIFF\0\0\0\0ABCD"));
    assert_eq!(read_wav(b"RIFF\0\0\0\0ABCD").unwrap_err(), "not a RIFF/WAVE file");
    assert!(!wav_readable(b"RIFF\0\0"));
}

#[test]
fn vocab_file_places_tokens_by_id() {
    let text = "<unk> 0\n\u{2581}the 2\r\nbad line\nx +1\nno_space\n\u{2581}a  3  \n";
    let vocab = vocab_from_text(text).unwrap();
    assert_eq!(vocab, vec!["<unk>", "x", " the", " a"]);
}

#[test]
fn vocab_file_later_lines_win_and_gaps_are_empty() {
    assert_eq!(vocab_from_text("a 2\nb 2").unwrap(), vec!["", "", "b"]);
    assert_eq!(vocab_from_text("").unwrap(), vec![""]);
    assert_eq!(vocab_from_text("a -1\nb 99999999999999999999999").unwrap(), vec![""]);
    let huge = format!("z {}", usize::MAX);
    assert_eq!(vocab_from_text(&huge), None);
}

#[test]
fn stt_commands_and_modes() {
    assert_eq!(stt_command(Some("get_state")), SttCommand::GetState);
    assert_eq!(stt_command(Some("set_mode")), SttCommand::SetMode);
    assert_eq!(stt_command(Some("manual_stop")), SttCommand::ManualStop);
    assert_eq!(stt_command(Some("dance")), SttCommand::Unknown);
    assert_eq!(stt_command(None), SttCommand::Missing);
    assert_eq!(requested_mode(Some("VAD")), "VAD");
    assert_eq!(requested_mode(None), "IDLE");
}
