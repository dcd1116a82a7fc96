use audiobench::notes::{
    compute_min_silent_samples, equal_tempered_tuning, DataFormat, HostData, NoteTracker,
};

const FORMAT: DataFormat = DataFormat { sample_rate: 44100, buffer_len: 441 };

fn tracker() -> NoteTracker<u32> {
    NoteTracker::new(FORMAT)
}

#[test]
fn tuning_matches_concert_pitch() {
    assert_eq!(f32::from_bits(equal_tempered_tuning(69)), 440.0);
    assert_eq!(f32::from_bits(equal_tempered_tuning(81)), 880.0);
    assert_eq!(f32::from_bits(equal_tempered_tuning(57)), 220.0);
}

#[test]
fn tuning_is_monotonic_across_the_index_space() {
    let mut prev = f32::from_bits(equal_tempered_tuning(0));
    assert!((prev - 8.17579).abs() < 0.001);
    for i in 1..128 {
        let hz = f32::from_bits(equal_tempered_tuning(i));
        assert!(hz > prev);
        prev = hz;
    }
}

#[test]
fn start_note_records_pitch_velocity_and_triggers() {
    let mut t = tracker();
    t.start_note(7, 69, (0.8f32).to_bits());
    assert_eq!(t.active_count(), 1);
    let d = t.active_note_data(0);
    assert_eq!(f32::from_bits(d.pitch), 440.0);
    assert_eq!(d.velocity, (0.8f32).to_bits());
    assert_eq!(d.elapsed_samples, 0);
    assert_eq!(d.elapsed_beat_units, 0);
    assert!(d.start_trigger);
    assert!(!d.release_trigger);
    assert_eq!(*t.active_static(0), 7);
}

#[test]
fn second_start_at_same_index_changes_nothing() {
    let mut t = tracker();
    t.start_note(1, 60, (0.5f32).to_bits());
    t.start_note(2, 60, (0.9f32).to_bits());
    assert_eq!(t.active_count(), 1);
    let d = t.active_note_data(0);
    assert_eq!(d.velocity, (0.5f32).to_bits());
    assert_eq!(*t.active_static(0), 1);
}

#[test]
fn release_moves_voice_to_decaying_with_release_trigger() {
    let mut t = tracker();
    t.start_note(1, 64, 0);
    t.release_note(64);
    assert_eq!(t.active_count(), 1);
    let d = t.active_note_data(0);
    assert!(!d.start_trigger);
    assert!(d.release_trigger);
    // a second release of the same slot changes nothing
    t.release_note(64);
    assert_eq!(t.active_count(), 1);
}

#[test]
fn released_voice_survives_until_silent_threshold_then_next_advance_removes_it() {
    let mut t = tracker();
    let min_silent = compute_min_silent_samples(FORMAT.sample_rate);
    assert_eq!(min_silent, 4410);
    t.start_note(1, 72, 0);
    t.release_note(72);
    // each buffer: the voice runs silent, then the tracker advances
    for buffer in 1..=10 {
        assert_eq!(t.active_count(), 1, "buffer {buffer}: voice should still decay");
        let d = t.active_note_data(0);
        assert!(!d.start_trigger);
        t.set_voice_silence(0, true);
        t.advance_all_notes(0);
    }
    // the tenth silent buffer reached 4410 silent samples, so that advance
    // removed the voice
    assert_eq!(t.active_count(), 0);
}

#[test]
fn audible_buffer_resets_the_silent_count() {
    let mut t = tracker();
    t.start_note(1, 72, 0);
    t.release_note(72);
    for _ in 0..9 {
        t.set_voice_silence(0, true);
        t.advance_all_notes(0);
    }
    // one audible buffer resets the count, buying the voice ten more buffers
    t.set_voice_silence(0, false);
    t.advance_all_notes(0);
    for _ in 0..9 {
        assert_eq!(t.active_count(), 1);
        t.set_voice_silence(0, true);
        t.advance_all_notes(0);
    }
    assert_eq!(t.active_count(), 1);
    t.set_voice_silence(0, true);
    t.advance_all_notes(0);
    assert_eq!(t.active_count(), 0);
}

#[test]
fn advance_clears_start_trigger_and_counts_time() {
    let mut t = tracker();
    t.start_note(1, 60, 0);
    t.advance_all_notes(500);
    let d = t.active_note_data(0);
    assert_eq!(d.elapsed_samples, 441);
    assert_eq!(d.elapsed_beat_units, 500);
    assert!(!d.start_trigger);
    t.advance_all_notes(500);
    assert_eq!(t.active_note_data(0).elapsed_samples, 882);
    assert_eq!(t.active_note_data(0).elapsed_beat_units, 1000);
}

#[test]
fn feedback_prefers_youngest_held_voice() {
    let mut t = tracker();
    t.start_note(1, 60, 0);
    t.advance_all_notes(0);
    t.start_note(2, 67, 0);
    t.advance_all_notes(0);
    // slot 60 has elapsed 882, slot 67 has elapsed 441: the younger wins,
    // and the answer is its enumeration index, not its pitch index
    assert_eq!(t.active_note_data(0).elapsed_samples, 882);
    assert_eq!(t.active_note_data(1).elapsed_samples, 441);
    assert_eq!(t.recommend_note_for_feedback(), Some(1));
}

#[test]
fn feedback_falls_back_to_decaying_when_nothing_is_held() {
    let mut t = tracker();
    t.start_note(1, 60, 0);
    t.release_note(60);
    assert_eq!(t.recommend_note_for_feedback(), Some(0));
}

#[test]
fn feedback_is_none_with_no_active_voices() {
    let t = tracker();
    assert_eq!(t.recommend_note_for_feedback(), None);
}

#[test]
fn feedback_ties_resolve_to_first_in_enumeration_order() {
    let mut t = tracker();
    t.start_note(1, 72, 0);
    t.start_note(2, 48, 0);
    // both at elapsed 0; slot order puts pitch 48 first
    assert_eq!(t.recommend_note_for_feedback(), Some(0));
    assert_eq!(*t.active_static(0), 2);
}

#[test]
fn held_voices_outrank_younger_decaying_voices() {
    let mut t = tracker();
    t.start_note(1, 60, 0);
    t.advance_all_notes(0);
    t.start_note(2, 65, 0);
    t.release_note(65);
    // the decaying voice is younger, but a held voice exists
    assert_eq!(t.recommend_note_for_feedback(), Some(0));
}

#[test]
fn empty_buffer_only_advances_the_song_position() {
    let mut t = tracker();
    assert_eq!(t.active_count(), 0);
    t.advance_all_notes(250);
    assert_eq!(t.active_count(), 0);
    let mut host = HostData::new(120_000);
    host.advance(FORMAT.buffer_len, 250);
    // the song moved by exactly one buffer of audio: 441 samples, which is
    // 441 / 44100 seconds
    assert_eq!(host.song_time_samples, 441);
    assert_eq!(host.song_beat_units, 250);
    assert_eq!(host.millibpm, 120_000);
}

#[test]
fn silence_all_drops_every_voice() {
    let mut t = tracker();
    t.start_note(1, 60, 0);
    t.start_note(2, 61, 0);
    t.release_note(61);
    assert_eq!(t.active_count(), 2);
    t.silence_all();
    assert_eq!(t.active_count(), 0);
}

#[test]
fn format_change_drops_every_voice() {
    let mut t = tracker();
    t.start_note(1, 60, 0);
    let new_format = DataFormat { sample_rate: 48000, buffer_len: 512 };
    t.set_data_format(new_format);
    assert_eq!(t.active_count(), 0);
    assert_eq!(t.data_format, new_format);
}

#[test]
fn min_silent_samples_rounds_up() {
    assert_eq!(compute_min_silent_samples(44100), 4410);
    assert_eq!(compute_min_silent_samples(48000), 4800);
    assert_eq!(compute_min_silent_samples(44101), 4411);
}
