use vnm_player::commands::FileMetadataResponse;
use vnm_player::player::{
    progress_due, progress_position_ms, ring_capacity, state_label, FileMetadata, PlayAction, PlayerCore,
    PlayerState, StreamEndAction,
};
use vnm_player::playlist::LoopMode;

fn meta() -> FileMetadata {
    FileMetadata {
        path: "song.mp3".to_string(),
        duration_ms: 180000,
        file_sample_rate: 44100,
        file_channels: 2,
        device_sample_rate: 48000,
    }
}

#[test]
fn idle_player_cannot_play() {
    let mut c = PlayerCore::new();
    assert_eq!(c.play(), PlayAction::NoFile { was_playing: false });
    assert_eq!(c.state(), PlayerState::Idle);
    assert_eq!(c.pause(), Err("Not playing".to_string()));
    assert_eq!(c.seeked(500), Err("No decoder".to_string()));
    assert_eq!(c.position_ms(), 500);
    assert!(!c.needs_output_rebuild());
}

#[test]
fn play_pause_resume_restart() {
    let mut c = PlayerCore::new();
    c.loaded(meta());
    assert_eq!(c.state(), PlayerState::Loaded);
    assert_eq!(c.seeked(1200), Ok(false));
    assert_eq!(c.play(), PlayAction::Start { position_ms: 1200 });
    assert_eq!(c.state(), PlayerState::Playing);
    assert_eq!(c.pause(), Ok(()));
    assert_eq!(c.state(), PlayerState::Paused);
    assert_eq!(c.play(), PlayAction::Resume);
    assert_eq!(c.position_ms(), 1200);
    assert_eq!(c.play(), PlayAction::Restart);
    assert_eq!(c.position_ms(), 0);
    assert_eq!(c.state(), PlayerState::Playing);
}

#[test]
fn seek_while_playing_restarts_output() {
    let mut c = PlayerCore::new();
    c.loaded(meta());
    c.play();
    assert_eq!(c.seeked(3000), Ok(true));
    assert_eq!(c.state(), PlayerState::Playing);
    assert_eq!(c.progress_event().position_ms, 3000);
    assert_eq!(c.progress_event().duration_ms, 180000);
}

#[test]
fn stop_rewinds_and_keeps_the_file() {
    let mut c = PlayerCore::new();
    c.loaded(meta());
    c.play();
    c.seeked(5000).unwrap();
    assert!(c.needs_output_rebuild());
    c.stopped();
    assert_eq!(c.state(), PlayerState::Loaded);
    assert_eq!(c.position_ms(), 0);
    assert_eq!(c.file_meta().unwrap().path, "song.mp3");
    assert_eq!(c.play(), PlayAction::Start { position_ms: 0 });
}

#[test]
fn loop_mode_decides_the_end_of_a_file() {
    let mut c = PlayerCore::new();
    assert_eq!(c.stream_end_action(), StreamEndAction::Finish);
    c.set_loop_mode(LoopMode::Single);
    assert_eq!(c.stream_end_action(), StreamEndAction::Rewind);
    c.set_loop_mode(LoopMode::List);
    assert_eq!(c.stream_end_action(), StreamEndAction::Finish);
}

#[test]
fn state_labels() {
    assert_eq!(state_label(PlayerState::Idle), "idle");
    assert_eq!(state_label(PlayerState::Loaded), "paused");
    assert_eq!(state_label(PlayerState::Playing), "playing");
    assert_eq!(state_label(PlayerState::Paused), "paused");
}

#[test]
fn progress_and_buffer_numbers() {
    assert_eq!(progress_position_ms(88200, 44100, 2), 1000);
    assert_eq!(progress_position_ms(88200, 0, 2), 0);
    assert_eq!(progress_position_ms(88200, 44100, 0), 0);
    assert_eq!(ring_capacity(48000, 2), 48000);
    assert_eq!(ring_capacity(44100, 1), 22050);
}

#[test]
fn response_copies_the_metadata() {
    let r = FileMetadataResponse::from_metadata(meta());
    assert_eq!(r.path, "song.mp3");
    assert_eq!(r.duration_ms, 180000);
    assert_eq!(r.sample_rate, 44100);
    assert_eq!(r.channels, 2);
    assert_eq!(r.device_sample_rate, 48000);
}

#[test]
fn progress_is_reported_first_then_every_quarter_second() {
    assert!(progress_due(true, 0));
    assert!(!progress_due(false, 249));
    assert!(progress_due(false, 250));
}
