//! The player's decisions: its state machine, what each command asks of the audio
//! side, and the numbers it reports.
use vstd::prelude::*;
use vstd::string::*;
use crate::playlist::LoopMode;

verus! {

/// Where playback stands.
#[derive(Debug, Clone, Copy, PartialEq, Eq, Structural)]
pub enum PlayerState {
    /// Nothing loaded yet.
    Idle,
    /// A file is loaded and not playing.
    Loaded,
    Playing,
    Paused,
}

/// What a loaded file and the output device are like.
#[derive(Debug, Clone)]
pub struct FileMetadata {
    pub path: String,
    pub duration_ms: u64,
    pub file_sample_rate: u32,
    pub file_channels: u16,
    pub device_sample_rate: u32,
}

impl FileMetadata {
    /// A copy of these metadata.
    pub fn duplicate(&self) -> (copy: FileMetadata)
        ensures
            copy == *self,
    {
        FileMetadata {
            path: self.path.clone(),
            duration_ms: self.duration_ms,
            file_sample_rate: self.file_sample_rate,
            file_channels: self.file_channels,
            device_sample_rate: self.device_sample_rate,
        }
    }
}

/// The playback position reported to the user interface.
#[derive(Debug, Clone, Copy)]
pub struct ProgressEvent {
    pub position_ms: u64,
    pub duration_ms: u64,
}

/// What the audio side must do for a "play" command.
#[derive(Debug, Clone, Copy, PartialEq, Eq, Structural)]
pub enum PlayAction {
    /// Move the decoder to `position_ms`, start a decoding thread, start the output.
    Start { position_ms: u64 },
    /// Start the output again where it paused.
    Resume,
    /// Stop the decoding thread, move the decoder to the start, start a new thread and
    /// the output.
    Restart,
    /// No file is loaded, so nothing can play; when the player was playing, its
    /// decoding thread is stopped first.
    NoFile { was_playing: bool },
}

/// What the decoding thread does when the file runs out.
#[derive(Debug, Clone, Copy, PartialEq, Eq, Structural)]
pub enum StreamEndAction {
    /// Move the decoder back to the start and go on decoding (single-track loop).
    Rewind,
    /// Stop decoding and report the end of playback.
    Finish,
}

/// The player's state: where playback stands, the loaded file, the position and the
/// loop mode.
pub struct PlayerCore {
    pub state: PlayerState,
    pub file_meta: Option<FileMetadata>,
    pub position_ms: u64,
    pub loop_mode: LoopMode,
}

/// The state and action that "play" leads to from `c`: a loaded or idle player starts
/// at its position, a paused one resumes, a playing one restarts from the beginning;
/// without a file nothing starts (a playing player still rewinds its position).
pub open spec fn after_play(c: PlayerCore) -> (PlayerCore, PlayAction) {
    match c.state {
        PlayerState::Loaded | PlayerState::Idle => if c.file_meta is Some {
            (PlayerCore { state: PlayerState::Playing, ..c }, PlayAction::Start { position_ms: c.position_ms })
        } else {
            (c, PlayAction::NoFile { was_playing: false })
        },
        PlayerState::Paused => (PlayerCore { state: PlayerState::Playing, ..c }, PlayAction::Resume),
        PlayerState::Playing => if c.file_meta is Some {
            (PlayerCore { position_ms: 0, ..c }, PlayAction::Restart)
        } else {
            (PlayerCore { position_ms: 0, ..c }, PlayAction::NoFile { was_playing: true })
        },
    }
}

/// The state that "pause" leads to: only a playing player pauses.
pub open spec fn after_pause(c: PlayerCore) -> PlayerCore {
    if c.state == PlayerState::Playing {
        PlayerCore { state: PlayerState::Paused, ..c }
    } else {
        c
    }
}

/// The state once "stop" succeeded: loaded, at the start.
pub open spec fn after_stop(c: PlayerCore) -> PlayerCore {
    PlayerCore { state: PlayerState::Loaded, position_ms: 0, ..c }
}

/// The state once the decoder moved to `position_ms`: same state, new position.
pub open spec fn after_seek(c: PlayerCore, position_ms: u64) -> PlayerCore {
    PlayerCore { position_ms, ..c }
}

/// The text of the error a command answers when no file is loaded.
pub open spec fn msg_no_decoder() -> Seq<char> {
    "No decoder"@
}

/// The text of the error "pause" answers when the player is not playing.
pub open spec fn msg_not_playing() -> Seq<char> {
    "Not playing"@
}

impl PlayerCore {
    /// Playback only runs, or pauses, with a file loaded.
    pub open spec fn wf(&self) -> bool {
        (self.state == PlayerState::Playing || self.state == PlayerState::Paused) ==> self.file_meta is Some
    }

    /// An idle player with nothing loaded.
    pub fn new() -> (c: PlayerCore)
        ensures
            c.state == PlayerState::Idle,
            c.file_meta is None,
            c.position_ms == 0,
            c.loop_mode == LoopMode::Off,
            c.wf(),
    {
        PlayerCore { state: PlayerState::Idle, file_meta: None, position_ms: 0, loop_mode: LoopMode::Off }
    }

    /// Sets the loop mode.
    pub fn set_loop_mode(&mut self, mode: LoopMode)
        ensures
            *final(self) == (PlayerCore { loop_mode: mode, ..*old(self) }),
            old(self).wf() ==> final(self).wf(),
    {
        self.loop_mode = mode;
    }

    /// What the decoding thread does at the end of the file: with the single-track loop
    /// it starts the track again, otherwise playback ends.
    pub fn stream_end_action(&self) -> (action: StreamEndAction)
        ensures
            action == (if self.loop_mode == LoopMode::Single {
                StreamEndAction::Rewind
            } else {
                StreamEndAction::Finish
            }),
    {
        if self.loop_mode == LoopMode::Single {
            StreamEndAction::Rewind
        } else {
            StreamEndAction::Finish
        }
    }

    /// Where playback stands.
    pub fn state(&self) -> (s: PlayerState)
        ensures
            s == self.state,
    {
        self.state
    }

    /// The playback position in milliseconds.
    pub fn position_ms(&self) -> (ms: u64)
        ensures
            ms == self.position_ms,
    {
        self.position_ms
    }

    /// A copy of the loaded file's metadata, if any.
    pub fn file_meta(&self) -> (meta: Option<FileMetadata>)
        ensures
            meta == self.file_meta,
    {
        match &self.file_meta {
            Some(m) => Some(m.duplicate()),
            None => None,
        }
    }

    /// A file was opened: it is loaded, at its start.
    pub fn loaded(&mut self, meta: FileMetadata)
        ensures
            final(self).state == PlayerState::Loaded,
            final(self).file_meta == Some(meta),
            final(self).position_ms == 0,
            final(self).loop_mode == old(self).loop_mode,
            final(self).wf(),
    {
        self.file_meta = Some(meta);
        self.position_ms = 0;
        self.state = PlayerState::Loaded;
    }

    /// Decides a "play" command, as `after_play` says.
    pub fn play(&mut self) -> (action: PlayAction)
        ensures
            (*final(self), action) == after_play(*old(self)),
            old(self).wf() ==> final(self).wf(),
    {
        match self.state {
            PlayerState::Loaded | PlayerState::Idle => {
                if self.file_meta.is_some() {
                    self.state = PlayerState::Playing;
                    PlayAction::Start { position_ms: self.position_ms }
                } else {
                    PlayAction::NoFile { was_playing: false }
                }
            },
            PlayerState::Paused => {
                self.state = PlayerState::Playing;
                PlayAction::Resume
            },
            PlayerState::Playing => {
                self.position_ms = 0;
                if self.file_meta.is_some() {
                    PlayAction::Restart
                } else {
                    PlayAction::NoFile { was_playing: true }
                }
            },
        }
    }

    /// Decides a "pause" command: a playing player pauses, any other answers an error.
    pub fn pause(&mut self) -> (paused: Result<(), String>)
        ensures
            *final(self) == after_pause(*old(self)),
            old(self).state == PlayerState::Playing <==> paused is Ok,
            paused matches Err(m) ==> m@ == msg_not_playing(),
            old(self).wf() ==> final(self).wf(),
    {
        if self.state == PlayerState::Playing {
            self.state = PlayerState::Paused;
            Ok(())
        } else {
            Err(String::from_str("Not playing"))
        }
    }

    /// Whether stopping must rebuild the output (only with a file loaded).
    pub fn needs_output_rebuild(&self) -> (rebuild: bool)
        ensures
            rebuild == self.file_meta is Some,
    {
        self.file_meta.is_some()
    }

    /// A "stop" went through: loaded, at the start.
    pub fn stopped(&mut self)
        ensures
            *final(self) == after_stop(*old(self)),
            old(self).wf() ==> final(self).wf(),
    {
        self.state = PlayerState::Loaded;
        self.position_ms = 0;
    }

    /// The decoder moved to `position_ms`: the position follows; without a file no new
    /// decoding thread can start, which is an error. Answers whether the output must
    /// start again (it was playing).
    pub fn seeked(&mut self, position_ms: u64) -> (restart_output: Result<bool, String>)
        ensures
            *final(self) == after_seek(*old(self), position_ms),
            old(self).file_meta is Some ==> restart_output == Ok::<bool, String>(
                old(self).state == PlayerState::Playing,
            ),
            old(self).file_meta is None ==> (restart_output matches Err(m) && m@ == msg_no_decoder()),
            old(self).wf() ==> final(self).wf(),
    {
        self.position_ms = position_ms;
        if self.file_meta.is_none() {
            return Err(String::from_str("No decoder"));
        }
        Ok(self.state == PlayerState::Playing)
    }

    /// The progress report: the position, and the loaded file's duration (0 without one).
    pub fn progress_event(&self) -> (event: ProgressEvent)
        ensures
            event.position_ms == self.position_ms,
            event.duration_ms == (match self.file_meta {
                Some(m) => m.duration_ms,
                None => 0,
            }),
    {
        let duration_ms = match &self.file_meta {
            Some(m) => m.duration_ms,
            None => 0,
        };
        ProgressEvent { position_ms: self.position_ms, duration_ms }
    }
}

/// Pausing a playing player and then playing again resumes at the same position.
pub proof fn law_pause_then_play_resumes(c: PlayerCore)
    requires
        c.wf(),
        c.state == PlayerState::Playing,
    ensures
        after_play(after_pause(c)).1 == PlayAction::Resume,
        after_play(after_pause(c)).0 == c,
{
}

/// "Play" on a playing player restarts the file from the beginning.
pub proof fn law_play_while_playing_restarts(c: PlayerCore)
    requires
        c.wf(),
        c.state == PlayerState::Playing,
    ensures
        after_play(c).1 == PlayAction::Restart,
        after_play(c).0.position_ms == 0,
        after_play(c).0.state == PlayerState::Playing,
{
}

/// Stopping and then playing starts the loaded file from its beginning.
pub proof fn law_stop_then_play_starts_at_zero(c: PlayerCore)
    requires
        c.file_meta is Some,
    ensures
        after_play(after_stop(c)).1 == (PlayAction::Start { position_ms: 0 }),
        after_play(after_stop(c)).0.state == PlayerState::Playing,
{
}

/// Stopping keeps the loaded track and rewinds it.
pub proof fn law_stop_keeps_track(c: PlayerCore)
    ensures
        after_stop(c).file_meta == c.file_meta,
        after_stop(c).position_ms == 0,
        after_stop(c).state == PlayerState::Loaded,
{
}

/// A seek keeps the state: a playing player goes on playing, a paused one stays paused.
pub proof fn law_seek_keeps_state(c: PlayerCore, position_ms: u64)
    ensures
        after_seek(c, position_ms).state == c.state,
        after_seek(c, position_ms).position_ms == position_ms,
{
}

/// The name of a state as the user interface shows it: a loaded file counts as paused.
pub open spec fn spec_state_label(state: PlayerState) -> Seq<char> {
    match state {
        PlayerState::Idle => "idle"@,
        PlayerState::Loaded => "paused"@,
        PlayerState::Playing => "playing"@,
        PlayerState::Paused => "paused"@,
    }
}

/// Computes `spec_state_label`.
pub fn state_label(state: PlayerState) -> (label: String)
    ensures
        label@ == spec_state_label(state),
{
    match state {
        PlayerState::Idle => String::from_str("idle"),
        PlayerState::Loaded => String::from_str("paused"),
        PlayerState::Playing => String::from_str("playing"),
        PlayerState::Paused => String::from_str("paused"),
    }
}

/// The playback position in milliseconds after `total` decoded sample values of a
/// file at `rate` frames per second and `channels` channels; 0 when either is 0. The
/// product with 1000 wraps around, as Rust's release builds compute it.
pub fn progress_position_ms(total: u64, rate: u32, channels: u16) -> (ms: u64)
    ensures
        rate > 0 && channels > 0 ==> ms == vstd::wrapping::u64_specs::wrapping_mul(total, 1000)
            as int / (rate as int * channels as int),
        rate > 0 && channels > 0 && total * 1000 <= u64::MAX ==> ms == (total * 1000) / (
        rate as int * channels as int),
        !(rate > 0 && channels > 0) ==> ms == 0,
{
    if channels > 0 && rate > 0 {
        proof {
            assert(0 < rate as int * channels as int <= 0xffff_ffff * 0xffff) by (nonlinear_arith)
                requires
                    0 < rate <= 0xffff_ffff,
                    0 < channels <= 0xffff,
            ;
        }
        total.wrapping_mul(1000) / (rate as u64 * channels as u64)
    } else {
        0
    }
}

/// Whether the decoding thread reports its progress now: after its first block, then
/// once at least 250 ms have passed since the last report.
pub fn progress_due(first_report: bool, elapsed_ms: u128) -> (due: bool)
    ensures
        due == (first_report || elapsed_ms >= 250),
{
    first_report || elapsed_ms >= 250
}

/// The capacity, in samples, of the buffer between the decoding thread and the output:
/// half a second of the file's channels at the device rate.
pub fn ring_capacity(device_rate: u32, channels: u16) -> (capacity: usize)
    ensures
        capacity == ((device_rate as int * channels as int) / 2) as usize,
{
    proof {
        assert(0 <= device_rate as int * channels as int <= 0xffff_ffff * 0xffff) by (nonlinear_arith)
            requires
                0 <= device_rate <= 0xffff_ffff,
                0 <= channels <= 0xffff,
        ;
    }
    let product: u64 = device_rate as u64 * channels as u64;
    #[verifier::truncate]
    ((product / 2) as usize)
}

} // verus!
