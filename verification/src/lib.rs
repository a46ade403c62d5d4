//! Playback logic of a desktop audio player: the play list, the NWA audio
//! format, the player's state machine and the small computations around them.
pub mod playlist;
pub mod nwa_dpcm;
pub mod text;
pub mod error;
pub mod nwa;
pub mod player;
pub mod commands;
pub mod cover;
pub mod media;
