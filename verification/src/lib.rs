//! The rules of a terminal media player: playlists, lyrics, keys, playback
//! control and the texts on screen.

pub mod args;
pub mod audio;
pub mod decode;
pub mod eq;
pub mod json;
pub mod key_laws;
pub mod lyrics;
pub mod metadata;
pub mod mpv_ipc;
pub mod paths;
pub mod playlist;
pub mod resume;
pub mod ring;
pub mod samples;
pub mod screen;
pub mod session;
pub mod sorting;
pub mod state;
pub mod text;
pub mod track;
pub mod ui;
pub mod video_mpv;
