//! MediaPlayer: movie playback.
pub mod movie_demux;
pub mod movie_video;
