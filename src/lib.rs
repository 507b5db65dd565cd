//! Media pipeline core of a screen-and-audio broadcaster and an MP4 player
//! that share one WebSocket wire protocol.

pub mod endian;
pub mod aud0;
pub mod avcc;
pub mod mixer;
pub mod downsample;
pub mod text;
pub mod video;
pub mod session;
pub mod recording;
pub mod demux;
pub mod player;
pub mod pcm;
pub mod device;
