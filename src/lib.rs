pub mod account;
pub mod amf;
pub mod boxes;
pub mod chunk;
pub mod error;
pub mod flv;
pub mod fraction;
pub mod handshake;
pub mod ingest;
pub mod live;
pub mod media;
pub mod mkv;
pub mod mp4;
pub mod nal;
pub mod rbsp;
pub mod session;
pub mod span;
pub mod text;
pub mod wire;
