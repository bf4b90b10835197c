//! The verified core of a tool that stores a file as a video of QR codes and
//! reads it back.
pub mod text;
pub mod digits;
pub mod frame_names;
pub mod sort_lib;
pub mod frame_order;
pub mod chunking;
pub mod args;
pub mod frame;
pub mod convert_to_mp4;
pub mod compression;
pub mod qr;
pub mod decode_from_mp4;
