//! Decoder for the NCM encrypted music container: header checks, key-box
//! construction, block-cipher and keystream decryption, and format detection.

pub mod block;
pub mod container;
pub mod cursor;
pub mod keybox;
pub mod metadata;
pub mod types;

pub use block::aes_decrypt;
pub use container::{key_box_from_blob, transform, Decoded};
pub use cursor::{read_u32, split};
pub use keybox::KeyBox;
pub use metadata::{decode_metadata_block, detect_format, join_artists, Metadata};
pub use types::{FormatError, MusicFormat};
