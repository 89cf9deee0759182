//! Deterministic pixel art for tokens, with every step proved.
//!
//! A token identifier and the address of its holder are hashed into a seed
//! (`utils`), the seed gives a foreground color (`rng`), and the color is
//! drawn over a gradient on a canvas of fixed size (`art`, `line`,
//! `ellipse`). The canvas is written out as a PNG file (`png`) whose image
//! data is framed as stored, that is uncompressed, zlib blocks (`zlib`),
//! and the file is wrapped in a data URI (`generate`). `contract` and `nft`
//! hold the rules of the two contracts that serve the pictures, free of the
//! ledger that they run on.
//!
//! Each function's contract says what it returns over a mathematical model:
//! an image is the sequence of its rows, a byte stream a sequence of bytes.
//! Checksums, random bytes and base64 come from other crates; what is
//! taken on trust of them is said where they are called.

pub mod art;
pub mod bytes;
pub mod contract;
pub mod ellipse;
pub mod generate;
pub mod line;
pub mod nft;
pub mod png;
pub mod rng;
pub mod utils;
pub mod zlib;
