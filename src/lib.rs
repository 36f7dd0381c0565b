//! Embedding a short message in an RGB pixel array, as a QR module grid
//! tiled over the image, and Reed-Solomon framing of a message.

pub mod fft;
pub mod grid;
pub mod lsb;
pub mod pixels;
pub mod watermark;

pub use fft::{payload_perturbation, perturbation, FFT_STRENGTH};
pub use grid::{tile_index, tile_modules, to_qrcode, StegoError, QR_MODULE_COUNT, QR_MODULE_SIZE, QR_VERSION};
pub use lsb::{embed_lsb, lsb_decode, lsb_encode};
pub use pixels::{PixelArray, CHANNELS};
pub use watermark::{Watermark, BLOCK_SIZE, CHUNK_SIZE, ECC_LENGTH, MAGIC_NUMBER, MAGIC_NUMBER_LENGTH};
