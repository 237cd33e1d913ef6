//! Reading, writing and transforming EGS phase space files held in memory: a codec
//! for the packed header and records, and the operations that combine, sample,
//! reweight, shuffle and compare whole files.

pub mod bytes;
pub mod codec;
pub mod header;
pub mod stream;
pub mod combine;
pub mod rng;
pub mod sample;
pub mod randomize;
pub mod compare;
pub mod reweight;
pub mod param;
