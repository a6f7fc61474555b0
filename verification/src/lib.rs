//! Reading and writing the DSE sound formats SWDL (sample banks) and SMDL
//! (sequences), with their contracts proved by Verus.
pub mod codec;
pub mod dtype;
pub mod swdl;
pub mod smdl;
pub mod sf2midi;
pub mod usage;
