//! Core of a software-defined-radio receiver: the triple buffer that hands
//! spectrum frames from the acquisition side to the display side, the
//! spectral averaging window, the recording session, device range checks and
//! the acquisition loop's command handling.

pub mod tail_ring;
pub mod averaging;
pub mod recording;
pub mod device;
pub mod sdr;
pub mod acquisition;
pub mod controls;
