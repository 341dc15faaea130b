//! Verified decision logic of the NovaSDR server: the DSP thread policy, the
//! per-frame scheduling of the DSP loop, the windows handed to audio and
//! waterfall clients, the events tick and the classification of input errors.

pub mod termination;
pub mod threads;
pub mod frames;
pub mod waterfall;
pub mod audio;
pub mod iq;
pub mod events;
pub mod bind;
pub mod input;
