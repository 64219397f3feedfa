//! The agent on the Windows machine that borrows the headset.
//!
//! Windows has no user-mode way to publish a microphone, so this agent does not
//! try: it plays the audio arriving from Linux into the *render* half of a
//! virtual audio cable, and applications pick the cable's *capture* half from
//! their ordinary microphone list.
//!
//! The other direction is a plain capture, either of a real input or of a render
//! endpoint in loopback mode.

pub mod audio;
pub mod config;
pub mod laws;
pub mod operation_laws;
pub mod pacing_laws;
pub mod run_laws;
pub mod session;
pub mod settings_laws;
pub mod startup;
