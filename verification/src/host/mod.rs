//! The agent on the Linux machine that physically has the headset.
//!
//! It records from the real microphone and ships the PCM to the Windows agent,
//! which replays it into a virtual microphone that Windows applications can
//! select. In the other direction it receives whatever Windows is playing and
//! puts it on the real headphones.

pub mod config;
pub mod laws;
pub mod operation_laws;
pub mod pulse;
pub mod run_laws;
pub mod session;
pub mod settings_laws;
pub mod startup;
