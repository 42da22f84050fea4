//! Planning logic for keeping a local directory and a directory on an
//! Android device in step: which directories and files a push or a pull
//! has to transfer, how much space that takes, and the text shown and sent
//! on the way. The device and file-system access itself lives outside this
//! crate; each scan here is driven with the facts gathered from it.

pub mod sizes;
pub mod text;
pub mod paths;
pub mod config;
pub mod queue;
pub mod commands;
pub mod push;
pub mod pull;
