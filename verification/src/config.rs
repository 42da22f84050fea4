//! The settings stored under one alias of the configuration file.

use vstd::prelude::*;

verus! {

/// One alias of the configuration: the local directory (under the home
/// directory), the directory on the device, and whether hidden files and
/// directories take part in a transfer.
pub struct ConfigFile {
    pub local_dir: String,
    pub remote_dir: String,
    pub allow_hidden: bool,
}

} // verus!
