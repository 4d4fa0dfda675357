//! The per-machine settings: which platform name this machine identifies as,
//! and where the canonical repository lives on its disk.

use vstd::prelude::*;

verus! {

/// Per-machine settings, read from the settings file under the user's home.
pub struct PlatformConfig {
    pub platform: Vec<u8>,
    pub repo_path: Vec<u8>,
}

/// Mathematical value of a [`PlatformConfig`].
pub ghost struct PlatformConfigV {
    pub platform: Seq<u8>,
    pub repo_path: Seq<u8>,
}

impl View for PlatformConfig {
    type V = PlatformConfigV;

    open spec fn view(&self) -> PlatformConfigV {
        PlatformConfigV { platform: self.platform@, repo_path: self.repo_path@ }
    }
}

impl PlatformConfig {
    pub fn new(platform: Vec<u8>, repo_path: Vec<u8>) -> (c: PlatformConfig)
        ensures
            c@ == (PlatformConfigV { platform: platform@, repo_path: repo_path@ }),
    {
        PlatformConfig { platform, repo_path }
    }

    /// The platform name this machine identifies as.
    pub fn get_platform(&self) -> (p: &Vec<u8>)
        ensures
            p@ == self@.platform,
    {
        &self.platform
    }

    /// Where the canonical repository lives on this machine.
    pub fn get_repo_path(&self) -> (p: &Vec<u8>)
        ensures
            p@ == self@.repo_path,
    {
        &self.repo_path
    }
}

} // verus!
