//! Sync-pair configuration and its validation rules.

use vstd::prelude::*;

verus! {

/// A reason a configuration entry is rejected.
#[derive(Debug, Clone, Copy, PartialEq, Eq, Structural)]
pub enum ConfigIssue {
    /// The pair asks for zero concurrent copies.
    ZeroConcurrency,
    /// Neither a volume name nor a device name is given to match on.
    NoMatchField,
}

/// A rejected configuration, naming the first offending pair.
#[derive(Debug, Clone, Copy, PartialEq, Eq, Structural)]
pub struct ConfigError {
    /// Index of the first invalid pair.
    pub pair: usize,
    /// Why that pair is invalid.
    pub issue: ConfigIssue,
}

/// Which device a sync pair applies to: a volume name and/or a device
/// name; a device matches when every given field equals its identifier.
#[derive(Debug, Clone)]
pub struct DeviceMatchConfig {
    /// Volume name to match, like `\\?\Volume{...}`.
    pub volume: Option<String>,
    /// Device name to match, like `\Device\HarddiskVolume3`.
    pub device: Option<String>,
}

/// The source side of a sync pair.
#[derive(Debug, Clone)]
pub struct SyncPairSource {
    /// Which device the pair applies to.
    pub matcher: DeviceMatchConfig,
    /// Path to synchronise, relative to the matched volume's mount point.
    pub path: String,
}

/// The destination side of a sync pair.
#[derive(Debug, Clone)]
pub struct SyncPairDest {
    /// Absolute path on the host.
    pub path: String,
}

/// One source-to-destination mirror job description.
#[derive(Debug, Clone)]
pub struct SyncPairs {
    /// Source directory.
    pub src: SyncPairSource,
    /// Destination directory.
    pub dest: SyncPairDest,
    /// Number of concurrent file operations; must be at least 1.
    pub concurrency: usize,
}

/// The full configuration: a list of sync pairs.
#[derive(Debug, Clone)]
pub struct Config {
    /// Pairs of directories to synchronise.
    pub pairs: Vec<SyncPairs>,
}

impl DeviceMatchConfig {
    /// Whether this matcher has at least one field to match on.
    pub open spec fn wf(self) -> bool {
        self.volume is Some || self.device is Some
    }

    /// Whether a device with the given volume and device names matches.
    pub open spec fn spec_matches(self, volume_name: Seq<char>, device_name: Seq<char>) -> bool {
        &&& (self.volume is Some ==> self.volume->0@ == volume_name)
        &&& (self.device is Some ==> self.device->0@ == device_name)
    }

    /// Check whether the volume and/or device names match.
    pub fn matches(&self, volume_name: &str, device_name: &str) -> (r: bool)
        ensures
            r == self.spec_matches(volume_name@, device_name@),
    {
        if let Some(volume) = &self.volume {
            let vn = volume_name.to_owned();
            if !(*volume == vn) {
                return false;
            }
        }
        if let Some(device) = &self.device {
            let dn = device_name.to_owned();
            if !(*device == dn) {
                return false;
            }
        }
        true
    }

    /// Check that at least one match field is present.
    pub fn validate(&self) -> (r: Result<(), ConfigIssue>)
        ensures
            r is Ok <==> self.wf(),
            r is Err ==> r->Err_0 == ConfigIssue::NoMatchField,
    {
        if self.volume.is_none() && self.device.is_none() {
            return Err(ConfigIssue::NoMatchField);
        }
        Ok(())
    }
}

impl SyncPairs {
    /// A pair is valid when it asks for at least one concurrent copy and
    /// its matcher names at least one field.
    pub open spec fn wf(self) -> bool {
        self.concurrency > 0 && self.src.matcher.wf()
    }

    /// Check the pair, reporting the first violated rule.
    pub fn validate(&self) -> (r: Result<(), ConfigIssue>)
        ensures
            r is Ok <==> self.wf(),
            r is Err ==> r->Err_0 == (if self.concurrency == 0 {
                ConfigIssue::ZeroConcurrency
            } else {
                ConfigIssue::NoMatchField
            }),
    {
        if self.concurrency == 0 {
            return Err(ConfigIssue::ZeroConcurrency);
        }
        self.src.matcher.validate()
    }
}

impl Config {
    /// Every pair is valid.
    pub open spec fn wf(self) -> bool {
        forall|i: int| 0 <= i < self.pairs@.len() ==> #[trigger] self.pairs@[i].wf()
    }

    /// Check every pair, reporting the first invalid one with its index.
    pub fn validate(&self) -> (r: Result<(), ConfigError>)
        ensures
            r is Ok <==> self.wf(),
            r is Err ==> {
                let e = r->Err_0;
                &&& 0 <= e.pair < self.pairs@.len()
                &&& !self.pairs@[e.pair as int].wf()
                &&& forall|j: int| 0 <= j < e.pair ==> #[trigger] self.pairs@[j].wf()
                &&& e.issue == (if self.pairs@[e.pair as int].concurrency == 0 {
                    ConfigIssue::ZeroConcurrency
                } else {
                    ConfigIssue::NoMatchField
                })
            },
    {
        let mut i: usize = 0;
        while i < self.pairs.len()
            invariant
                0 <= i <= self.pairs@.len(),
                forall|j: int| 0 <= j < i ==> #[trigger] self.pairs@[j].wf(),
            decreases self.pairs@.len() - i,
        {
            match self.pairs[i].validate() {
                Ok(()) => {}
                Err(issue) => {
                    return Err(ConfigError { pair: i, issue });
                }
            }
            i = i + 1;
        }
        Ok(())
    }
}

} // verus!
