//! What a filter is configured with.

use crate::extensions::FileExtensions;
use vstd::prelude::*;

verus! {

/// The configuration of a watcher: which files count, and how long a file
/// that was just reported stays quiet.
pub struct Config {
    file_extensions: FileExtensions,
    debounce_throttle: u128,
}

/// What a [`Config`] is, to the contracts.
pub struct ConfigView {
    /// The extensions of the files that count, without leading dots.
    pub file_extensions: Seq<Seq<char>>,
    /// The debounce throttle, in nanoseconds.
    pub debounce_throttle: u128,
}

impl View for Config {
    type V = ConfigView;

    closed spec fn view(&self) -> ConfigView {
        ConfigView {
            file_extensions: self.file_extensions@,
            debounce_throttle: self.debounce_throttle,
        }
    }
}

impl Config {
    /// A configuration with these extensions and this throttle, in nanoseconds.
    pub fn new(file_extensions: FileExtensions, debounce_throttle: u128) -> (config: Config)
        ensures
            config@ == (ConfigView { file_extensions: file_extensions@, debounce_throttle }),
    {
        Config { file_extensions, debounce_throttle }
    }

    /// The extensions of the files that count.
    pub fn file_extensions(&self) -> (extensions: &FileExtensions)
        ensures
            extensions@ == self@.file_extensions,
    {
        &self.file_extensions
    }

    /// The debounce throttle, in nanoseconds.
    pub fn debounce_throttle(&self) -> (throttle: u128)
        ensures
            throttle == self@.debounce_throttle,
    {
        self.debounce_throttle
    }
}

} // verus!
