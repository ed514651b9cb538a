//! What an analysis run is configured with.

use vstd::prelude::*;
use vstd::string::*;
use crate::precision::Precision;

verus! {

/// The number format to generate code for, and the directory that generated
/// code and analysis results go to.
#[derive(Debug)]
pub struct Config {
    pub precision: Precision,
    pub output_dir: String,
}

impl Clone for Config {
    fn clone(&self) -> (r: Config)
        ensures
            r == *self,
    {
        Config { precision: self.precision, output_dir: self.output_dir.clone() }
    }
}

impl Default for Config {
    /// Double precision, and the directory `output/`.
    fn default() -> (r: Config)
        ensures
            r.precision == Precision::Float64,
            r.output_dir@ == "output/"@,
    {
        Config { precision: Precision::Float64, output_dir: String::from_str("output/") }
    }
}

} // verus!
