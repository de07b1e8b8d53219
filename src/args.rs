//! Run configuration: which categories to optimize, pool width, speed profile and roots.

use vstd::prelude::*;

verus! {

/// The categories enabled for a run.
#[derive(Clone, Copy, Debug, PartialEq, Eq, Structural)]
pub struct Targets {
    /// Optimize raster images (`dmi` and `png` files).
    pub dmi: bool,
    /// Optimize audio containers (`ogg` files).
    pub ogg: bool,
}

/// The configuration of one run.
#[derive(Clone, Debug)]
pub struct CliArgs {
    pub targets: Targets,
    /// Width of the worker pool.
    pub threads: usize,
    /// Trade compression for speed on raster images.
    pub fast: bool,
    /// Files or directories to optimize, each path as its bytes;
    /// directories are searched recursively.
    pub files: Vec<Vec<u8>>,
}

/// A configuration that prevents any task from starting.
#[derive(Clone, Copy, Debug, PartialEq, Eq, Structural)]
pub enum ConfigError {
    /// No category was enabled.
    NoTarget,
}

/// Accepts a configuration iff at least one category is enabled.
pub fn validate(args: &CliArgs) -> (r: Result<(), ConfigError>)
    ensures
        r is Ok <==> (args.targets.dmi || args.targets.ogg),
        r is Err ==> r == Err::<(), ConfigError>(ConfigError::NoTarget),
{
    if args.targets.dmi || args.targets.ogg {
        Ok(())
    } else {
        Err(ConfigError::NoTarget)
    }
}

/// Pool width for a machine with `cpus` logical processors: one fewer, at least one.
pub fn threads_for(cpus: usize) -> (r: usize)
    ensures
        r == if cpus <= 1 { 1 } else { cpus - 1 },
{
    let n = cpus.saturating_sub(1);
    if n < 1 {
        1
    } else {
        n
    }
}

/// Relies on num_cpus::get: the number of logical processors available to
/// this process. Nothing is promised of its value.
#[verifier::external_body]
fn available_cpus() -> (r: usize) {
    num_cpus::get()
}

/// Default pool width: the available logical processors minus one, at least one.
pub fn default_threads() -> (r: usize)
    ensures
        r >= 1,
{
    threads_for(available_cpus())
}

/// Optimization preset of the raster optimizer for the speed profile.
pub fn raster_preset(fast: bool) -> (r: u8)
    ensures
        r == if fast { 1u8 } else { 4u8 },
{
    if fast {
        1
    } else {
        4
    }
}

} // verus!
