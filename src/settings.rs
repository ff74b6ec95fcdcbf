use vstd::prelude::*;

verus! {

/// Configuration that the store reads: how many samples each series keeps,
/// and whether a snapshot carries the full history.
#[derive(Clone, Copy, Debug, PartialEq, Eq, Structural)]
pub struct Settings {
    pub retention_period: u32,
    pub keep_values: bool,
}

/// Retention used when nothing else is configured.
pub const DEFAULT_RETENTION: u32 = 3600;

impl Default for Settings {
    fn default() -> (r: Settings)
        ensures
            r.retention_period == DEFAULT_RETENTION,
            !r.keep_values,
    {
        Settings { retention_period: DEFAULT_RETENTION, keep_values: false }
    }
}

impl Settings {
    /// The retention length, as a sample count.
    pub fn max_len(&self) -> (r: usize)
        ensures
            r == self.retention_period,
    {
        self.retention_period as usize
    }
}

} // verus!
