//! The report of a window proof benchmark.

use vstd::prelude::*;

verus! {

/// What a benchmark was run on.
#[derive(Clone, Copy, Debug, PartialEq, Eq, Structural)]
pub struct Inputs {
    pub sector_size: u64,
}

/// What a benchmark measured, in milliseconds.
#[derive(Clone, Copy, Debug, PartialEq, Eq, Structural)]
pub struct Outputs {
    pub gen_window_post_cpu_time_ms: u64,
    pub gen_window_post_wall_time_ms: u64,
    pub verify_window_post_cpu_time_ms: u64,
    pub verify_window_post_wall_time_ms: u64,
}

/// The report of one benchmark run.
#[derive(Clone, Copy, Debug, PartialEq, Eq, Structural)]
pub struct Report {
    pub inputs: Inputs,
    pub outputs: Outputs,
}

impl Report {
    /// Puts a report together from the sector size and the four times
    /// measured. A time is kept in 64 bits: what does not fit is cut off.
    pub fn new(
        sector_size: u64,
        gen_cpu_ms: u128,
        gen_wall_ms: u128,
        verify_cpu_ms: u128,
        verify_wall_ms: u128,
    ) -> (report: Report)
        ensures
            report == (Report {
                inputs: Inputs { sector_size },
                outputs: Outputs {
                    gen_window_post_cpu_time_ms: gen_cpu_ms as u64,
                    gen_window_post_wall_time_ms: gen_wall_ms as u64,
                    verify_window_post_cpu_time_ms: verify_cpu_ms as u64,
                    verify_window_post_wall_time_ms: verify_wall_ms as u64,
                },
            }),
    {
        Report {
            inputs: Inputs { sector_size },
            outputs: Outputs {
                gen_window_post_cpu_time_ms: #[verifier::truncate]
                (gen_cpu_ms as u64),
                gen_window_post_wall_time_ms: #[verifier::truncate]
                (gen_wall_ms as u64),
                verify_window_post_cpu_time_ms: #[verifier::truncate]
                (verify_cpu_ms as u64),
                verify_window_post_wall_time_ms: #[verifier::truncate]
                (verify_wall_ms as u64),
            },
        }
    }
}

} // verus!
