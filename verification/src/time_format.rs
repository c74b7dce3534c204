//! Rendering of a whole-second count in the scheduler's
//! `[hours:]minutes:seconds` style, and the `SlurmTime` trait that exposes it
//! on duration values.
//!
//! The format, applied to the total whole-second count `t`:
//! - `t == 0` renders as `"0"`;
//! - `t < 60` renders as `"0:{t}"`;
//! - `t < 3600` renders as `"{t/60}:{t%60}"`;
//! - otherwise `"{t/3600}:{(t/60)%60}:{t%60}"`, where the hour count is not
//!   wrapped at a day boundary.

use vstd::prelude::*;

use crate::digits::append_dec;
use crate::digits::dec_str;

verus! {

/// The scheduler-format rendering of a whole-second count.
pub open spec fn slurm_time_str(t: nat) -> Seq<char> {
    if t == 0 {
        seq!['0']
    } else if t < 60 {
        seq!['0', ':'] + dec_str(t)
    } else if t < 3600 {
        dec_str(t / 60) + seq![':'] + dec_str(t % 60)
    } else {
        dec_str(t / 3600) + seq![':'] + dec_str((t / 60) % 60) + seq![':'] + dec_str(t % 60)
    }
}

/// Renders a whole-second count in the scheduler's format.
pub fn slurm_time_string(t: u64) -> (s: String)
    ensures
        s@ == slurm_time_str(t as nat),
{
    let mut out = String::new();
    if t == 0 {
        out.append("0");
        proof {
            reveal_strlit("0");
            assert(out@ =~= slurm_time_str(t as nat));
        }
    } else if t < 60 {
        out.append("0:");
        append_dec(&mut out, t as u128);
        proof {
            reveal_strlit("0:");
            assert(out@ =~= slurm_time_str(t as nat));
        }
    } else if t < 3600 {
        append_dec(&mut out, (t / 60) as u128);
        out.append(":");
        append_dec(&mut out, (t % 60) as u128);
        proof {
            reveal_strlit(":");
            assert(out@ =~= slurm_time_str(t as nat));
        }
    } else {
        append_dec(&mut out, (t / 3600) as u128);
        out.append(":");
        append_dec(&mut out, ((t / 60) % 60) as u128);
        out.append(":");
        append_dec(&mut out, (t % 60) as u128);
        proof {
            reveal_strlit(":");
            assert(out@ =~= slurm_time_str(t as nat));
        }
    }
    out
}

/// A non-negative span of time with nanosecond resolution.
pub struct Duration {
    secs: u64,
    nanos: u32,
}

impl Duration {
    /// Total length in nanoseconds.
    pub closed spec fn total_nanos(&self) -> nat {
        self.secs as nat * 1_000_000_000 + self.nanos as nat
    }

    /// The nanosecond part stays below one second.
    pub closed spec fn wf(&self) -> bool {
        self.nanos < 1_000_000_000
    }

    /// The whole-second count handed to the scheduler: a positive duration
    /// never renders as zero, and sub-second parts are otherwise dropped.
    pub closed spec fn slurm_secs(&self) -> nat {
        if self.secs == 0 && self.nanos == 0 {
            0
        } else if self.secs == 0 {
            1
        } else {
            self.secs as nat
        }
    }

    pub fn from_secs(secs: u64) -> (d: Duration)
        ensures
            d.wf(),
            d.total_nanos() == secs as nat * 1_000_000_000,
            d.slurm_secs() == if secs == 0 { 0nat } else { secs as nat },
    {
        Duration { secs, nanos: 0 }
    }

    pub fn from_millis(millis: u64) -> (d: Duration)
        ensures
            d.wf(),
            d.total_nanos() == millis as nat * 1_000_000,
            d.slurm_secs() == (if millis == 0 {
                0nat
            } else if millis < 1000 {
                1nat
            } else {
                (millis / 1000) as nat
            }),
    {
        let d = Duration { secs: millis / 1000, nanos: (millis % 1000) as u32 * 1_000_000 };
        proof {
            assert(d.total_nanos() == millis as nat * 1_000_000) by (nonlinear_arith)
                requires
                    d.secs == millis / 1000,
                    d.nanos == (millis % 1000) * 1_000_000,
            ;
        }
        d
    }

    pub fn from_nanos(nanos: u64) -> (d: Duration)
        ensures
            d.wf(),
            d.total_nanos() == nanos as nat,
            d.slurm_secs() == (if nanos == 0 {
                0nat
            } else if nanos < 1_000_000_000 {
                1nat
            } else {
                (nanos / 1_000_000_000) as nat
            }),
    {
        let d = Duration {
            secs: nanos / 1_000_000_000,
            nanos: (nanos % 1_000_000_000) as u32,
        };
        proof {
            assert(d.total_nanos() == nanos as nat) by (nonlinear_arith)
                requires
                    d.secs == nanos / 1_000_000_000,
                    d.nanos == nanos % 1_000_000_000,
            ;
        }
        d
    }
}

/// The two ways of taking a whole-second count agree: for a well-formed
/// duration, the count that `to_slurm_time` renders is exactly the one that
/// the nanosecond rule of the time normalizer assigns to its total.
pub proof fn lemma_slurm_secs_agree(d: &Duration)
    requires
        d.wf(),
    ensures
        d.slurm_secs() == crate::time_parse::ns_to_slurm_secs(d.total_nanos()),
{
    if d.secs > 0 {
        vstd::arithmetic::div_mod::lemma_fundamental_div_mod_converse(
            d.total_nanos() as int,
            1_000_000_000,
            d.secs as int,
            d.nanos as int,
        );
    }
}

/// Rendering a duration in the scheduler's textual time format.
pub trait SlurmTime {
    /// The whole-second count that the rendering shows.
    spec fn spec_slurm_secs(&self) -> nat;

    /// Renders the duration in the scheduler's format.
    fn to_slurm_time(&self) -> (s: String)
        ensures
            s@ == slurm_time_str(self.spec_slurm_secs()),
    ;
}

impl SlurmTime for Duration {
    open spec fn spec_slurm_secs(&self) -> nat {
        self.slurm_secs()
    }

    fn to_slurm_time(&self) -> (s: String)
        ensures
            s@ == slurm_time_str(self.spec_slurm_secs()),
    {
        let eff: u64 = if self.secs == 0 && self.nanos == 0 {
            0
        } else if self.secs == 0 {
            1
        } else {
            self.secs
        };
        slurm_time_string(eff)
    }
}

} // verus!
