//! Window descriptions and window-placement arithmetic.
//!
//! A window partitions event time (or arrival counts) into spans over which
//! an aggregation runs. Time-based windows here are aligned: a tumbling
//! window of length `L` covers `[i*L, (i+1)*L)` for whole numbers `i`, and a
//! window closes once the watermark reaches its end.

use vstd::prelude::*;

use crate::time::Duration;
use crate::time::Time;

verus! {

/// A window shape: tumbling and sliding time windows, session gaps, and
/// count-based windows.
#[derive(Debug, Clone, Copy, PartialEq, Eq, Structural)]
pub enum Window {
    Tumbling { length: Duration },
    Sliding { duration: Duration, step: Duration },
    Session { gap: Duration },
    Counting { length: i32 },
    Moving { length: i32, step: i32 },
}

impl Window {
    pub fn tumbling(length: Duration) -> (r: Window)
        ensures
            r == (Window::Tumbling { length }),
    {
        Window::Tumbling { length }
    }

    pub fn sliding(length: Duration, step: Duration) -> (r: Window)
        ensures
            r == (Window::Sliding { duration: length, step }),
    {
        Window::Sliding { duration: length, step }
    }

    pub fn session(gap: Duration) -> (r: Window)
        ensures
            r == (Window::Session { gap }),
    {
        Window::Session { gap }
    }

    pub fn counting(length: i32) -> (r: Window)
        ensures
            r == (Window::Counting { length }),
    {
        Window::Counting { length }
    }

    pub fn moving(length: i32, step: i32) -> (r: Window)
        ensures
            r == (Window::Moving { length, step }),
    {
        Window::Moving { length, step }
    }
}

/// The start of the aligned window of length `len` that contains time `t`.
pub open spec fn spec_window_start(t: int, len: int) -> int {
    (t / len) * len
}

/// Place `t` in its aligned tumbling window: the start is the greatest
/// multiple of `len` at or below `t`.
pub fn window_start(t: Time, len: Duration) -> (r: Time)
    requires
        t.0 >= 0,
        len.0 > 0,
    ensures
        r.0 == spec_window_start(t.0 as int, len.0 as int),
        r.0 <= t.0 < r.0 + len.0,
        r.0 >= 0,
        r.0 % len.0 == 0,
{
    let q = t.0 / len.0;
    proof {
        vstd::arithmetic::div_mod::lemma_fundamental_div_mod(t.0 as int, len.0 as int);
        vstd::arithmetic::div_mod::lemma_mod_bound(t.0 as int, len.0 as int);
        assert(0 <= t.0 as int / len.0 as int) by {
            vstd::arithmetic::div_mod::lemma_div_basics_4(t.0 as int, len.0 as int);
        }
        assert((t.0 as int / len.0 as int) * len.0 <= t.0) by {
            vstd::arithmetic::div_mod::lemma_fundamental_div_mod(t.0 as int, len.0 as int);
        }
        assert(((t.0 as int / len.0 as int) * len.0) % (len.0 as int) == 0) by {
            vstd::arithmetic::div_mod::lemma_mod_multiples_basic(
                t.0 as int / len.0 as int,
                len.0 as int,
            );
        }
    }
    Time(q * len.0)
}

} // verus!
