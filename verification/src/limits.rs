//! Process resource limits that matter for a tool that opens thousands of sockets.
//!
//! macOS gives GUI apps launched from Finder a soft limit of only 256 open files, and a
//! connect attempt that fails with `EMFILE` looks exactly like a closed port. The limit is
//! raised as far as the OS allows and the scanner's socket budget sized from the result.
use vstd::prelude::*;

verus! {

/// Highest soft limit asked for. macOS refuses values above `OPEN_MAX` (10240) when the
/// hard limit is unlimited, and this is plenty for a scanner.
pub const TARGET_OPEN_FILES: u64 = 10240;

/// File descriptors kept in reserve for the runtime, DNS lookups, child processes, etc.
pub const RESERVED_FDS: u64 = 64;

/// Hard cap on simultaneous sockets regardless of the fd limit.
pub const MAX_SOCKET_BUDGET: u64 = 4096;

/// Floor for the socket budget so scanning still works under a tiny fd limit.
pub const MIN_SOCKET_BUDGET: u64 = 32;

/// The socket budget for the given `(soft, hard)` open-file limits, if the platform has them.
pub open spec fn budget_for(limits: Option<(u64, u64)>) -> int {
    let raw: int = match limits {
        Some((soft, _)) => if soft >= 64 {
            soft - 64
        } else {
            0
        },
        None => 4096,
    };
    if raw < 32 {
        32
    } else if raw > 4096 {
        4096
    } else {
        raw
    }
}

/// Number of TCP connections a scan may have in flight at once, given the process's
/// `(soft, hard)` open-file limits (`None` where the platform has no such limit): the soft
/// limit less the reserve, kept between `MIN_SOCKET_BUDGET` and `MAX_SOCKET_BUDGET`.
pub fn socket_budget(limits: Option<(u64, u64)>) -> (r: usize)
    ensures
        r == budget_for(limits),
        MIN_SOCKET_BUDGET <= r <= MAX_SOCKET_BUDGET,
{
    let budget = match limits {
        Some((soft, _)) => soft.saturating_sub(RESERVED_FDS),
        None => MAX_SOCKET_BUDGET,
    };
    let clamped = if budget < MIN_SOCKET_BUDGET {
        MIN_SOCKET_BUDGET
    } else if budget > MAX_SOCKET_BUDGET {
        MAX_SOCKET_BUDGET
    } else {
        budget
    };
    clamped as usize
}

/// The soft limit to ask for: `TARGET_OPEN_FILES`, but never above the hard limit.
pub open spec fn target_limit(hard: u64) -> u64 {
    if hard < 10240 {
        hard
    } else {
        10240
    }
}

/// The soft limit that results: kept when it already reaches the target, raised to the
/// target when the OS accepted that, unchanged otherwise.
pub open spec fn limit_after(soft: u64, hard: u64, accepted: bool) -> u64 {
    if soft >= target_limit(hard) {
        soft
    } else if accepted {
        target_limit(hard)
    } else {
        soft
    }
}

/// The soft limit to request from the OS, or `None` when the current one already reaches
/// the target.
pub fn raise_request(soft: u64, hard: u64) -> (r: Option<u64>)
    ensures
        r == (if soft >= target_limit(hard) {
            None
        } else {
            Some(target_limit(hard))
        }),
{
    let target = if hard < TARGET_OPEN_FILES {
        hard
    } else {
        TARGET_OPEN_FILES
    };
    if soft >= target {
        None
    } else {
        Some(target)
    }
}

/// The effective soft limit after an attempt to raise it, where `accepted` tells whether
/// the OS took the requested value.
pub fn effective_limit(soft: u64, hard: u64, accepted: bool) -> (r: u64)
    ensures
        r == limit_after(soft, hard, accepted),
{
    match raise_request(soft, hard) {
        None => soft,
        Some(target) => if accepted {
            target
        } else {
            soft
        },
    }
}

/// Raising the limit never lowers it: whatever the OS answers, the effective soft limit
/// is at least the soft limit before the attempt.
pub proof fn raising_never_lowers(soft: u64, hard: u64, accepted: bool)
    ensures
        limit_after(soft, hard, accepted) >= soft,
{
}

} // verus!
