//! Host scheduling and power-management hints for the emulator thread: the
//! pacing of reports of per-frame CPU time to the platform's performance
//! hint session. Opening the session and sending the reports are the host's
//! part; this decides when to report and what.
use vstd::prelude::*;

verus! {

/// The state of an open hint session.
#[derive(Clone, Copy, Debug, PartialEq, Eq)]
pub struct HintSchedule {
    /// Minimum spacing between reports that the platform wants.
    pub min_report_interval_ns: u64,
    /// When the last report was made.
    pub last_report_ns: Option<u64>,
    /// Thread CPU time at the previous report.
    pub cpu_time_at_last_report_ns: u64,
    /// Frames since the previous report.
    pub frames_since_report: u32,
    /// How many failed reports have been logged.
    pub errors_logged: u32,
}

/// Handle for the hints: create it on the emulator thread, then call
/// [PerfHints::frame_presented] once per presented frame.
#[derive(Clone, Copy, Debug, PartialEq, Eq)]
pub struct PerfHints {
    pub session: Option<HintSchedule>,
}

/// Most failed reports that are logged.
pub const MAX_LOGGED_REPORT_ERRORS: u32 = 3;

/// The frame-time target handed to the platform, in nanoseconds, clamped to
/// `i64`.
pub fn session_target_nanos(target_frame_time_ns: u64) -> (r: i64)
    ensures
        r as int == (if target_frame_time_ns > i64::MAX {
            i64::MAX as int
        } else {
            target_frame_time_ns as int
        }),
{
    if target_frame_time_ns > i64::MAX as u64 {
        i64::MAX
    } else {
        target_frame_time_ns as i64
    }
}

impl PerfHints {
    /// Hints for a host without a hint session: every call is a no-op.
    /// `enabled` and `target_frame_time_ns` matter only where a session is
    /// opened, with [PerfHints::with_session].
    pub fn new(enabled: bool, target_frame_time_ns: u64) -> (r: PerfHints)
        ensures
            r.session is None,
    {
        PerfHints { session: None }
    }

    /// Hints over a freshly opened session, given the platform's preferred
    /// update rate and the thread's CPU time now.
    pub fn with_session(preferred_rate_ns: i64, cpu_time_now_ns: u64) -> (r: PerfHints)
        ensures
            r.session == Some(
                HintSchedule {
                    min_report_interval_ns: if preferred_rate_ns > 0 {
                        preferred_rate_ns as u64
                    } else {
                        0
                    },
                    last_report_ns: None,
                    cpu_time_at_last_report_ns: cpu_time_now_ns,
                    frames_since_report: 0,
                    errors_logged: 0,
                },
            ),
    {
        let min_report_interval_ns = if preferred_rate_ns > 0 {
            preferred_rate_ns as u64
        } else {
            0
        };
        PerfHints {
            session: Some(
                HintSchedule {
                    min_report_interval_ns,
                    last_report_ns: None,
                    cpu_time_at_last_report_ns: cpu_time_now_ns,
                    frames_since_report: 0,
                    errors_logged: 0,
                },
            ),
        }
    }

    /// Notes that a frame was presented at `now_ns` with the thread's CPU
    /// time at `cpu_now_ns`, and returns the per-frame CPU time to report
    /// (at least 1 ns, clamped to `i64`), or `None` where there is no
    /// session or the last report is too recent.
    pub fn frame_presented(&mut self, now_ns: u64, cpu_now_ns: u64) -> (r: Option<i64>)
        ensures
            match old(self).session {
                None => r is None && *final(self) == *old(self),
                Some(s) => {
                    let frames = s.frames_since_report.wrapping_add(1);
                    let too_soon = match s.last_report_ns {
                        Some(last) => now_ns.saturating_sub(last) < s.min_report_interval_ns,
                        None => false,
                    };
                    if too_soon {
                        r is None && final(self).session == Some(
                            HintSchedule { frames_since_report: frames, ..s },
                        )
                    } else {
                        let busy = cpu_now_ns.saturating_sub(s.cpu_time_at_last_report_ns);
                        let per_frame = busy / (if frames == 0 {
                            1
                        } else {
                            frames as u64
                        });
                        &&& final(self).session == Some(
                            HintSchedule {
                                cpu_time_at_last_report_ns: cpu_now_ns,
                                frames_since_report: 0,
                                last_report_ns: Some(now_ns),
                                ..s
                            },
                        )
                        &&& r == Some(
                            if per_frame < 1 {
                                1i64
                            } else if per_frame > i64::MAX {
                                i64::MAX
                            } else {
                                per_frame as i64
                            },
                        )
                    }
                },
            },
    {
        let mut s = match self.session {
            Some(s) => s,
            None => {
                return None;
            },
        };
        s.frames_since_report = s.frames_since_report.wrapping_add(1);
        if let Some(last) = s.last_report_ns {
            if now_ns.saturating_sub(last) < s.min_report_interval_ns {
                self.session = Some(s);
                return None;
            }
        }
        let busy = cpu_now_ns.saturating_sub(s.cpu_time_at_last_report_ns);
        let divisor: u64 = if s.frames_since_report == 0 {
            1
        } else {
            s.frames_since_report as u64
        };
        let per_frame = busy / divisor;
        s.cpu_time_at_last_report_ns = cpu_now_ns;
        s.frames_since_report = 0;
        s.last_report_ns = Some(now_ns);
        self.session = Some(s);
        let nanos: i64 = if per_frame < 1 {
            1
        } else if per_frame > i64::MAX as u64 {
            i64::MAX
        } else {
            per_frame as i64
        };
        Some(nanos)
    }

    /// Notes that the platform refused a report, and says whether to log it:
    /// only the first few refusals are logged.
    pub fn report_failed(&mut self) -> (log: bool)
        ensures
            match old(self).session {
                None => !log && *final(self) == *old(self),
                Some(s) => {
                    &&& log == (s.errors_logged < MAX_LOGGED_REPORT_ERRORS)
                    &&& final(self).session == Some(
                        if log {
                            HintSchedule { errors_logged: (s.errors_logged + 1) as u32, ..s }
                        } else {
                            s
                        },
                    )
                },
            },
    {
        let mut s = match self.session {
            Some(s) => s,
            None => {
                return false;
            },
        };
        if s.errors_logged < MAX_LOGGED_REPORT_ERRORS {
            s.errors_logged = s.errors_logged + 1;
            self.session = Some(s);
            true
        } else {
            false
        }
    }
}

} // verus!
