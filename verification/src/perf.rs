//! Performance counters: how many calls into each part of the emulator were
//! made and how long they took, switched on and off as a whole.
use vstd::prelude::*;

verus! {

/// A call counter with the time spent in the calls.
#[derive(Clone, Copy, Debug, PartialEq, Eq)]
pub struct Counter {
    pub count: u64,
    pub time_ns: u64,
}

/// The parts of the emulator whose calls are timed.
#[derive(Clone, Copy, Debug, PartialEq, Eq)]
pub enum ScopeKind {
    Interpreter,
    Memory,
    ObjC,
    Gles,
}

/// All performance counters, and whether they are counting.
#[derive(Clone, Copy, Debug, PartialEq, Eq)]
pub struct PerfState {
    pub enabled: bool,
    pub arm32_cpu: Counter,
    pub memory: Counter,
    pub objc: Counter,
    pub gles: Counter,
    pub arm32_jit_runs: u64,
    pub arm32_jit_time_ns: u64,
    pub arm32_code_fetches: u64,
    pub arm32_interpreter_fallbacks: u64,
}

/// A counter at zero.
pub open spec fn zero_counter() -> Counter {
    Counter { count: 0, time_ns: 0 }
}

/// The counter that a kind of scope adds to.
pub open spec fn counter_of(state: PerfState, kind: ScopeKind) -> Counter {
    match kind {
        ScopeKind::Interpreter => state.arm32_cpu,
        ScopeKind::Memory => state.memory,
        ScopeKind::ObjC => state.objc,
        ScopeKind::Gles => state.gles,
    }
}

/// `state` with the counter of `kind` replaced by `c`.
pub open spec fn with_counter(state: PerfState, kind: ScopeKind, c: Counter) -> PerfState {
    match kind {
        ScopeKind::Interpreter => PerfState { arm32_cpu: c, ..state },
        ScopeKind::Memory => PerfState { memory: c, ..state },
        ScopeKind::ObjC => PerfState { objc: c, ..state },
        ScopeKind::Gles => PerfState { gles: c, ..state },
    }
}

impl PerfState {
    /// Counters at zero, not counting.
    pub fn new() -> (r: Self)
        ensures
            !r.enabled,
            r.arm32_cpu == zero_counter() && r.memory == zero_counter() && r.objc == zero_counter()
                && r.gles == zero_counter(),
            r.arm32_jit_runs == 0 && r.arm32_jit_time_ns == 0 && r.arm32_code_fetches == 0
                && r.arm32_interpreter_fallbacks == 0,
    {
        PerfState {
            enabled: false,
            arm32_cpu: Counter { count: 0, time_ns: 0 },
            memory: Counter { count: 0, time_ns: 0 },
            objc: Counter { count: 0, time_ns: 0 },
            gles: Counter { count: 0, time_ns: 0 },
            arm32_jit_runs: 0,
            arm32_jit_time_ns: 0,
            arm32_code_fetches: 0,
            arm32_interpreter_fallbacks: 0,
        }
    }
}

/// Switches counting on or off.
pub fn configure(state: &mut PerfState, enabled: bool)
    ensures
        *final(state) == (PerfState { enabled, ..*old(state) }),
{
    state.enabled = enabled;
}

/// Whether counting is on.
pub fn enabled(state: &PerfState) -> (r: bool)
    ensures
        r == state.enabled,
{
    state.enabled
}

/// A timed call in progress: when it ends, its kind's counter counts it.
#[derive(Clone, Copy, Debug, PartialEq, Eq)]
pub struct Scope {
    pub start_ns: u64,
    pub kind: ScopeKind,
}

impl Scope {
    /// Starts timing a call of `kind` at `now_ns`, where counting is on.
    pub fn new(state: &PerfState, kind: ScopeKind, now_ns: u64) -> (r: Option<Self>)
        ensures
            r == (if state.enabled {
                Some(Scope { start_ns: now_ns, kind })
            } else {
                None
            }),
    {
        if enabled(state) {
            Some(Scope { start_ns: now_ns, kind })
        } else {
            None
        }
    }

    /// Ends the call at `now_ns`: its counter counts one more call and the
    /// time since the start (none where `now_ns` is earlier), both
    /// wrapping as `u64`.
    pub fn finish(self, state: &mut PerfState, now_ns: u64)
        ensures
            *final(state) == with_counter(
                *old(state),
                self.kind,
                Counter {
                    count: counter_of(*old(state), self.kind).count.wrapping_add(1),
                    time_ns: counter_of(*old(state), self.kind).time_ns.wrapping_add(
                        now_ns.saturating_sub(self.start_ns),
                    ),
                },
            ),
    {
        let elapsed = now_ns.saturating_sub(self.start_ns);
        let c = match self.kind {
            ScopeKind::Interpreter => &mut state.arm32_cpu,
            ScopeKind::Memory => &mut state.memory,
            ScopeKind::ObjC => &mut state.objc,
            ScopeKind::Gles => &mut state.gles,
        };
        c.count = c.count.wrapping_add(1);
        c.time_ns = c.time_ns.wrapping_add(elapsed);
    }
}

/// Starts timing an interpreter run.
pub fn interpreter_scope(state: &PerfState, now_ns: u64) -> (r: Option<Scope>)
    ensures
        r == (if state.enabled {
            Some(Scope { start_ns: now_ns, kind: ScopeKind::Interpreter })
        } else {
            None
        }),
{
    Scope::new(state, ScopeKind::Interpreter, now_ns)
}

/// Starts timing a memory access.
pub fn memory_scope(state: &PerfState, now_ns: u64) -> (r: Option<Scope>)
    ensures
        r == (if state.enabled {
            Some(Scope { start_ns: now_ns, kind: ScopeKind::Memory })
        } else {
            None
        }),
{
    Scope::new(state, ScopeKind::Memory, now_ns)
}

/// Starts timing an Objective-C dispatch.
pub fn objc_scope(state: &PerfState, now_ns: u64) -> (r: Option<Scope>)
    ensures
        r == (if state.enabled {
            Some(Scope { start_ns: now_ns, kind: ScopeKind::ObjC })
        } else {
            None
        }),
{
    Scope::new(state, ScopeKind::ObjC, now_ns)
}

/// Starts timing an OpenGL ES call.
pub fn gles_scope(state: &PerfState, now_ns: u64) -> (r: Option<Scope>)
    ensures
        r == (if state.enabled {
            Some(Scope { start_ns: now_ns, kind: ScopeKind::Gles })
        } else {
            None
        }),
{
    Scope::new(state, ScopeKind::Gles, now_ns)
}

/// Adds a JIT run's figures, where counting is on (the sums wrap as
/// `u64`).
pub fn record_arm32_jit(
    state: &mut PerfState,
    run_time_ns: u64,
    code_fetches: u64,
    interpreter_fallbacks: u64,
)
    ensures
        !old(state).enabled ==> *final(state) == *old(state),
        old(state).enabled ==> *final(state) == (PerfState {
            arm32_jit_runs: old(state).arm32_jit_runs.wrapping_add(1),
            arm32_jit_time_ns: old(state).arm32_jit_time_ns.wrapping_add(run_time_ns),
            arm32_code_fetches: old(state).arm32_code_fetches.wrapping_add(code_fetches),
            arm32_interpreter_fallbacks: old(state).arm32_interpreter_fallbacks.wrapping_add(
                interpreter_fallbacks,
            ),
            ..*old(state)
        }),
{
    if !enabled(state) {
        return ;
    }
    state.arm32_jit_runs = state.arm32_jit_runs.wrapping_add(1);
    state.arm32_jit_time_ns = state.arm32_jit_time_ns.wrapping_add(run_time_ns);
    state.arm32_code_fetches = state.arm32_code_fetches.wrapping_add(code_fetches);
    state.arm32_interpreter_fallbacks = state.arm32_interpreter_fallbacks.wrapping_add(
        interpreter_fallbacks,
    );
}

/// Sets every counter back to zero; whether counting is on stays.
pub fn reset(state: &mut PerfState)
    ensures
        final(state).enabled == old(state).enabled,
        final(state).arm32_cpu == zero_counter() && final(state).memory == zero_counter()
            && final(state).objc == zero_counter() && final(state).gles == zero_counter(),
        final(state).arm32_jit_runs == 0 && final(state).arm32_jit_time_ns == 0
            && final(state).arm32_code_fetches == 0 && final(state).arm32_interpreter_fallbacks
            == 0,
{
    let kept = state.enabled;
    *state = PerfState::new();
    state.enabled = kept;
}

} // verus!
