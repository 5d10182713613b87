use touchhle::perf::{
    configure, enabled, gles_scope, interpreter_scope, memory_scope, objc_scope, record_arm32_jit,
    reset, PerfState,
};
use touchhle::perf_hints::{session_target_nanos, PerfHints};

#[test]
fn scopes_count_only_when_enabled() {
    let mut state = PerfState::new();
    assert!(interpreter_scope(&state, 5).is_none());
    configure(&mut state, true);
    assert!(enabled(&state));
    let scope = memory_scope(&state, 100).unwrap();
    scope.finish(&mut state, 350);
    assert_eq!(state.memory.count, 1);
    assert_eq!(state.memory.time_ns, 250);
    objc_scope(&state, 10).unwrap().finish(&mut state, 5);
    assert_eq!(state.objc.count, 1);
    assert_eq!(state.objc.time_ns, 0);
    gles_scope(&state, 0).unwrap().finish(&mut state, 1);
    assert_eq!(state.gles.time_ns, 1);
    record_arm32_jit(&mut state, 7, 3, 1);
    assert_eq!((state.arm32_jit_runs, state.arm32_jit_time_ns, state.arm32_code_fetches), (1, 7, 3));
    reset(&mut state);
    assert!(state.enabled);
    assert_eq!(state.memory.count, 0);
    assert_eq!(state.arm32_jit_runs, 0);
    configure(&mut state, false);
    record_arm32_jit(&mut state, 7, 3, 1);
    assert_eq!(state.arm32_jit_runs, 0);
}

#[test]
fn hints_without_session_do_nothing() {
    let mut hints = PerfHints::new(true, 16_666_667);
    assert_eq!(hints.frame_presented(1, 2), None);
    assert!(!hints.report_failed());
}

#[test]
fn hints_report_average_frame_time() {
    let mut hints = PerfHints::with_session(10_000_000, 1_000);
    assert_eq!(hints.frame_presented(100, 5_000), Some(4_000));
    // Too soon after the last report: only counted.
    assert_eq!(hints.frame_presented(5_000_000, 9_000), None);
    assert_eq!(hints.frame_presented(20_000_100, 13_000), Some(4_000));
    // No CPU time spent still reports one nanosecond.
    assert_eq!(hints.frame_presented(40_000_100, 13_000), Some(1));
    assert!(hints.report_failed());
    assert!(hints.report_failed());
    assert!(hints.report_failed());
    assert!(!hints.report_failed());
    assert_eq!(session_target_nanos(u64::MAX), i64::MAX);
    assert_eq!(session_target_nanos(16), 16);
}
