use touchhle::frameworks::media_toolbox::{
    check_tap_request, CMTimeRange, MTAudioProcessingTapCallbacks, State, PARAM_ERR, POST_EFFECTS,
    PRE_EFFECTS,
};

fn callbacks() -> MTAudioProcessingTapCallbacks {
    MTAudioProcessingTapCallbacks {
        version: 0,
        client_info: 0x100,
        init: 0x2001,
        finalize: 0x2011,
        prepare: 0x2021,
        unprepare: 0x2031,
        process: 0x2041,
    }
}

#[test]
fn tap_requests_are_checked() {
    assert_eq!(check_tap_request(false, false, PRE_EFFECTS, callbacks()), 0);
    assert_eq!(check_tap_request(false, false, POST_EFFECTS, callbacks()), 0);
    assert_eq!(check_tap_request(true, false, PRE_EFFECTS, callbacks()), PARAM_ERR);
    assert_eq!(check_tap_request(false, true, PRE_EFFECTS, callbacks()), PARAM_ERR);
    assert_eq!(check_tap_request(false, false, 3, callbacks()), PARAM_ERR);
    let no_process = MTAudioProcessingTapCallbacks { process: 0, ..callbacks() };
    assert_eq!(check_tap_request(false, false, PRE_EFFECTS, no_process), PARAM_ERR);
    let version1 = MTAudioProcessingTapCallbacks { version: 1, ..callbacks() };
    assert_eq!(check_tap_request(false, false, PRE_EFFECTS, version1), PARAM_ERR);
}

#[test]
fn tap_lifecycle_runs_callbacks_in_order() {
    let mut state = State::new();
    assert_eq!(state.register_tap(0x8000, callbacks()), Some(0x2001));
    state.set_storage(0x8000, 0x9000);
    assert_eq!(state.get_storage(0x8000), 0x9000);
    assert_eq!(state.get_storage(0x8004), 0);
    assert_eq!(state.unprepare_tap(0x8000), None);
    assert_eq!(state.prepare_tap(0x8000), Some(0x2021));
    assert_eq!(state.source_audio_status(0x8000, false), 0);
    assert_eq!(state.source_audio_status(0x8000, true), PARAM_ERR);
    assert_eq!(state.destroy_tap(0x8000), (Some(0x2031), Some(0x2011)));
    assert_eq!(state.destroy_tap(0x8000), (None, None));
    assert_eq!(state.source_audio_status(0x8000, false), PARAM_ERR);
    assert_eq!(CMTimeRange::default().duration.value, 0);
}
