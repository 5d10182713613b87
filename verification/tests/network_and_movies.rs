use touchhle::frameworks::foundation::ns_url_connection::{
    accept_status, check_request, data_length, effective_method, is_plain_get, ConnectionState,
    InitOutcome, RequestError,
};
use touchhle::frameworks::media_player::movie_video::{
    ffmpeg_args_after_input, ffmpeg_args_before_input, frame_size, parse_decimal_u32,
    parse_probe_output,
};

#[test]
fn requests_are_checked_before_sending() {
    assert_eq!(check_request(true, true, false, "http://x"), Err(RequestError::NilRequest));
    assert_eq!(check_request(false, false, false, "http://x"), Err(RequestError::NetworkDisabled));
    assert_eq!(check_request(false, true, true, ""), Err(RequestError::NilUrl));
    assert_eq!(check_request(false, true, false, ""), Err(RequestError::EmptyUrl));
    assert_eq!(check_request(false, true, false, "http://x"), Ok(()));
}

#[test]
fn methods_and_statuses() {
    assert_eq!(effective_method(""), "GET");
    assert_eq!(effective_method("POST"), "POST");
    assert!(is_plain_get("get", 0));
    assert!(!is_plain_get("GET", 3));
    assert!(!is_plain_get("POST", 0));
    assert_eq!(accept_status(200), Ok(200));
    assert_eq!(accept_status(302), Ok(302));
    assert_eq!(accept_status(404), Err(RequestError::HttpStatus(404)));
    assert_eq!(accept_status(199), Err(RequestError::HttpStatus(199)));
    assert_eq!(data_length(10), 10);
}

#[test]
fn connection_delivery_follows_cancel() {
    assert_eq!(ConnectionState::init(0, 5, true), InitOutcome::Refused);
    let InitOutcome::Started { mut state, schedule } = ConnectionState::init(7, 5, true) else {
        panic!("should start");
    };
    assert!(schedule);
    assert_eq!(state.delivery(), Some((5, 7)));
    state.cancel();
    assert_eq!(state.delivery(), None);
    let InitOutcome::Started { state, .. } = ConnectionState::init(7, 0, false) else {
        panic!("should start");
    };
    assert_eq!(state.delivery(), None);
}

#[test]
fn probe_output_is_read() {
    assert_eq!(parse_probe_output(b"320,240\n"), Some((320, 240)));
    assert_eq!(parse_probe_output(b"  640 , +480 \n"), Some((640, 480)));
    assert_eq!(parse_probe_output(b"320"), None);
    assert_eq!(parse_probe_output(b"320,x"), None);
    assert_eq!(parse_probe_output(b""), None);
    assert_eq!(parse_decimal_u32(b"4294967295"), Some(u32::MAX));
    assert_eq!(parse_decimal_u32(b"4294967296"), None);
    assert_eq!(parse_decimal_u32(b"+"), None);
}

#[test]
fn ffmpeg_arguments() {
    assert_eq!(
        ffmpeg_args_before_input(true),
        vec!["-loglevel", "error", "-nostdin", "-re", "-stream_loop", "-1", "-i"]
    );
    assert_eq!(ffmpeg_args_before_input(false), vec!["-loglevel", "error", "-nostdin", "-re", "-i"]);
    assert_eq!(ffmpeg_args_after_input().len(), 8);
    assert_eq!(frame_size(320, 240), 307200);
}
