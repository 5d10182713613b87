use touchhle::frameworks::uikit::ui_touch::{
    cocos_alias_selectors, cocos_should_allow_multitouch, cocos_touch_aliases_enabled,
    group_by_view, is_gl_or_game_view_name, second_finger, should_remap_touch_location_for_view,
    should_use_landscape_touch_remap, touch_mode_name, touch_remap_mode, SecondFinger, State,
    TouchRemapMode, pending_callback, PendingCallback,
};

#[test]
fn finger_down_then_up_leaves_nothing() {
    let mut state = State::new();
    assert_eq!(state.begin_touch(7, 0x100), None);
    assert_eq!(state.touch_for_finger(7), Some(0x100));
    assert_eq!(state.end_touch(7, 0x100), Some(0x100));
    assert_eq!(state.touch_for_finger(7), None);
    assert!(state.current_touches.is_empty());
}

#[test]
fn restarted_finger_hands_back_stale_touch() {
    let mut state = State::new();
    state.begin_touch(1, 0x100);
    assert_eq!(state.cancel_for_gesture(&[0x100]), vec![0x100]);
    assert!(state.is_cancelled(0x100));
    assert_eq!(state.begin_touch(1, 0x200), Some(0x100));
    assert!(!state.is_cancelled(0x100));
    assert_eq!(state.touch_for_finger(1), Some(0x200));
}

#[test]
fn gesture_cancels_each_touch_once() {
    let mut state = State::new();
    state.begin_touch(1, 0x100);
    state.begin_touch(2, 0x200);
    assert_eq!(state.cancel_for_gesture(&[0x100, 0x100]), vec![0x100]);
    assert_eq!(state.cancel_for_gesture(&[0x200, 0x100]), vec![0x200]);
    assert_eq!(state.deliverable(&[0x100, 0x300, 0x200]), vec![0x300]);
    assert_eq!(state.forget_touch(2, 0x200), Some(0x200));
    assert_eq!(state.deliverable(&[0x200]), vec![0x200]);
}

#[test]
fn second_finger_on_single_touch_view() {
    assert_eq!(second_finger(false, false, true, false), SecondFinger::Drop);
    assert_eq!(second_finger(false, false, true, true), SecondFinger::CancelStale);
    assert_eq!(second_finger(true, false, true, false), SecondFinger::Deliver);
    assert_eq!(second_finger(false, true, true, false), SecondFinger::Deliver);
    assert_eq!(second_finger(false, false, false, false), SecondFinger::Deliver);
}

#[test]
fn touches_grouped_by_view_in_order() {
    let groups = group_by_view(&[(1, 10), (2, 20), (3, 10), (4, 30), (5, 20)]);
    assert_eq!(groups, vec![(10, vec![1, 3]), (20, vec![2, 5]), (30, vec![4])]);
    assert!(group_by_view(&[]).is_empty());
}

#[test]
fn game_view_names() {
    assert!(is_gl_or_game_view_name("EAGLView"));
    assert!(is_gl_or_game_view_name("MyEAGLThing"));
    assert!(is_gl_or_game_view_name("UnityAppView"));
    assert!(is_gl_or_game_view_name("GameRootView"));
    assert!(!is_gl_or_game_view_name("UIButton"));
    assert!(!is_gl_or_game_view_name(""));
}

#[test]
fn cocos_alias_switches() {
    assert!(cocos_touch_aliases_enabled(false, false, "CCLayer"));
    assert!(cocos_touch_aliases_enabled(false, false, "MainMenu"));
    assert!(!cocos_touch_aliases_enabled(false, false, "UILabel"));
    assert!(cocos_touch_aliases_enabled(false, true, "UILabel"));
    assert!(!cocos_touch_aliases_enabled(true, true, "CCLayer"));
    assert_eq!(
        cocos_alias_selectors("began"),
        Some(("ccTouchesBegan:withEvent:", "ccTouchBegan:withEvent:"))
    );
    assert_eq!(
        cocos_alias_selectors("cancelled"),
        Some(("ccTouchesCancelled:withEvent:", "ccTouchCancelled:withEvent:"))
    );
    assert_eq!(cocos_alias_selectors("stationary"), None);
}

#[test]
fn landscape_remap_choices() {
    assert!(should_use_landscape_touch_remap("at.source.potpan", false));
    assert!(!should_use_landscape_touch_remap("at.source.tomzom", true));
    assert!(should_use_landscape_touch_remap("com.robtop.geometryjump", true));
    assert!(!should_use_landscape_touch_remap("com.robtop.geometryjump", false));
    assert!(should_remap_touch_location_for_view(true, false, "CCGLView"));
    assert!(!should_remap_touch_location_for_view(true, true, "CCGLView"));
    assert!(!should_remap_touch_location_for_view(false, false, "CCGLView"));
    assert!(!cocos_should_allow_multitouch(true, true, "CCGLView"));
    assert!(cocos_should_allow_multitouch(false, true, "UIView"));
    assert!(!cocos_should_allow_multitouch(false, false, "UIView"));
}

#[test]
fn touch_mode_names_and_modes() {
    assert_eq!(touch_mode_name(Some("left"), "at.source.potpan", Some("right"), None, None), "left");
    assert_eq!(touch_mode_name(None, "at.source.potpan", Some("right"), None, None), "scale");
    assert_eq!(touch_mode_name(None, "com.example", None, Some("flip-y"), Some("left")), "flip-y");
    assert_eq!(touch_mode_name(None, "com.example", None, None, Some("left")), "left");
    assert_eq!(touch_mode_name(None, "com.example", None, None, None), "scale");
    assert_eq!(touch_remap_mode("none"), TouchRemapMode::Identity);
    assert_eq!(touch_remap_mode("identity"), TouchRemapMode::Identity);
    assert_eq!(touch_remap_mode("right-flip-x"), TouchRemapMode::RightFlipX);
    assert_eq!(touch_remap_mode("scale-1024x768"), TouchRemapMode::Scale1024x768);
    assert_eq!(touch_remap_mode("scale-480x320"), TouchRemapMode::Scale);
    assert_eq!(touch_remap_mode("sideways"), TouchRemapMode::Scale);
}

#[test]
fn pending_callbacks_drain_on_their_screen() {
    let game = "com.apprisetec9.minionjump";
    assert_eq!(pending_callback("com.example", Some(1), Some(2), None, Some("go:"), false), PendingCallback::Keep);
    assert_eq!(pending_callback(game, None, Some(2), None, Some("go:"), false), PendingCallback::Keep);
    assert_eq!(pending_callback(game, Some(1), Some(2), None, Some("selectLVAction:"), false), PendingCallback::Keep);
    assert_eq!(pending_callback(game, Some(0), Some(2), None, Some("go:"), false), PendingCallback::Discard);
    assert_eq!(
        pending_callback(game, Some(0x100), Some(0x200), Some(0x300), Some("selectLVAction:"), true),
        PendingCallback::Send { target: 0x100, selector: 0x200, sender: 0x300, with_sender: true }
    );
    assert_eq!(
        pending_callback("com.risinghighapps.kingdomprincepro", Some(0x100), Some(0x200), None, None, false),
        PendingCallback::Send { target: 0x100, selector: 0x200, sender: 0, with_sender: false }
    );
}
