use touchhle::gles::gles1_on_gles2_fixes::{rotation_fix_mode_from, RotationFixMode};
use touchhle::gles::wgpu::describe;
use touchhle::gles::{gles1_plan, GLESImplementation, Gles1Plan};

#[test]
fn gles_implementation_short_names() {
    assert_eq!(GLESImplementation::from_short_name("gles1_on_gles2"), Ok(GLESImplementation::GLES1OnGLES2));
    assert_eq!(GLESImplementation::from_short_name("software-rendering"), Ok(GLESImplementation::Software));
    assert_eq!(GLESImplementation::from_short_name("GLES1_NATIVE"), Err(()));
}

#[test]
fn gles1_plan_prefers_configured_implementation() {
    assert_eq!(gles1_plan(true, false, None), Gles1Plan::BuiltInSoftware);
    assert_eq!(
        gles1_plan(true, true, None),
        Gles1Plan::TryInOrder(vec![GLESImplementation::GLES1Native, GLESImplementation::GLES1OnGL2])
    );
    assert_eq!(
        gles1_plan(false, false, Some(GLESImplementation::GLES1OnGLES3)),
        Gles1Plan::TryInOrder(vec![GLESImplementation::GLES1OnGLES3])
    );
}

#[test]
fn rotation_fix_mode_ignores_ascii_case() {
    assert_eq!(rotation_fix_mode_from(Some("CW")), RotationFixMode::Clockwise);
    assert_eq!(rotation_fix_mode_from(Some("Counter-Clockwise")), RotationFixMode::CounterClockwise);
    assert_eq!(rotation_fix_mode_from(Some("ccw")), RotationFixMode::CounterClockwise);
    assert_eq!(rotation_fix_mode_from(Some("sideways")), RotationFixMode::Off);
    assert_eq!(rotation_fix_mode_from(None), RotationFixMode::Off);
    assert_eq!(RotationFixMode::CounterClockwise.as_str(), "counter-clockwise");
    assert_eq!(RotationFixMode::Off.as_str(), "none");
}

#[test]
fn wgpu_backend_describes_itself() {
    assert!(describe().starts_with("WGPU host presentation backend"));
}
