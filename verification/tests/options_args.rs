use touchhle::gles::GLESImplementation;
use touchhle::options::argument::{
    parse_argument, DegreeOption, DeviceFamily, DeviceOrientation, OptionArg,
};
use touchhle::options::{Arm64Backend, Button, GraphicsApi};

fn err(arg: &str) -> String {
    match parse_argument(arg) {
        Err(e) => e,
        Ok(a) => panic!("{arg} was accepted as {a:?}"),
    }
}

fn opt(arg: &str) -> OptionArg {
    match parse_argument(arg) {
        Ok(Some(a)) => a,
        other => panic!("{arg} gave {other:?}"),
    }
}

#[test]
fn unknown_arguments_name_no_option() {
    for arg in ["", "--fullscreen=1", "--bogus", "fullscreen", "--dump", "--gles1"] {
        assert!(matches!(parse_argument(arg), Ok(None)), "{arg}");
    }
}

#[test]
fn switches_name_their_options() {
    assert!(matches!(opt("--fullscreen"), OptionArg::Fullscreen));
    assert!(matches!(
        opt("--landscape-left"),
        OptionArg::Orientation(DeviceOrientation::LandscapeLeft)
    ));
    assert!(matches!(
        opt("--upside-down"),
        OptionArg::Orientation(DeviceOrientation::PortraitUpsideDown)
    ));
    assert!(matches!(opt("--software-rendering"), OptionArg::SoftwareRendering(true)));
    assert!(matches!(
        opt("--disable-software-rendering"),
        OptionArg::SoftwareRendering(false)
    ));
    assert!(matches!(opt("--frame-generation=on"), OptionArg::FrameGeneration(true)));
    assert!(matches!(opt("--frame-generation=off"), OptionArg::FrameGeneration(false)));
    assert!(matches!(opt("--force-32-bit"), OptionArg::Force32Bit));
    assert!(matches!(opt("--disable-trace-gl-errors"), OptionArg::TraceGlErrors(false)));
}

#[test]
fn device_family_values() {
    assert!(matches!(opt("--device-family=auto"), OptionArg::DeviceFamily(None)));
    assert!(matches!(
        opt("--device-family=ipad"),
        OptionArg::DeviceFamily(Some(DeviceFamily::iPad))
    ));
    assert_eq!(err("--device-family=iPod"), "Invalid device family");
}

#[test]
fn ios_version_values() {
    assert!(matches!(opt("--ios-version=3.1"), OptionArg::IosVersion((3, 1, 0))));
    assert!(matches!(opt("--ios-version=4.2.1"), OptionArg::IosVersion((4, 2, 1))));
    assert_eq!(err("--ios-version=4"), "--ios-version= requires MAJOR.MINOR[.PATCH]");
    assert_eq!(err("--ios-version=x.1"), "Invalid major version for --ios-version=");
    assert_eq!(err("--ios-version=4.y"), "Invalid minor version for --ios-version=");
    assert_eq!(err("--ios-version=4.1.z"), "Invalid patch version for --ios-version=");
    assert_eq!(err("--ios-version=4.1.2.3"), "Invalid value for --ios-version=");
    assert_eq!(err("--ios-version=0.1"), "Invalid value for --ios-version=");
}

#[test]
fn screen_size_values() {
    assert!(matches!(opt("--screen-size=480x320"), OptionArg::ScreenSize((480, 320))));
    assert!(matches!(opt("--screen-size= 1024 , 768 "), OptionArg::ScreenSize((1024, 768))));
    assert_eq!(err("--screen-size=480"), "--screen-size= requires WIDTHxHEIGHT");
    assert_eq!(err("--screen-size=ax320"), "Invalid width for --screen-size=");
    assert_eq!(err("--screen-size=480Xb"), "Invalid height for --screen-size=");
    assert_eq!(err("--screen-size=0x320"), "--screen-size= dimensions must be non-zero");
}

#[test]
fn options_with_decimal_values_keep_their_text() {
    match opt("--x-tilt-range=45.5") {
        OptionArg::Degrees(DegreeOption::XTiltRange, text) => assert_eq!(text, "45.5"),
        other => panic!("{other:?}"),
    }
    match opt("--button-to-touch=A,10,20.5") {
        OptionArg::ButtonToTouch(Button::A, x, y) => {
            assert_eq!(x, "10");
            assert_eq!(y, "20.5");
        }
        other => panic!("{other:?}"),
    }
    assert_eq!(err("--button-to-touch=A,10"), "--button-to-touch= requires three values");
    assert_eq!(err("--button-to-touch=Z,1,2"), "Invalid button for --button-to-touch=");
    assert_eq!(
        err("--stabilize-virtual-cursor=0.5"),
        "--stabilize-virtual-cursor= requires two values"
    );
    assert!(matches!(opt("--fps-limit=off"), OptionArg::FpsLimit(None)));
    match opt("--fps-limit=30") {
        OptionArg::FpsLimit(Some(text)) => assert_eq!(text, "30"),
        other => panic!("{other:?}"),
    }
}

#[test]
fn quality_values() {
    assert!(matches!(opt("--anisotropic-filtering=16"), OptionArg::AnisotropicFiltering(16)));
    assert!(matches!(opt("--texture-upscaler=3"), OptionArg::TextureUpscaler(3)));
    assert_eq!(err("--anti-aliasing=3"), "Invalid value for --anti-aliasing=");
    assert_eq!(err("--texture-upscaler=x"), "Invalid value for --texture-upscaler=");
    assert_eq!(err("--anisotropic-filtering=256"), "Invalid value for --anisotropic-filtering=");
}

#[test]
fn engine_values() {
    assert!(matches!(opt("--gles1=gles1_on_gles2"), OptionArg::Gles1(GLESImplementation::GLES1OnGLES2)));
    assert_eq!(err("--gles1=foo"), "Unrecognized --gles1= value");
    assert_eq!(err("--graphics-api=foo"), "Unrecognized --graphics-api= value");
    assert_eq!(
        err("--graphics-api=software"),
        "Software rendering is controlled by --software-rendering"
    );
    assert!(matches!(opt("--graphics-api=metal"), OptionArg::Graphics(GraphicsApi::Metal)));
    assert!(matches!(opt("--arm64-backend=jit"), OptionArg::Backend(Arm64Backend::Jit)));
    assert!(matches!(opt("--zero-stack-after-guest-to-host-call=64"), OptionArg::ZeroStack(64)));
    assert_eq!(
        err("--zero-stack-after-guest-to-host-call=-1"),
        "Invalid value for --zero-stack-after-guest-to-host-call="
    );
    match opt("--preferred-languages=en,fr") {
        OptionArg::PreferredLanguages(v) => assert_eq!(v, vec!["en".to_string(), "fr".to_string()]),
        other => panic!("{other:?}"),
    }
    match opt("--dump=linking-info") {
        OptionArg::Dump(d) => assert!(d.linking_info && !d.symbols),
        other => panic!("{other:?}"),
    }
}
