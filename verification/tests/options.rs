use touchhle::options::{parse_dump_options, Arm64Backend, Arm64Fallback, DumpingOptions, GraphicsApi};

#[test]
fn arm64_fallback_names_round_trip() {
    for f in [Arm64Fallback::Jit, Arm64Fallback::Interpreter] {
        assert_eq!(Arm64Fallback::parse(f.label()), Ok(f));
    }
    assert_eq!(
        Arm64Fallback::parse("auto"),
        Err("Unknown ARM64 fallback \"auto\"; expected jit or interpreter".to_string())
    );
}

#[test]
fn arm64_backend_names_round_trip() {
    for b in [Arm64Backend::Auto, Arm64Backend::Jit, Arm64Backend::Interpreter] {
        assert_eq!(Arm64Backend::parse(b.label()), Ok(b));
    }
    assert_eq!(
        Arm64Backend::parse("JIT"),
        Err("Unknown ARM64 backend \"JIT\"; expected auto, jit, or interpreter".to_string())
    );
}

#[test]
fn graphics_api_short_names() {
    assert_eq!(GraphicsApi::from_short_name("auto"), Ok(GraphicsApi::Default));
    assert_eq!(GraphicsApi::from_short_name("gles1.1-gles3.0"), Ok(GraphicsApi::TranslatorGLES30));
    assert_eq!(GraphicsApi::from_short_name("cpu"), Ok(GraphicsApi::Software));
    assert_eq!(GraphicsApi::from_short_name("metal"), Ok(GraphicsApi::Metal));
    assert_eq!(GraphicsApi::from_short_name("vulkan"), Err(()));
    assert_eq!(GraphicsApi::default(), GraphicsApi::Default);
    assert_eq!(GraphicsApi::Translator.label(), "OpenGL ES 1.1 → OpenGL ES 2.0 translator");
}

#[test]
fn dump_options_accept_known_names() {
    let d = parse_dump_options("symbols,linking-info").unwrap();
    assert!(d.linking_info && d.symbols && d.any());
    let d = parse_dump_options("symbols").unwrap();
    assert!(!d.linking_info && d.symbols);
    assert!(!DumpingOptions::default().any());
    assert_eq!(
        parse_dump_options("symbols,,x"),
        Err("Unrecognized option  for --dump=...".to_string())
    );
    assert_eq!(
        parse_dump_options("everything"),
        Err("Unrecognized option everything for --dump=...".to_string())
    );
    assert_eq!(
        parse_dump_options(""),
        Err("Unrecognized option  for --dump=...".to_string())
    );
}
