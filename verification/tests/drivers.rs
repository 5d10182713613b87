use touchhle::gles::drivers::{
    angle_default_libraries, angle_libraries, angle_paths_usable, best_match, driver_source,
    egl_library_names, gles_library_names, library_rank, quality_options, safe_driver_stem,
    trace_line, use_named_file, AngleLibraries, DriverSource, HostOs, TraceLine,
};
use touchhle::gles::{gles2_backends, gles3_backends, ContextBackend};

fn path(parts: &[&str]) -> Vec<Vec<u8>> {
    parts.iter().map(|p| p.as_bytes().to_vec()).collect()
}

#[test]
fn quality_settings_are_clamped() {
    assert_eq!(quality_options(0, 0, 9), (1, 1, 2));
    assert_eq!(quality_options(9, 9, 1), (4, 8, 1));
    assert_eq!(quality_options(2, 4, 0), (2, 4, 0));
}

#[test]
fn translator_trace_stops_after_512_events() {
    assert_eq!(trace_line(0), TraceLine::Event(1));
    assert_eq!(trace_line(511), TraceLine::Event(512));
    assert_eq!(trace_line(512), TraceLine::Suppressed);
    assert_eq!(trace_line(513), TraceLine::Silent);
}

#[test]
fn libraries_rank_by_name_without_case() {
    let egl = egl_library_names();
    assert_eq!(library_rank("LIBEGL.SO", &egl), Some(0));
    assert_eq!(library_rank("libEGL_mesa.so", &egl), Some(4));
    assert_eq!(library_rank("libGLESv2.so", &egl), None);
    let gles = gles_library_names();
    assert_eq!(library_rank("libGLESv3.so", &gles), Some(5));
}

#[test]
fn best_library_is_first_by_rank_then_path() {
    let matches = vec![
        (2, path(&["/", "d", "b", "libEGL_adreno.so"])),
        (0, path(&["/", "d", "z", "libEGL.so"])),
        (0, path(&["/", "d", "a-b", "libEGL.so"])),
        (0, path(&["/", "d", "a", "x", "libEGL.so"])),
    ];
    // Component by component, "a" comes before "a-b".
    assert_eq!(best_match(&matches), Some(3));
    assert_eq!(best_match(&vec![]), None);
    let tie = vec![(1, path(&["/", "x"])), (1, path(&["/", "x"]))];
    assert_eq!(best_match(&tie), Some(0));
}

#[test]
fn archive_names_become_safe_directory_names() {
    let stem: Vec<char> = "Adreno 740 (v1)_é-x".chars().collect();
    let safe: String = safe_driver_stem(&stem).into_iter().collect();
    assert_eq!(safe, "Adreno_740__v1___-x");
}

#[test]
fn driver_locations() {
    assert_eq!(driver_source(true, false, true), DriverSource::Archive);
    assert_eq!(driver_source(false, true, false), DriverSource::Directory);
    assert_eq!(driver_source(false, false, true), DriverSource::FileParent);
    assert_eq!(driver_source(false, false, false), DriverSource::Missing);
    assert!(use_named_file(true, None));
    assert!(use_named_file(true, Some("SO")));
    assert!(use_named_file(true, Some("dylib")));
    assert!(!use_named_file(true, Some("zip")));
    assert!(!use_named_file(false, None));
}

#[test]
fn angle_choices() {
    assert_eq!(angle_libraries(true, true), AngleLibraries::Override);
    assert_eq!(angle_libraries(true, false), AngleLibraries::IncompleteOverride);
    assert_eq!(angle_libraries(false, false), AngleLibraries::Search);
    assert_eq!(angle_default_libraries(HostOs::Windows), ("libEGL.dll", "libGLESv2.dll"));
    assert_eq!(angle_default_libraries(HostOs::Other), ("libEGL.so", "libGLESv2.so"));
    assert!(angle_paths_usable(false, HostOs::Other, false, false));
    assert!(!angle_paths_usable(false, HostOs::Android, true, false));
    assert!(!angle_paths_usable(true, HostOs::MacOs, false, true));
}

#[test]
fn context_backend_order() {
    assert_eq!(
        gles2_backends(),
        vec![ContextBackend::GLES2Native, ContextBackend::GLES2OnGL3, ContextBackend::GLES1OnGL2]
    );
    assert_eq!(gles3_backends(), vec![ContextBackend::GLES3Native, ContextBackend::GLES3OnGL3]);
}
