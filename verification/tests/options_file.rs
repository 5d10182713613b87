use touchhle::options::app_file::options_for_app;

fn lines(text: &str) -> Vec<String> {
    text.lines().map(|l| l.to_string()).collect()
}

#[test]
fn the_first_line_for_the_app_gives_its_options() {
    let file = lines("# comment only\n\ncom.example.other: --fullscreen\n  com.example.game : --landscape-left  # why\ncom.example.game: --headless\n");
    assert_eq!(options_for_app(&file, "com.example.game"), Ok(Some("--landscape-left".to_string())));
    assert_eq!(options_for_app(&file, "com.example.other"), Ok(Some("--fullscreen".to_string())));
    assert_eq!(options_for_app(&file, "com.example.none"), Ok(None));
}

#[test]
fn an_app_with_empty_options_has_none() {
    let file = lines("com.example.game:   # nothing\ncom.example.game: --headless");
    assert_eq!(options_for_app(&file, "com.example.game"), Ok(None));
}

#[test]
fn a_line_without_a_colon_is_an_error() {
    let file = lines("# header\n\nnot an entry\ncom.example.game: --fullscreen");
    assert_eq!(
        options_for_app(&file, "com.example.game"),
        Err("Line 3 is not a comment and is missing a colon (:) to separate the app ID from the options".to_string())
    );
    assert_eq!(options_for_app(&[], "com.example.game"), Ok(None));
}
