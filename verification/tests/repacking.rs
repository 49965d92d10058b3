use bedrock_repacker::plan::format_package_version;
use bedrock_repacker::repack::{
    archive_arguments, is_directory_output_path, name_for_lowered, package_name, unpack_arguments,
};

#[test]
fn package_is_named_by_the_end_of_its_address() {
    assert_eq!(package_name("https://host/Game.APPX"), "original_package.appx");
    assert_eq!(package_name("https://host/game.msixvc"), "original_package.msixvc");
    assert_eq!(package_name("https://host/game.appx?x=1"), "original_package.msixvc");
    assert_eq!(package_name(""), "original_package.msixvc");
    assert_eq!(name_for_lowered(".appx"), "original_package.appx");
    assert_eq!(name_for_lowered("x.APPX"), "original_package.msixvc");
}

#[test]
fn paths_of_directories_end_with_a_separator() {
    assert!(is_directory_output_path(""));
    assert!(is_directory_output_path("a/b/"));
    assert!(is_directory_output_path("a\\"));
    assert!(!is_directory_output_path("a/b"));
    assert!(!is_directory_output_path("/ä"));
}

#[test]
fn archiver_arguments() {
    assert_eq!(unpack_arguments("p.appx", "/tmp/x"), vec!["x", "p.appx", "-o/tmp/x"]);
    assert_eq!(
        archive_arguments("1000m", "o/bedrock_app.7z", "/tmp/x"),
        vec!["a", "-mx=3", "-v1000m", "o/bedrock_app.7z", "/tmp/x/*"]
    );
}

#[test]
fn version_has_dots() {
    assert_eq!(format_package_version(1, 21, 0, 65535), "1.21.0.65535");
}
