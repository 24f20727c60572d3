use mlg::config::{config_path, directory_entry, output_file};

#[test]
fn settings_file_of_each_system() {
    assert_eq!(
        config_path("/home/ada", "linux"),
        Some(String::from("/home/ada/.config/mlg/config.txt"))
    );
    assert_eq!(
        config_path("C:\\Users\\ada\\AppData", "windows"),
        Some(String::from("C:\\Users\\ada\\AppData\\Roaming\\mlg\\config.txt"))
    );
    assert_eq!(config_path("/Users/ada", "macos"), None);
    assert_eq!(config_path("/home/ada", ""), None);
}

#[test]
fn directory_is_closed_by_a_separator() {
    assert_eq!(directory_entry("/tmp/out", "linux"), Some(String::from("/tmp/out/")));
    assert_eq!(directory_entry("/tmp/out/", "linux"), Some(String::from("/tmp/out/")));
    assert_eq!(directory_entry("C:\\out", "windows"), Some(String::from("C:\\out\\")));
    assert_eq!(directory_entry("C:\\out\\", "windows"), Some(String::from("C:\\out\\")));
    assert_eq!(directory_entry("C:\\out/", "windows"), Some(String::from("C:\\out/\\")));
    assert_eq!(directory_entry("", "linux"), Some(String::from("/")));
    assert_eq!(directory_entry("/tmp/out", "freebsd"), None);
}

#[test]
fn output_file_is_named_after_the_song() {
    assert_eq!(output_file("/tmp/out/", "tune"), "/tmp/out/tune.wav");
    assert_eq!(output_file("", ""), ".wav");
}
