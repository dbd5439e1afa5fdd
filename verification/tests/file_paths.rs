use pi_web::file::paths::{
    encode_file_path_for_api, get_file_directory, get_file_name, get_relative_file_path,
    join_file_path, normalize_file_path_slashes, url_encode_component,
};

#[test]
fn normalize_backslashes() {
    assert_eq!(normalize_file_path_slashes(r"C:\Users\test"), "C:/Users/test");
    assert_eq!(normalize_file_path_slashes("/unix/path"), "/unix/path");
}

#[test]
fn normalize_only_windows_paths() {
    assert_eq!(normalize_file_path_slashes(r"\\server\share"), "//server/share");
    assert_eq!(normalize_file_path_slashes(r"dir\file"), r"dir\file");
    assert_eq!(normalize_file_path_slashes(r"1:\x"), r"1:\x");
}

#[test]
fn file_name() {
    assert_eq!(get_file_name("/a/b/c.rs"), "c.rs");
    assert_eq!(get_file_name("trailing/"), "trailing");
}

#[test]
fn file_directory() {
    assert_eq!(get_file_directory("/a/b/c.rs"), "/a/b");
    assert_eq!(get_file_directory("c.rs"), "");
    assert_eq!(get_file_directory("/root"), "/");
}

#[test]
fn file_directory_drive_root() {
    assert_eq!(get_file_directory(r"C:\file.txt"), "C:/");
    assert_eq!(get_file_directory(r"C:\dir\file.txt"), "C:/dir");
}

#[test]
fn relative_path() {
    assert_eq!(get_relative_file_path("/a/b/c.rs", Some("/a/b")), "c.rs");
    assert_eq!(get_relative_file_path("/a/b/c.rs", None), "/a/b/c.rs");
}

#[test]
fn relative_path_outside_cwd() {
    assert_eq!(get_relative_file_path("/a/bc/d.rs", Some("/a/b/")), "/a/bc/d.rs");
    assert_eq!(get_relative_file_path("/a/b/c.rs", Some("/a/b/")), "c.rs");
}

#[test]
fn join_path() {
    assert_eq!(join_file_path("/a/b", "c.rs"), "/a/b/c.rs");
    assert_eq!(join_file_path("/a/b/", "c.rs"), "/a/b/c.rs");
}

#[test]
fn encode_for_api() {
    assert_eq!(encode_file_path_for_api("/a b/c#d.rs"), "a%20b/c%23d.rs");
    assert_eq!(encode_file_path_for_api(r"C:\x\é"), "C%3A/x/%C3%A9");
    assert_eq!(encode_file_path_for_api("//"), "");
    assert_eq!(url_encode_component("a-_.!~*'()z"), "a-_.!~*'()z");
}
