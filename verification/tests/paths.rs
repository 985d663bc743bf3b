use ai::paths::{
    config_search_paths, install_prefix, join_path, parent_dir, user_config_path, PathStyle,
};
use std::cell::RefCell;

const CONFIG_DIR: &str = "/home/user/.config";

#[test]
fn returns_at_least_two_paths() {
    let paths = config_search_paths(PathStyle::Unix, None, Some(CONFIG_DIR));
    assert!(
        paths.len() >= 2,
        "expected at least 2 paths, got {}",
        paths.len()
    );
}

#[test]
fn first_path_is_etc() {
    let paths = config_search_paths(PathStyle::Unix, None, Some(CONFIG_DIR));
    assert_eq!(paths[0], "/etc/ai/config.toml");
}

#[test]
fn last_path_is_user_config() {
    let paths = config_search_paths(PathStyle::Unix, Some("/opt/ai"), Some(CONFIG_DIR));
    let last = paths.last().unwrap();
    assert!(
        last.ends_with("ai/config.toml"),
        "unexpected last path: {:?}",
        last
    );
    assert!(
        !last.starts_with("/etc"),
        "last path should be user config, not /etc"
    );
    assert_eq!(*last, user_config_path(PathStyle::Unix, Some(CONFIG_DIR)));
}

#[test]
fn all_search_paths() {
    assert_eq!(
        config_search_paths(PathStyle::Unix, Some("/opt/ai"), Some(CONFIG_DIR)),
        vec![
            "/etc/ai/config.toml",
            "/opt/ai/etc/ai/config.toml",
            "/home/user/.config/ai/config.toml",
        ]
    );
    assert_eq!(config_search_paths(PathStyle::Unix, None, None), vec!["/etc/ai/config.toml"]);
    assert_eq!(
        config_search_paths(PathStyle::Unix, Some("/"), None),
        vec!["/etc/ai/config.toml", "/etc/ai/config.toml"]
    );
}

#[test]
fn user_config_without_a_directory() {
    assert_eq!(user_config_path(PathStyle::Unix, None), "./ai/config.toml");
    assert_eq!(user_config_path(PathStyle::Unix, Some("/c")), "/c/ai/config.toml");
}

#[test]
fn parents_are_those_of_std() {
    for path in ["/opt/ai/bin/ai", "/opt", "/", "", "ai", "bin/ai"] {
        assert_eq!(
            parent_dir(PathStyle::Unix, path),
            std::path::Path::new(path)
                .parent()
                .map(|dir| dir.to_str().unwrap().to_string()),
            "{path:?}"
        );
    }
    assert_eq!(parent_dir(PathStyle::Unix, "/opt/ai"), Some("/opt".to_string()));
}

#[test]
fn joined_paths_are_those_of_std() {
    for dir in ["/opt/ai", "/", "", ".", "a/b", "/a/"] {
        assert_eq!(
            join_path(PathStyle::Unix, dir, "bin"),
            std::path::Path::new(dir).join("bin").to_str().unwrap(),
            "{dir:?}"
        );
    }
    assert_eq!(join_path(PathStyle::Unix, "/opt", "bin"), "/opt/bin");
}

#[test]
fn prefix_is_the_nearest_directory_with_the_program() {
    let asked = RefCell::new(Vec::new());
    let found = install_prefix(PathStyle::Unix, "/opt/ai/bin/ai", |path: &str| {
        asked.borrow_mut().push(path.to_string());
        path == "/opt/ai/bin/ai" || path == "/bin/ai"
    });
    assert_eq!(found, Some("/opt/ai".to_string()));
    assert_eq!(*asked.borrow(), vec!["/opt/ai/bin/bin/ai", "/opt/ai/bin/ai"]);
}

#[test]
fn prefix_may_be_the_root() {
    assert_eq!(
        install_prefix(PathStyle::Unix, "/bin/ai", |path: &str| path == "/bin/ai"),
        Some("/".to_string())
    );
}

#[test]
fn no_prefix() {
    let asked = RefCell::new(Vec::new());
    let found = install_prefix(PathStyle::Unix, "/tmp/build/ai", |path: &str| {
        asked.borrow_mut().push(path.to_string());
        false
    });
    assert_eq!(found, None);
    assert_eq!(*asked.borrow(), vec!["/tmp/build/bin/ai", "/tmp/bin/ai", "/bin/ai"]);
}

#[test]
fn backslash_is_no_separator_on_unix() {
    assert_eq!(parent_dir(PathStyle::Unix, r"C:\opt\ai"), Some(String::new()));
    assert_eq!(parent_dir(PathStyle::Unix, r"/a\b/ai"), Some(r"/a\b".to_string()));
    assert_eq!(join_path(PathStyle::Unix, r"/a\", "ai"), r"/a\/ai");
    assert_eq!(join_path(PathStyle::Unix, "C:", "ai"), "C:/ai");
}

#[test]
fn parents_on_windows() {
    for (path, dir) in [
        (r"C:\opt\bin\ai", Some(r"C:\opt\bin")),
        (r"C:\opt", Some(r"C:\")),
        (r"C:\", None),
        (r"C:ai", Some("C:")),
        ("C:", None),
        (r"c:/opt/bin", Some("c:/opt")),
        (r"\opt\bin", Some(r"\opt")),
        (r"\opt", Some(r"\")),
        (r"\", None),
        ("", None),
        ("ai", Some("")),
        (r"bin\ai", Some("bin")),
        (r"1:\opt", Some("1:")),
        (r"\\?\C:\opt\ai", Some(r"\\?\C:\opt")),
        (r"\\?\C:\opt", Some(r"\\?\C:\")),
        (r"\\?\C:\", None),
        (r"\\?\UNC\server\share\opt\ai", Some(r"\\?\UNC\server\share\opt")),
        (r"\\?\UNC\server\share\opt", Some(r"\\?\UNC\server\share\")),
        (r"\\?\UNC\server\share\", None),
        (r"\\server\share\opt\ai", Some(r"\\server\share\opt")),
        (r"\\server\share\opt", Some(r"\\server\share\")),
        (r"\\server\share", None),
        (r"\\.\device\opt", Some(r"\\.\device\")),
    ] {
        assert_eq!(
            parent_dir(PathStyle::Windows, path).as_deref(),
            dir,
            "{path:?}"
        );
    }
}

#[test]
fn joined_paths_on_windows() {
    for (dir, path) in [
        (r"C:\opt", r"C:\opt\bin"),
        (r"C:\", r"C:\bin"),
        ("C:", "C:bin"),
        ("C:/", "C:/bin"),
        ("", "bin"),
        (".", r".\bin"),
        (r"\\?\C:\opt", r"\\?\C:\opt\bin"),
        (r"\\server\share", r"\\server\share\bin"),
    ] {
        assert_eq!(join_path(PathStyle::Windows, dir, "bin"), path, "{dir:?}");
    }
}

#[test]
fn file_is_in_the_directory_that_its_path_was_made_from() {
    for dir in [r"C:\opt", r"C:\", "C:", "", r"\", r"\\?\C:\", r"\\?\UNC\server\share\opt"] {
        let path = join_path(PathStyle::Windows, dir, "ai");
        assert_eq!(parent_dir(PathStyle::Windows, &path).as_deref(), Some(dir));
    }
}

#[test]
fn search_paths_on_windows() {
    assert_eq!(
        config_search_paths(
            PathStyle::Windows,
            Some(r"C:\opt"),
            Some(r"C:\Users\user\AppData\Roaming")
        ),
        vec![
            "/etc/ai/config.toml",
            r"C:\opt\etc\ai\config.toml",
            r"C:\Users\user\AppData\Roaming\ai\config.toml",
        ]
    );
    assert_eq!(user_config_path(PathStyle::Windows, None), r".\ai\config.toml");
}

#[test]
fn prefix_on_windows() {
    let asked = RefCell::new(Vec::new());
    let found = install_prefix(PathStyle::Windows, r"\\?\C:\opt\bin\ai", |path: &str| {
        asked.borrow_mut().push(path.to_string());
        path == r"\\?\C:\opt\bin\ai"
    });
    assert_eq!(found, Some(r"\\?\C:\opt".to_string()));
    assert_eq!(
        *asked.borrow(),
        vec![r"\\?\C:\opt\bin\bin\ai", r"\\?\C:\opt\bin\ai"]
    );
    let asked = RefCell::new(Vec::new());
    let found = install_prefix(PathStyle::Windows, r"C:\ai", |path: &str| {
        asked.borrow_mut().push(path.to_string());
        false
    });
    assert_eq!(found, None);
    assert_eq!(*asked.borrow(), vec![r"C:\bin\ai"]);
}
