use gdkit::path::{absolute, join};

#[test]
fn a_relative_piece_stands_behind_its_base() {
    assert_eq!(join(r"D:\game", "out/a.exe"), r"D:\game\out/a.exe");
    assert_eq!(join(r"D:\game\", "a"), r"D:\game\a");
    assert_eq!(join("D:/game/", "a"), "D:/game/a");
    assert_eq!(join("D:", "a"), "D:a");
    assert_eq!(join("", "a"), "a");
    assert_eq!(join("game", ""), r"game\");
    assert_eq!(join(r"D:\game", "../a"), r"D:\game\../a");
}

#[test]
fn a_rooted_piece_keeps_the_prefix_of_its_base() {
    assert_eq!(join(r"D:\game", r"\a"), r"D:\a");
    assert_eq!(join("game", "/a"), "/a");
    assert_eq!(join(r"\\server\share\game", "/a"), r"\\server\share/a");
    assert_eq!(join(r"\\.\COM1\game", r"\a"), r"\\.\COM1\a");
    assert_eq!(join(r"\\.\", r"\a"), r"\\.\\a");
}

#[test]
fn a_piece_with_a_prefix_replaces_its_base() {
    for piece in ["C:", "C:a", "C:/a", r"\\server\share", r"\\.\COM1", r"\\.\", r"\\?\C:\a", r"\\?\"] {
        assert_eq!(join(r"D:\game", piece), piece);
    }
    // No share is named here.
    assert_eq!(join(r"D:\game", r"\\server"), r"D:\\server");
}

#[test]
fn a_verbatim_base_is_walked_through() {
    assert_eq!(join(r"\\?\C:\game", "out/a.exe"), r"\\?\C:\game\out\a.exe");
    assert_eq!(join(r"\\?\C:\game", "../x/./y"), r"\\?\C:\x\y");
    assert_eq!(join(r"\\?\C:\", "../.."), r"\\?\C:\");
    assert_eq!(join(r"\\?\C:\a\..\b", ".."), r"\\?\C:\a\..");
    assert_eq!(join(r"\\?\C:\a\..\b", r"..\.."), r"\\?\C:\a\..");
    assert_eq!(join(r"\\?\C:/game", "a"), r"\\?\C:\game\a");
    assert_eq!(join(r"\\?\C:\a/b", ".."), r"\\?\C:\");
    assert_eq!(join(r"\\?\C:", "a"), r"\\?\C:\a");
    assert_eq!(join(r"\\?\C:\game\\", "a"), r"\\?\C:\game\a");
    assert_eq!(join(r"\\?\C:\game", ""), r"\\?\C:\game\");
    assert_eq!(join(r"\\?\pictures", "a"), r"\\?\pictures\a");
    assert_eq!(join(r"\\?\pictures", "."), r"\\?\pictures");
    // In slashes it is the name of a share.
    assert_eq!(join("//?/C:/game", "a/b"), r"//?/C:/game\a/b");
}

#[test]
fn a_rooted_piece_keeps_a_verbatim_prefix() {
    assert_eq!(join(r"\\?\C:\game", "/a"), r"\\?\C:\a");
    assert_eq!(join(r"\\?\UNC\server\share\game", r"\a/b"), r"\\?\UNC\server\share\a\b");
    assert_eq!(join(r"\\?\UNC\server", r"\a"), r"\\?\UNC\server\a");
    assert_eq!(join(r"\\?\C:x\game", r"\a"), r"\\?\C:x\a");
}

#[test]
fn names_stack() {
    for base in ["", "D:", r"D:\", r"\\?", r"\\?\", r"\\?\UNC", r"\\?\UNC\s", r"\\?\C:/x\\y\."] {
        let one = join(base, "api");
        assert_eq!(join(&one, "4.7"), format!(r"{one}\4.7"), "{base}");
    }
}

#[test]
fn a_prefix_or_a_rooted_drive_makes_a_path_absolute() {
    for s in ["C:/a", r"C:\", r"\\server\share", r"\\.\COM1", r"\\?\C:", r"\\?\name", r"\\?\"] {
        assert!(absolute(s), "{s}");
    }
    for s in ["", "a", "/a", "C:", "C:a", r"\\server", r"\\server\", "é:/a"] {
        assert!(!absolute(s), "{s}");
    }
}
