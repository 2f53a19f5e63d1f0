use peerlink::files::{
    application_directories, get_file_extension, index_depth, index_entry, is_app_extension,
    is_app_file, normalise_extension, user_directory_names, FileItem, FileSearchDatabase,
    IndexKind,
};
use peerlink::platform::Platform;
use std::path::PathBuf;

fn file(name: &str, modified: u64) -> FileItem {
    FileItem {
        name: name.to_string(),
        path: format!("/home/u/{}", name),
        file_type: String::new(),
        size: 1,
        modified,
        is_app: false,
    }
}

fn app(name: &str) -> FileItem {
    FileItem {
        name: name.to_string(),
        path: format!("/Applications/{}", name),
        file_type: "app".to_string(),
        size: 1,
        modified: 0,
        is_app: true,
    }
}

fn names(items: &[FileItem]) -> Vec<String> {
    items.iter().map(|i| i.name.clone()).collect()
}

#[test]
fn new_index_is_empty() {
    let db = FileSearchDatabase::new();
    assert!(db.files.is_empty());
    assert!(db.apps.is_empty());
    assert_eq!(db.last_indexed, 0);
}

#[test]
fn add_file_sorts_apps_from_files() {
    let mut db = FileSearchDatabase::new();
    db.add_file(file("notes.txt", 1));
    db.add_file(app("Mail.app"));
    db.add_file(file("todo.md", 2));
    assert_eq!(names(&db.files), vec!["notes.txt", "todo.md"]);
    assert_eq!(names(&db.apps), vec!["Mail.app"]);
    assert_eq!(names(&db.get_apps()), vec!["Mail.app"]);
}

#[test]
fn search_ignores_case_and_lists_apps_first() {
    let mut db = FileSearchDatabase::new();
    db.add_file(file("Mailing list.txt", 1));
    db.add_file(file("other.txt", 2));
    db.add_file(app("Mail.app"));
    db.add_file(app("Safari.app"));
    assert_eq!(names(&db.search_files("MAIL")), vec!["Mail.app", "Mailing list.txt"]);
    assert_eq!(names(&db.search_files("ail")), vec!["Mail.app", "Mailing list.txt"]);
    assert!(db.search_files("nothing").is_empty());
    assert_eq!(db.search_files("").len(), 4);
}

#[test]
fn search_returns_at_most_fifty() {
    let mut db = FileSearchDatabase::new();
    for i in 0..30 {
        db.add_file(app(&format!("tool{}.app", i)));
    }
    for i in 0..30 {
        db.add_file(file(&format!("tool{}.txt", i), i));
    }
    let found = db.search_files("tool");
    assert_eq!(found.len(), 50);
    assert_eq!(found[0].name, "tool0.app");
    assert_eq!(found[29].name, "tool29.app");
    assert_eq!(found[30].name, "tool0.txt");
    assert_eq!(found[49].name, "tool19.txt");
}

#[test]
fn recent_files_are_newest_first_and_stable() {
    let mut db = FileSearchDatabase::new();
    db.add_file(file("a", 5));
    db.add_file(file("b", 9));
    db.add_file(file("c", 5));
    db.add_file(file("d", 1));
    db.add_file(file("e", 9));
    assert_eq!(names(&db.get_recent_files()), vec!["b", "e", "a", "c", "d"]);
    assert_eq!(names(&db.files), vec!["a", "b", "c", "d", "e"]);
}

#[test]
fn recent_files_are_at_most_twenty() {
    let mut db = FileSearchDatabase::new();
    for i in 0..25u64 {
        db.add_file(file(&format!("f{}", i), i));
    }
    let recent = db.get_recent_files();
    assert_eq!(recent.len(), 20);
    assert_eq!(recent[0].name, "f24");
    assert_eq!(recent[19].name, "f5");
}

#[test]
fn refresh_replaces_the_index() {
    let mut db = FileSearchDatabase::new();
    db.add_file(file("old", 1));
    db.add_file(app("Old.app"));
    db.refresh(&vec![app("New.app")], &vec![file("new1", 1), file("new2", 2)], 77);
    assert_eq!(names(&db.apps), vec!["New.app"]);
    assert_eq!(names(&db.files), vec!["new1", "new2"]);
    assert_eq!(db.last_indexed, 77);
}

#[test]
fn add_files_adds_each() {
    let mut db = FileSearchDatabase::new();
    db.add_files(&vec![file("x", 1), app("Y.app"), file("z", 2)]);
    assert_eq!(names(&db.files), vec!["x", "z"]);
    assert_eq!(names(&db.apps), vec!["Y.app"]);
}

#[test]
fn file_extension_is_lower_case() {
    assert_eq!(get_file_extension(&PathBuf::from("/tmp/Report.PDF")), "pdf");
    assert_eq!(get_file_extension(&PathBuf::from("archive.tar.gz")), "gz");
    assert_eq!(get_file_extension(&PathBuf::from("/tmp/noext")), "");
    assert_eq!(get_file_extension(&PathBuf::from(".hidden")), "");
    assert_eq!(get_file_extension(&PathBuf::from("Tool.AppImage")), "appimage");
}

#[test]
fn app_files_by_extension() {
    assert!(is_app_file(&PathBuf::from("/Applications/Mail.app")));
    assert!(is_app_file(&PathBuf::from("C:/x/setup.EXE")));
    assert!(is_app_file(&PathBuf::from("installer.msi")));
    assert!(is_app_file(&PathBuf::from("pkg.deb")));
    assert!(is_app_file(&PathBuf::from("pkg.rpm")));
    assert!(!is_app_file(&PathBuf::from("notes.txt")));
    assert!(!is_app_file(&PathBuf::from("app")));
    assert!(!is_app_file(&PathBuf::from("Tool.AppImage")));
}

#[test]
fn app_extensions() {
    for e in ["app", "exe", "msi", "deb", "rpm", "AppImage"] {
        assert!(is_app_extension(e));
    }
    for e in ["", "txt", "appimage", "EXE", "apps"] {
        assert!(!is_app_extension(e));
    }
}

#[test]
fn extension_normalising() {
    assert_eq!(normalise_extension(Some("TXT")), "txt");
    assert_eq!(normalise_extension(Some("")), "");
    assert_eq!(normalise_extension(None), "");
    assert_eq!(normalise_extension(Some("\u{c9}T\u{c9}")), "\u{e9}t\u{e9}");
}

#[test]
fn index_entry_for_applications() {
    let e = index_entry(
        IndexKind::Applications,
        "/Applications/Mail.app",
        Some("Mail.app"),
        Some("APP"),
        false,
        Some((10, 20)),
    )
    .expect("an application");
    assert_eq!(e.name, "Mail.app");
    assert_eq!(e.path, "/Applications/Mail.app");
    assert_eq!(e.file_type, "app");
    assert_eq!(e.size, 10);
    assert_eq!(e.modified, 20);
    assert!(e.is_app);
    assert!(index_entry(IndexKind::Applications, "/a/x.txt", Some("x.txt"), Some("txt"), true, Some((1, 1))).is_none());
    assert!(index_entry(IndexKind::Applications, "/a/x.app", None, Some("app"), true, Some((1, 1))).is_none());
    assert!(index_entry(IndexKind::Applications, "/a/x.app", Some("x.app"), Some("app"), true, None).is_none());
}

#[test]
fn index_entry_for_user_files() {
    let e = index_entry(IndexKind::UserFiles, "/h/a.TXT", Some("a.TXT"), Some("TXT"), true, Some((3, 4)))
        .expect("a file");
    assert_eq!(e.file_type, "txt");
    assert!(!e.is_app);
    let bare = index_entry(IndexKind::UserFiles, "/h/Makefile", Some("Makefile"), None, true, Some((3, 4)))
        .expect("a file");
    assert_eq!(bare.file_type, "");
    assert!(index_entry(IndexKind::UserFiles, "/h/dir.d", Some("dir.d"), Some("d"), false, Some((3, 4))).is_none());
    assert!(index_entry(IndexKind::UserFiles, "/h/x.exe", Some("x.exe"), Some("exe"), true, Some((3, 4))).is_none());
    assert!(index_entry(IndexKind::UserFiles, "/h/a.txt", None, Some("txt"), true, Some((3, 4))).is_none());
    assert!(index_entry(IndexKind::UserFiles, "/h/a.txt", Some("a.txt"), Some("txt"), true, None).is_none());
}

#[test]
fn index_roots_and_depths() {
    assert_eq!(index_depth(IndexKind::Applications), 3);
    assert_eq!(index_depth(IndexKind::UserFiles), 4);
    assert_eq!(
        application_directories(Platform::MacOs),
        vec!["/Applications", "/System/Applications", "/System/Library/CoreServices"]
    );
    assert_eq!(
        application_directories(Platform::Windows),
        vec![
            "C:\\Program Files",
            "C:\\Program Files (x86)",
            "C:\\Users\\%USERNAME%\\AppData\\Local\\Programs"
        ]
    );
    let linux = vec![
        "/usr/share/applications",
        "/usr/local/share/applications",
        "/var/lib/snapd/desktop/applications",
    ];
    assert_eq!(application_directories(Platform::Linux), linux);
    assert_eq!(application_directories(Platform::Other), linux);
    assert_eq!(user_directory_names(), vec!["Documents", "Downloads", "Desktop", "Pictures"]);
}
