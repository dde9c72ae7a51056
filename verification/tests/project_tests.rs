use capcut_transcript::json::Json;
use capcut_transcript::project::{
    canonical_project_path, get_capcut_projects_path, load_draft_file, project_from_directory,
    read_capcut_project, read_project_directories, root_variable, scan_capcut_projects, starts_with,
    child_of, DirectoryProbe, DraftFile, HostOs, PathModel, PathPart, RootListing, RootProbe,
    ScanError, ScannedEntry,
};

fn probe(name: &str, info_is_file: bool, modified: Option<u64>) -> DirectoryProbe {
    DirectoryProbe {
        path: format!("/root/{}", name),
        folder_name: Some(name.to_string()),
        info_path: format!("/root/{}/draft_info.json", name),
        info_is_file,
        modified_timestamp: modified,
    }
}

fn path(names: &[&str]) -> PathModel {
    let mut parts = vec![PathPart::Anchor("/".to_string())];
    for n in names {
        parts.push(PathPart::Name(n.to_string()));
    }
    PathModel { parts }
}

#[test]
fn a_folder_with_draft_info_is_a_project() {
    let p = project_from_directory(probe("0A1B", true, Some(1234))).unwrap();
    assert_eq!(p.id, "0A1B");
    assert_eq!(p.folder_name, "0A1B");
    assert_eq!(p.path, "/root/0A1B");
    assert_eq!(p.info_path, "/root/0A1B/draft_info.json");
    assert_eq!(p.modified_at, "1234");
    assert_eq!(p.modified_timestamp, Some(1234));
    assert!(p.valid);
    let p = project_from_directory(probe("x", true, None)).unwrap();
    assert_eq!(p.modified_at, "-");
}

#[test]
fn folders_without_draft_info_or_name_are_skipped() {
    assert!(project_from_directory(probe("x", false, Some(1))).is_none());
    let mut d = probe("x", true, Some(1));
    d.folder_name = None;
    assert!(project_from_directory(d).is_none());
}

#[test]
fn projects_are_listed_newest_first() {
    let entries = vec![
        ScannedEntry::Directory(probe("old", true, Some(10))),
        ScannedEntry::Unreadable,
        ScannedEntry::Directory(probe("undated", true, None)),
        ScannedEntry::NotDirectory,
        ScannedEntry::Directory(probe("new", true, Some(30))),
        ScannedEntry::Directory(probe("notproject", false, Some(99))),
        ScannedEntry::Directory(probe("new2", true, Some(30))),
        ScannedEntry::Directory(probe("undated2", true, None)),
    ];
    let (projects, scanned) = read_project_directories(entries);
    assert_eq!(scanned, 6);
    let names: Vec<&str> = projects.iter().map(|p| p.folder_name.as_str()).collect();
    assert_eq!(names, vec!["new", "new2", "old", "undated", "undated2"]);
}

#[test]
fn scan_reports_missing_and_unreadable_roots() {
    let err = scan_capcut_projects("/r".to_string(), RootListing::Missing).unwrap_err();
    assert_eq!(err.message, "Folder project CapCut tidak ditemukan pada komputer ini.");
    assert_eq!(err.root_path, Some("/r".to_string()));
    let err = scan_capcut_projects("/r".to_string(), RootListing::Unreadable).unwrap_err();
    assert_eq!(err.message, "Direktori project CapCut tidak dapat dibaca.");
    let (result, count) = scan_capcut_projects(
        "/r".to_string(),
        RootListing::Entries(vec![ScannedEntry::Directory(probe("a", true, Some(1)))]),
    )
    .unwrap();
    assert_eq!(result.root_path, "/r");
    assert_eq!(result.projects.len(), 1);
    assert_eq!(count, 1);
}

#[test]
fn root_location_per_system() {
    assert_eq!(root_variable(HostOs::MacOs), Some("HOME"));
    assert_eq!(root_variable(HostOs::Windows), Some("LOCALAPPDATA"));
    assert_eq!(root_variable(HostOs::Other), None);
    assert_eq!(
        get_capcut_projects_path(HostOs::MacOs, true).unwrap(),
        vec!["Movies", "CapCut", "User Data", "Projects", "com.lveditor.draft"]
    );
    assert_eq!(
        get_capcut_projects_path(HostOs::Windows, true).unwrap(),
        vec!["CapCut", "User Data", "Projects", "com.lveditor.draft"]
    );
    let e = get_capcut_projects_path(HostOs::MacOs, false).unwrap_err();
    assert_eq!(e.message, "Home directory user tidak dapat ditemukan.");
    let e = get_capcut_projects_path(HostOs::Windows, false).unwrap_err();
    assert_eq!(e.message, "LOCALAPPDATA user tidak dapat ditemukan.");
    let e = get_capcut_projects_path(HostOs::Other, true).unwrap_err();
    assert_eq!(e.message, "Sistem operasi ini belum didukung oleh scanner CapCut.");
    assert!(e.root_path.is_none());
}

#[test]
fn path_relations() {
    assert!(starts_with(&path(&["a", "b"]), &path(&["a"])));
    assert!(starts_with(&path(&["a"]), &path(&["a"])));
    assert!(!starts_with(&path(&["ab"]), &path(&["a"])));
    assert!(child_of(&path(&["a", "b"]), &path(&["a"])));
    assert!(!child_of(&path(&["a", "b", "c"]), &path(&["a"])));
    assert!(!child_of(&path(&["a"]), &path(&["a"])));
    let root_only = PathModel { parts: vec![PathPart::Anchor("/".to_string())] };
    assert!(!child_of(&root_only, &PathModel { parts: vec![] }));
}

fn detail(r: Result<PathModel, capcut_transcript::project::ProjectReadError>) -> String {
    let e = r.unwrap_err();
    assert_eq!(e.message, "Tidak dapat membaca project CapCut.");
    e.detail
}

#[test]
fn project_path_must_be_a_direct_child_of_the_root() {
    let root = || RootProbe::Found(path(&["r"]));
    let ok = canonical_project_path(root(), Some(path(&["r", "p"])), true, true).unwrap();
    assert_eq!(ok.parts.len(), 3);
    assert_eq!(
        detail(canonical_project_path(root(), Some(path(&["s", "p"])), true, true)),
        "Path project berada di luar folder CapCut yang diizinkan."
    );
    assert_eq!(
        detail(canonical_project_path(root(), Some(path(&["r", "p", "q"])), true, true)),
        "Path project bukan folder project langsung dari root CapCut."
    );
    assert_eq!(
        detail(canonical_project_path(root(), Some(path(&["r"])), true, true)),
        "Path project bukan folder project langsung dari root CapCut."
    );
    assert_eq!(
        detail(canonical_project_path(root(), Some(path(&["r", "p"])), false, true)),
        "Path project bukan folder."
    );
    assert_eq!(
        detail(canonical_project_path(root(), Some(path(&["r", "p"])), true, false)),
        "draft_info.json tidak ditemukan."
    );
    assert_eq!(
        detail(canonical_project_path(root(), None, true, true)),
        "Folder project tidak ditemukan."
    );
    assert_eq!(
        detail(canonical_project_path(RootProbe::Missing, Some(path(&["r", "p"])), true, true)),
        "Folder root project CapCut tidak ditemukan."
    );
    let unlocated = RootProbe::Unlocated(ScanError { message: "no home".to_string(), root_path: None });
    assert_eq!(detail(canonical_project_path(unlocated, None, true, true)), "no home");
}

#[test]
fn reading_a_project() {
    let info = || load_draft_file(Some("{\"draft\": 1}".to_string()));
    let r = read_capcut_project(true, info(), probe("p", true, Some(5)), true).unwrap();
    assert_eq!(r.project.id, "p");
    assert!(r.has_draft_info);
    assert!(r.has_draft_content);
    let e = read_capcut_project(false, info(), probe("p", true, Some(5)), true).unwrap_err();
    assert_eq!(e.detail, "draft_info.json tidak ditemukan.");
    let e = read_capcut_project(true, DraftFile::Unreadable, probe("p", true, None), false).unwrap_err();
    assert_eq!(e.detail, "draft_info.json tidak dapat dibaca.");
    let e = read_capcut_project(true, load_draft_file(Some("{".to_string())), probe("p", true, None), false)
        .unwrap_err();
    assert_eq!(e.detail, "draft_info.json bukan JSON yang valid.");
    let mut nameless = probe("p", true, None);
    nameless.folder_name = None;
    let e = read_capcut_project(true, DraftFile::Parsed(Json::Null), nameless, false).unwrap_err();
    assert_eq!(e.detail, "Folder project tidak valid.");
    assert_eq!(e.message, "Tidak dapat membaca project CapCut.");
}
