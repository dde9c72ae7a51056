//! CapCut project folders: where the projects root is, which folders are
//! projects, and whether a requested project may be read.

use vstd::prelude::*;
use vstd::string::StringExecFns;
use crate::json::{Json, parse_json, parsed_json};
use crate::sort::{SortKey, lemma_stable_sort_permutes, sort_stable, sorted_by_key, stably_sorted, views};
use crate::text::{format_modified_time, modified_time_text};

verus! {

/// Why the projects could not be listed, with the root folder when it was known.
#[derive(Debug)]
pub struct ScanError {
    pub message: String,
    pub root_path: Option<String>,
}

/// Why a project could not be read: a summary and a detail.
#[derive(Debug)]
pub struct ProjectReadError {
    pub message: String,
    pub detail: String,
}

/// The summary of every failure to read a project.
pub open spec fn read_failed() -> Seq<char> {
    "Tidak dapat membaca project CapCut."@
}

/// An error with the summary `read_failed()` and the given detail.
pub fn read_error(detail: &str) -> (e: ProjectReadError)
    ensures
        e.message@ == read_failed(),
        e.detail@ == detail@,
{
    ProjectReadError {
        message: String::from_str("Tidak dapat membaca project CapCut."),
        detail: String::from_str(detail),
    }
}

/// A project folder found under the projects root.
#[derive(Debug)]
pub struct CapCutProject {
    pub id: String,
    pub folder_name: String,
    pub path: String,
    pub info_path: String,
    pub modified_at: String,
    pub modified_timestamp: Option<u64>,
    pub valid: bool,
}

/// The content of a project record.
pub struct ProjectView {
    pub id: Seq<char>,
    pub folder_name: Seq<char>,
    pub path: Seq<char>,
    pub info_path: Seq<char>,
    pub modified_at: Seq<char>,
    pub modified_timestamp: Option<u64>,
    pub valid: bool,
}

impl View for CapCutProject {
    type V = ProjectView;

    open spec fn view(&self) -> ProjectView {
        ProjectView {
            id: self.id@,
            folder_name: self.folder_name@,
            path: self.path@,
            info_path: self.info_path@,
            modified_at: self.modified_at@,
            modified_timestamp: self.modified_timestamp,
            valid: self.valid,
        }
    }
}

/// The sort key that puts later modification times first and projects
/// without one last.
pub open spec fn recency_key(timestamp: Option<u64>) -> int {
    match timestamp {
        Some(t) => -1 - t,
        None => 0,
    }
}

impl SortKey for CapCutProject {
    open spec fn key_of(v: ProjectView) -> int {
        recency_key(v.modified_timestamp)
    }

    fn sort_key(&self) -> (k: i128) {
        match self.modified_timestamp {
            Some(t) => -1 - (t as i128),
            None => 0,
        }
    }
}

/// What was observed of a folder under the projects root: its path, its
/// last path component, the path of its `draft_info.json`, whether that is a
/// file, and the folder's modification time in milliseconds since the epoch.
pub struct DirectoryProbe {
    pub path: String,
    pub folder_name: Option<String>,
    pub info_path: String,
    pub info_is_file: bool,
    pub modified_timestamp: Option<u64>,
}

/// The project a folder holds: a folder is a project when its
/// `draft_info.json` is a file and it has a name.
pub open spec fn project_view(dir: DirectoryProbe) -> Option<ProjectView> {
    if !dir.info_is_file {
        None
    } else {
        match dir.folder_name {
            None => None,
            Some(name) => Some(
                ProjectView {
                    id: name@,
                    folder_name: name@,
                    path: dir.path@,
                    info_path: dir.info_path@,
                    modified_at: modified_time_text(dir.modified_timestamp),
                    modified_timestamp: dir.modified_timestamp,
                    valid: true,
                },
            ),
        }
    }
}

/// Makes the project record of a folder, when the folder is a project.
pub fn project_from_directory(dir: DirectoryProbe) -> (res: Option<CapCutProject>)
    ensures
        match res {
            Some(p) => project_view(dir) == Some(p@),
            None => project_view(dir) is None,
        },
{
    if !dir.info_is_file {
        return None;
    }
    let folder_name = match dir.folder_name {
        Some(name) => name,
        None => return None,
    };
    let modified_at = format_modified_time(dir.modified_timestamp);
    Some(
        CapCutProject {
            id: folder_name.clone(),
            folder_name,
            path: dir.path,
            info_path: dir.info_path,
            modified_at,
            modified_timestamp: dir.modified_timestamp,
            valid: true,
        },
    )
}

/// An entry of the projects root as it was read.
pub enum ScannedEntry {
    /// The entry or its file type could not be read.
    Unreadable,
    /// The entry is not a folder.
    NotDirectory,
    /// A folder, with what was observed of it.
    Directory(DirectoryProbe),
}

/// The number of folders among the entries.
pub open spec fn directory_count(entries: Seq<ScannedEntry>) -> nat
    decreases entries.len(),
{
    if entries.len() == 0 {
        0
    } else {
        directory_count(entries.drop_first()) + match entries[0] {
            ScannedEntry::Directory(_) => 1nat,
            _ => 0nat,
        }
    }
}

/// The projects held by the folders among the entries, in entry order.
pub open spec fn found_projects(entries: Seq<ScannedEntry>) -> Seq<ProjectView>
    decreases entries.len(),
{
    if entries.len() == 0 {
        seq![]
    } else {
        let rest = found_projects(entries.drop_first());
        match entries[0] {
            ScannedEntry::Directory(dir) => match project_view(dir) {
                Some(p) => seq![p] + rest,
                None => rest,
            },
            _ => rest,
        }
    }
}

/// Law: every project found is one of the folders looked at, so there are
/// never more projects than folders.
pub proof fn lemma_projects_within_folders(entries: Seq<ScannedEntry>)
    ensures
        found_projects(entries).len() <= directory_count(entries),
    decreases entries.len(),
{
    if entries.len() > 0 {
        lemma_projects_within_folders(entries.drop_first());
    }
}

/// `a` is at least as recent as `b`: a known time beats an unknown one.
pub open spec fn at_least_as_recent(a: Option<u64>, b: Option<u64>) -> bool {
    match (a, b) {
        (_, None) => true,
        (None, Some(_)) => false,
        (Some(x), Some(y)) => x >= y,
    }
}

/// Projects ordered by key are ordered from the most recently modified.
pub proof fn lemma_recency_order(projects: Seq<ProjectView>)
    requires
        sorted_by_key::<CapCutProject>(projects),
    ensures
        forall|i: int, j: int|
            0 <= i < j < projects.len() ==> at_least_as_recent(
                #[trigger] projects[i].modified_timestamp,
                #[trigger] projects[j].modified_timestamp,
            ),
{
}

/// Lists the projects among the entries of the projects root, most recently
/// modified first (projects modified at the same time, and those without a
/// time, keep their entry order), with the number of folders looked at.
pub fn read_project_directories(entries: Vec<ScannedEntry>) -> (res: (Vec<CapCutProject>, usize))
    ensures
        res.1 == directory_count(entries@),
        res.0@.len() <= res.1,
        stably_sorted::<CapCutProject>(views(res.0@), found_projects(entries@)),
        forall|i: int, j: int|
            0 <= i < j < res.0@.len() ==> at_least_as_recent(
                #[trigger] res.0@[i].modified_timestamp,
                #[trigger] res.0@[j].modified_timestamp,
            ),
{
    let ghost all = entries@;
    assert(all.len() == entries.len());
    let mut rest = entries;
    let mut projects: Vec<CapCutProject> = Vec::new();
    let mut directories: usize = 0;
    let ghost mut done: int = 0;
    assert(all.skip(0) =~= all);
    while rest.len() > 0
        invariant
            0 <= done <= all.len(),
            all.len() <= usize::MAX,
            rest@ == all.skip(done),
            directories as int + directory_count(all.skip(done)) == directory_count(all),
            views(projects@) + found_projects(all.skip(done)) == found_projects(all),
            directories <= done,
        decreases rest.len(),
    {
        assert(done < all.len());
        let ghost tail = all.skip(done);
        assert(tail.drop_first() =~= all.skip(done + 1));
        let entry = rest.remove(0);
        assert(entry == tail[0]);
        match entry {
            ScannedEntry::Directory(dir) => {
                directories = directories + 1;
                let ghost before = views(projects@);
                if let Some(project) = project_from_directory(dir) {
                    projects.push(project);
                    assert(views(projects@) =~= before.push(project@));
                    assert(before.push(project@) + found_projects(all.skip(done + 1)) =~= before
                        + (seq![project@] + found_projects(all.skip(done + 1))));
                }
            },
            _ => {},
        }
        proof {
            done = done + 1;
        }
    }
    assert(all.skip(done) =~= Seq::<ScannedEntry>::empty());
    assert(views(projects@) + Seq::<ProjectView>::empty() =~= views(projects@));
    let sorted = sort_stable(projects);
    proof {
        lemma_projects_within_folders(all);
        lemma_stable_sort_permutes::<CapCutProject>(views(sorted@), found_projects(all));
        lemma_recency_order(views(sorted@));
        assert forall|i: int, j: int| 0 <= i < j < sorted@.len() implies at_least_as_recent(
            #[trigger] sorted@[i].modified_timestamp,
            #[trigger] sorted@[j].modified_timestamp,
        ) by {
            assert(views(sorted@)[i] == sorted@[i]@);
            assert(views(sorted@)[j] == sorted@[j]@);
        }
    }
    (sorted, directories)
}

} // verus!

verus! {

/// One component of a path: an anchor (a drive prefix or the root) or a name.
#[derive(Debug)]
pub enum PathPart {
    Anchor(String),
    Name(String),
}

impl View for PathPart {
    /// Whether the component is a name, and its text.
    type V = (bool, Seq<char>);

    open spec fn view(&self) -> (bool, Seq<char>) {
        match self {
            PathPart::Anchor(s) => (false, s@),
            PathPart::Name(s) => (true, s@),
        }
    }
}

/// A path as the list of its components.
#[derive(Debug)]
pub struct PathModel {
    pub parts: Vec<PathPart>,
}

impl View for PathModel {
    type V = Seq<(bool, Seq<char>)>;

    open spec fn view(&self) -> Seq<(bool, Seq<char>)> {
        views(self.parts@)
    }
}

/// `base` is a leading part of `path`, component by component (`Path::starts_with`).
pub open spec fn path_starts_with(path: Seq<(bool, Seq<char>)>, base: Seq<(bool, Seq<char>)>) -> bool {
    base.len() <= path.len() && path.take(base.len() as int) == base
}

/// `path` ends in a name and what comes before it is `parent` (`Path::parent`).
pub open spec fn is_child_of(path: Seq<(bool, Seq<char>)>, parent: Seq<(bool, Seq<char>)>) -> bool {
    path.len() > 0 && path.last().0 && path.drop_last() == parent
}

/// A folder directly inside another lies inside it.
pub proof fn lemma_child_within(path: Seq<(bool, Seq<char>)>, parent: Seq<(bool, Seq<char>)>)
    requires
        is_child_of(path, parent),
    ensures
        path_starts_with(path, parent),
{
    assert(path.take(parent.len() as int) =~= path.drop_last());
}

fn same_part(a: &PathPart, b: &PathPart) -> (res: bool)
    ensures
        res == (a@ == b@),
{
    match (a, b) {
        (PathPart::Anchor(x), PathPart::Anchor(y)) => *x == *y,
        (PathPart::Name(x), PathPart::Name(y)) => *x == *y,
        _ => false,
    }
}

fn same_prefix(path: &PathModel, base: &PathModel, len: usize) -> (res: bool)
    requires
        len <= path@.len(),
        len <= base@.len(),
    ensures
        res == (path@.take(len as int) == base@.take(len as int)),
{
    let mut i: usize = 0;
    while i < len
        invariant
            i <= len,
            len <= path@.len(),
            len <= base@.len(),
            path@.len() == path.parts@.len(),
            base@.len() == base.parts@.len(),
            path@.take(i as int) == base@.take(i as int),
        decreases len - i,
    {
        assert(path@[i as int] == path.parts@[i as int]@);
        assert(base@[i as int] == base.parts@[i as int]@);
        if !same_part(&path.parts[i], &base.parts[i]) {
            assert(path@.take(len as int)[i as int] != base@.take(len as int)[i as int]);
            return false;
        }
        assert(path@.take(i + 1) =~= base@.take(i + 1));
        i = i + 1;
    }
    true
}

/// Whether `path` starts with `base`, component by component.
pub fn starts_with(path: &PathModel, base: &PathModel) -> (res: bool)
    ensures
        res == path_starts_with(path@, base@),
{
    if base.parts.len() > path.parts.len() {
        return false;
    }
    let n = base.parts.len();
    let r = same_prefix(path, base, n);
    assert(base@.take(n as int) =~= base@);
    r
}

/// Whether `path` is a name directly inside `parent`.
pub fn child_of(path: &PathModel, parent: &PathModel) -> (res: bool)
    ensures
        res == is_child_of(path@, parent@),
{
    let n = path.parts.len();
    assert(path@.len() == n);
    assert(parent@.len() == parent.parts@.len());
    if n == 0 || n - 1 != parent.parts.len() {
        proof {
            if n > 0 {
                assert(path@.drop_last().len() != parent@.len());
            }
        }
        return false;
    }
    assert(path@.last() == path.parts@[n - 1]@);
    let last_is_name = match &path.parts[n - 1] {
        PathPart::Name(_) => true,
        PathPart::Anchor(_) => false,
    };
    if !last_is_name {
        return false;
    }
    let r = same_prefix(path, parent, n - 1);
    assert(path@.take(n - 1) =~= path@.drop_last());
    assert(parent@.take(n - 1) =~= parent@);
    r
}

/// What was learned of the projects root before a project is read.
pub enum RootProbe {
    /// The root's location could not be worked out.
    Unlocated(ScanError),
    /// The root could not be resolved to a canonical path.
    Missing,
    /// The root's canonical path.
    Found(PathModel),
}

/// The detail of why a project path is refused, or the project's canonical path.
pub open spec fn project_path_check(
    root: RootProbe,
    project: Option<PathModel>,
    project_is_dir: bool,
    info_is_file: bool,
) -> Result<Seq<(bool, Seq<char>)>, Seq<char>> {
    match root {
        RootProbe::Unlocated(e) => Err(e.message@),
        RootProbe::Missing => Err("Folder root project CapCut tidak ditemukan."@),
        RootProbe::Found(r) => match project {
            None => Err("Folder project tidak ditemukan."@),
            Some(p) => if !path_starts_with(p@, r@) {
                Err("Path project berada di luar folder CapCut yang diizinkan."@)
            } else if !is_child_of(p@, r@) {
                Err("Path project bukan folder project langsung dari root CapCut."@)
            } else if !project_is_dir {
                Err("Path project bukan folder."@)
            } else if !info_is_file {
                Err("draft_info.json tidak ditemukan."@)
            } else {
                Ok(p@)
            },
        },
    }
}

/// Checks a requested project folder: its canonical path must be a folder
/// directly inside the canonical projects root and hold a `draft_info.json`
/// file. `project` is the canonical path of the request (`None` when it could
/// not be resolved).
pub fn canonical_project_path(
    root: RootProbe,
    project: Option<PathModel>,
    project_is_dir: bool,
    info_is_file: bool,
) -> (res: Result<PathModel, ProjectReadError>)
    ensures
        match (res, project_path_check(root, project, project_is_dir, info_is_file)) {
            (Ok(p), Ok(q)) => p@ == q,
            (Err(e), Err(detail)) => e.message@ == read_failed() && e.detail@ == detail,
            _ => false,
        },
        res matches Ok(p) ==> (root matches RootProbe::Found(r) && is_child_of(p@, r@)
            && path_starts_with(p@, r@)),
{
    let root_path = match root {
        RootProbe::Unlocated(e) => {
            return Err(
                ProjectReadError {
                    message: String::from_str("Tidak dapat membaca project CapCut."),
                    detail: e.message,
                },
            );
        },
        RootProbe::Missing => return Err(read_error("Folder root project CapCut tidak ditemukan.")),
        RootProbe::Found(r) => r,
    };
    let project_path = match project {
        Some(p) => p,
        None => return Err(read_error("Folder project tidak ditemukan.")),
    };
    if !starts_with(&project_path, &root_path) {
        return Err(read_error("Path project berada di luar folder CapCut yang diizinkan."));
    }
    if !child_of(&project_path, &root_path) {
        return Err(read_error("Path project bukan folder project langsung dari root CapCut."));
    }
    if !project_is_dir {
        return Err(read_error("Path project bukan folder."));
    }
    if !info_is_file {
        return Err(read_error("draft_info.json tidak ditemukan."));
    }
    Ok(project_path)
}

} // verus!

verus! {

/// The operating systems the scanner tells apart.
#[derive(Debug, Clone, Copy, PartialEq, Eq, Structural)]
pub enum HostOs {
    MacOs,
    Windows,
    Other,
}

/// The environment variable holding the folder the projects root lies under.
pub open spec fn base_variable(os: HostOs) -> Option<Seq<char>> {
    match os {
        HostOs::MacOs => Some("HOME"@),
        HostOs::Windows => Some("LOCALAPPDATA"@),
        HostOs::Other => None,
    }
}

/// Names the environment variable that gives the base folder on this system.
pub fn root_variable(os: HostOs) -> (res: Option<&'static str>)
    ensures
        match res {
            Some(v) => base_variable(os) == Some(v@),
            None => base_variable(os) is None,
        },
{
    match os {
        HostOs::MacOs => Some("HOME"),
        HostOs::Windows => Some("LOCALAPPDATA"),
        HostOs::Other => None,
    }
}

/// The folders, below the base folder, that lead to the projects root.
pub open spec fn root_segments(os: HostOs) -> Seq<Seq<char>> {
    match os {
        HostOs::MacOs => seq![
            "Movies"@,
            "CapCut"@,
            "User Data"@,
            "Projects"@,
            "com.lveditor.draft"@,
        ],
        _ => seq!["CapCut"@, "User Data"@, "Projects"@, "com.lveditor.draft"@],
    }
}

/// Why the projects root cannot be located on a system, given whether the
/// base folder's variable was set.
pub open spec fn root_location_error(os: HostOs, base_found: bool) -> Option<Seq<char>> {
    match os {
        HostOs::MacOs => if base_found {
            None
        } else {
            Some("Home directory user tidak dapat ditemukan."@)
        },
        HostOs::Windows => if base_found {
            None
        } else {
            Some("LOCALAPPDATA user tidak dapat ditemukan."@)
        },
        HostOs::Other => Some("Sistem operasi ini belum didukung oleh scanner CapCut."@),
    }
}

fn scan_error(message: &str) -> (e: ScanError)
    ensures
        e.message@ == message@,
        e.root_path is None,
{
    ScanError { message: String::from_str(message), root_path: None }
}

/// Locates the projects root: the folders to join, in order, to the base
/// folder named by `root_variable`, or why there is no root on this system.
pub fn get_capcut_projects_path(os: HostOs, base_found: bool) -> (res: Result<Vec<String>, ScanError>)
    ensures
        match (res, root_location_error(os, base_found)) {
            (Ok(segments), None) => views(segments@) == root_segments(os),
            (Err(e), Some(m)) => e.message@ == m && e.root_path is None,
            _ => false,
        },
{
    match os {
        HostOs::MacOs => {
            if !base_found {
                return Err(scan_error("Home directory user tidak dapat ditemukan."));
            }
        },
        HostOs::Windows => {
            if !base_found {
                return Err(scan_error("LOCALAPPDATA user tidak dapat ditemukan."));
            }
        },
        HostOs::Other => {
            return Err(scan_error("Sistem operasi ini belum didukung oleh scanner CapCut."));
        },
    }
    let mut segments: Vec<String> = Vec::new();
    if let HostOs::MacOs = os {
        segments.push(String::from_str("Movies"));
    }
    segments.push(String::from_str("CapCut"));
    segments.push(String::from_str("User Data"));
    segments.push(String::from_str("Projects"));
    segments.push(String::from_str("com.lveditor.draft"));
    assert(views(segments@) =~= root_segments(os));
    Ok(segments)
}

/// The listing of all projects: the root folder and its projects.
#[derive(Debug)]
pub struct ScanResult {
    pub root_path: String,
    pub projects: Vec<CapCutProject>,
}

/// What was found at the projects root.
pub enum RootListing {
    /// The root is not a folder.
    Missing,
    /// The root is a folder that could not be listed.
    Unreadable,
    /// The root's entries.
    Entries(Vec<ScannedEntry>),
}

/// Lists the projects under the root, with the number of folders looked at;
/// fails when the root is not a folder or cannot be listed.
pub fn scan_capcut_projects(root_path: String, listing: RootListing) -> (res: Result<
    (ScanResult, usize),
    ScanError,
>)
    ensures
        match listing {
            RootListing::Missing => res matches Err(e) && e.message@
                == "Folder project CapCut tidak ditemukan pada komputer ini."@ && e.root_path
                == Some(root_path),
            RootListing::Unreadable => res matches Err(e) && e.message@
                == "Direktori project CapCut tidak dapat dibaca."@ && e.root_path == Some(
                root_path,
            ),
            RootListing::Entries(entries) => res matches Ok((found, count)) && found.root_path
                == root_path && count == directory_count(entries@) && stably_sorted::<
                CapCutProject,
            >(views(found.projects@), found_projects(entries@)),
        },
{
    match listing {
        RootListing::Missing => Err(
            ScanError {
                message: String::from_str(
                    "Folder project CapCut tidak ditemukan pada komputer ini.",
                ),
                root_path: Some(root_path),
            },
        ),
        RootListing::Unreadable => Err(
            ScanError {
                message: String::from_str("Direktori project CapCut tidak dapat dibaca."),
                root_path: Some(root_path),
            },
        ),
        RootListing::Entries(entries) => {
            let (projects, directories) = read_project_directories(entries);
            Ok((ScanResult { root_path, projects }, directories))
        },
    }
}

} // verus!

verus! {

/// A project file as it was read: unreadable, not JSON, or its parsed content.
#[derive(Debug)]
pub enum DraftFile {
    Unreadable,
    NotJson,
    Parsed(Json),
}

/// Parses the text of a project file (`None` when the file could not be read).
pub fn load_draft_file(text: Option<String>) -> (res: DraftFile)
    ensures
        match text {
            None => res is Unreadable,
            Some(t) => match parsed_json(t@) {
                None => res is NotJson,
                Some(v) => res == DraftFile::Parsed(v),
            },
        },
{
    match text {
        None => DraftFile::Unreadable,
        Some(t) => match parse_json(t.as_str()) {
            None => DraftFile::NotJson,
            Some(v) => DraftFile::Parsed(v),
        },
    }
}

/// What is known of a readable project.
#[derive(Debug)]
pub struct ProjectReadResult {
    pub project: CapCutProject,
    pub has_draft_info: bool,
    pub has_draft_content: bool,
}

/// Reads a project whose path was accepted: its `draft_info.json` must be a
/// readable JSON file and the folder a project; reports whether a
/// `draft_content.json` is present.
pub fn read_capcut_project(
    info_is_file: bool,
    info: DraftFile,
    directory: DirectoryProbe,
    has_draft_content: bool,
) -> (res: Result<ProjectReadResult, ProjectReadError>)
    ensures
        !info_is_file ==> (res matches Err(e) && e.message@ == read_failed() && e.detail@
            == "draft_info.json tidak ditemukan."@),
        info_is_file && info is Unreadable ==> (res matches Err(e) && e.message@ == read_failed()
            && e.detail@ == "draft_info.json tidak dapat dibaca."@),
        info_is_file && info is NotJson ==> (res matches Err(e) && e.message@ == read_failed()
            && e.detail@ == "draft_info.json bukan JSON yang valid."@),
        info_is_file && info is Parsed && project_view(directory) is None ==> (res matches Err(e)
            && e.message@ == read_failed() && e.detail@ == "Folder project tidak valid."@),
        info_is_file && info is Parsed && project_view(directory) is Some ==> (res matches Ok(r)
            && Some(r.project@) == project_view(directory) && r.has_draft_info
            && r.has_draft_content == has_draft_content),
{
    if !info_is_file {
        return Err(read_error("draft_info.json tidak ditemukan."));
    }
    match info {
        DraftFile::Unreadable => return Err(read_error("draft_info.json tidak dapat dibaca.")),
        DraftFile::NotJson => return Err(read_error("draft_info.json bukan JSON yang valid.")),
        DraftFile::Parsed(_) => {},
    }
    match project_from_directory(directory) {
        None => Err(read_error("Folder project tidak valid.")),
        Some(project) => Ok(ProjectReadResult { project, has_draft_info: true, has_draft_content }),
    }
}

} // verus!
