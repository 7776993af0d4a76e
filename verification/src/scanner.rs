//! The scan: which directory entries count as installer files, and how the
//! records and warnings of one scan are put together. The caller walks the
//! tree and reads file metadata; every decision is taken here.

use crate::installed::{find_program_match, is_match_among, InstalledNames};
use crate::models::{
    line_views, optional_text, InstallerFile, InstallerFileView, ScanSummary,
};
use crate::text::{chars_equal, lowercase, to_ascii_lowercase};
use vstd::prelude::*;
use vstd::string::*;

verus! {

/// Why a scan came to nothing.
#[derive(Debug, Clone, PartialEq, Eq)]
pub enum ScanError {
    /// The root does not exist.
    NotFound { root: String },
    /// The root exists but is no directory.
    NotADirectory { root: String },
    /// The size or the modification time of a matching file could not be read.
    UnreadableMetadata { path: String, cause: String },
    /// The system clock is unavailable or stands before the epoch.
    ClockError,
}

impl ScanError {
    /// The error in one line, as shown to the user.
    pub open spec fn message_text(&self) -> Seq<char> {
        match self {
            ScanError::NotFound { root } => "Path does not exist: "@ + root@,
            ScanError::NotADirectory { root } => "Path is not a directory: "@ + root@,
            ScanError::UnreadableMetadata { path, cause } => "Failed to read metadata for "@
                + path@,
            ScanError::ClockError => "System time appears to be before UNIX_EPOCH"@,
        }
    }

    /// The error in one line, as shown to the user.
    pub fn message(&self) -> (text: String)
        ensures
            text@ == self.message_text(),
    {
        match self {
            ScanError::NotFound { root } => {
                let mut text = String::from_str("Path does not exist: ");
                text.append(root.as_str());
                text
            },
            ScanError::NotADirectory { root } => {
                let mut text = String::from_str("Path is not a directory: ");
                text.append(root.as_str());
                text
            },
            ScanError::UnreadableMetadata { path, cause: _ } => {
                let mut text = String::from_str("Failed to read metadata for ");
                text.append(path.as_str());
                text
            },
            ScanError::ClockError => String::from_str(
                "System time appears to be before UNIX_EPOCH",
            ),
        }
    }
}

/// What the walk reports of one directory entry.
#[derive(Debug, Clone, PartialEq, Eq)]
pub struct FoundEntry {
    /// Whether the entry is a regular file; a symbolic link is none.
    pub is_file: bool,
    pub path: String,
    /// The part of the file name after its last dot, as written; absent where
    /// the name has none or where it is no valid text.
    pub extension: Option<String>,
    /// The file name without its extension; empty where it is no valid text.
    pub file_stem: String,
}

/// What the caller reports back.
#[derive(Debug)]
pub enum ScanEvent {
    /// The root was looked at.
    RootChecked { exists: bool, is_directory: bool },
    /// The names of the installed programs were fetched.
    NamesFetched { names: InstalledNames },
    /// The walk came upon an entry.
    Entry { entry: FoundEntry },
    /// The walk could not read an entry.
    TraversalFailed { message: String },
    /// The metadata asked for by [`ScanAction::ReadMetadata`] was read.
    MetadataRead { size_bytes: u64, modified_unix_secs: Option<u64> },
    /// The metadata asked for by [`ScanAction::ReadMetadata`] could not be read.
    MetadataUnreadable { cause: String },
    /// The walk is over; `now_unix_secs` is the time, where the clock gave one.
    WalkEnded { now_unix_secs: Option<u64> },
}

/// What the caller is to do next.
#[derive(Debug, Clone, PartialEq, Eq)]
pub enum ScanAction {
    /// Fetch the names of the installed programs, once for the whole scan.
    FetchInstalledNames,
    /// Go on with the walk and report what comes next.
    Walk,
    /// Read size and modification time of the entry just reported.
    ReadMetadata,
    /// Give up the scan with this error.
    Fail { error: ScanError },
    /// Hand out the result.
    Finish { summary: ScanSummary },
    /// The event does not belong to the current stage; nothing changed.
    Unexpected,
}

/// Where a scan stands.
#[derive(Debug, Clone, Copy, PartialEq, Eq, Structural)]
pub enum ScanStage {
    /// The root has not been looked at yet.
    Root,
    /// The names of the installed programs are awaited.
    Names,
    /// The tree is being walked.
    Walking,
    /// A matching file was found and its metadata is awaited.
    Metadata,
    /// The scan is over.
    Done,
}

/// Whether files with the lower-cased extension `extension` are looked for.
pub open spec fn allowed_extension(extension: Seq<char>, include_archives: bool) -> bool {
    ||| extension == "exe"@
    ||| extension == "msi"@
    ||| extension == "dmg"@
    ||| extension == "pkg"@
    ||| include_archives && (extension == "zip"@ || extension == "7z"@)
}

/// Whether an entry is recorded: a regular file whose extension, in lower
/// case, is one of those looked for.
pub open spec fn is_wanted(
    is_file: bool,
    extension: Option<Seq<char>>,
    include_archives: bool,
) -> bool {
    &&& is_file
    &&& extension matches Some(written)
    &&& allowed_extension(lowercase(written), include_archives)
}

/// Whether every one of `files` has an extension that is looked for.
pub open spec fn only_allowed(files: Seq<InstallerFile>, include_archives: bool) -> bool {
    forall|i: int|
        0 <= i < files.len() ==> allowed_extension(
            (#[trigger] files[i]).extension@,
            include_archives,
        )
}

/// The line that records a failure of the walk.
pub open spec fn warning_line(message: Seq<char>) -> Seq<char> {
    "Traversal warning: "@ + message
}

/// The extensions looked for, in lower case: `exe`, `msi`, `dmg` and `pkg`,
/// and with `include_archives` also `zip` and `7z`.
pub fn allowed_extensions(include_archives: bool) -> (list: Vec<&'static str>)
    ensures
        list@.len() == if include_archives {
            6nat
        } else {
            4nat
        },
        forall|extension: Seq<char>|
            allowed_extension(extension, include_archives) <==> exists|i: int|
                0 <= i < list@.len() && #[trigger] list@[i]@ == extension,
{
    let mut list: Vec<&'static str> = Vec::new();
    list.push("exe");
    list.push("msi");
    list.push("dmg");
    list.push("pkg");
    if include_archives {
        list.push("zip");
        list.push("7z");
        assert(list@[4]@ == "zip"@ && list@[5]@ == "7z"@);
    }
    assert(list@[0]@ == "exe"@ && list@[1]@ == "msi"@ && list@[2]@ == "dmg"@ && list@[3]@
        == "pkg"@);
    list
}

/// Whether files with the lower-cased extension `extension` are looked for.
pub fn is_allowed_extension(extension: &str, include_archives: bool) -> (allowed: bool)
    ensures
        allowed == allowed_extension(extension@, include_archives),
{
    let list = allowed_extensions(include_archives);
    let mut i: usize = 0;
    while i < list.len()
        invariant
            i <= list.len(),
            forall|k: int| 0 <= k < i ==> list@[k]@ != extension@,
            forall|wanted: Seq<char>|
                allowed_extension(wanted, include_archives) <==> exists|k: int|
                    0 <= k < list@.len() && #[trigger] list@[k]@ == wanted,
        decreases list.len() - i,
    {
        if chars_equal(list[i], extension) {
            return true;
        }
        i = i + 1;
    }
    false
}

/// A matching file whose metadata is awaited.
struct Pending {
    path: String,
    extension: String,
    file_stem: String,
}

/// One scan of one directory tree.
pub struct ScanSession {
    root: String,
    include_archives: bool,
    installed: InstalledNames,
    stage: ScanStage,
    pending: Option<Pending>,
    files: Vec<InstallerFile>,
    warnings: Vec<String>,
}

impl ScanSession {
    /// The path that is scanned.
    pub closed spec fn root_path(&self) -> Seq<char> {
        self.root@
    }

    /// Whether archives are looked for as well.
    pub closed spec fn with_archives(&self) -> bool {
        self.include_archives
    }

    /// The installed program names that files are matched against.
    pub closed spec fn known_names(&self) -> Set<Seq<char>> {
        self.installed@
    }

    /// The stage that the scan is in.
    pub closed spec fn current_stage(&self) -> ScanStage {
        self.stage
    }

    /// The files recorded so far, in the order in which the walk found them.
    pub closed spec fn found(&self) -> Seq<InstallerFile> {
        self.files@
    }

    /// The warnings recorded so far, in order.
    pub closed spec fn warned(&self) -> Seq<Seq<char>> {
        line_views(self.warnings@)
    }

    /// Path, lower-cased extension and file stem of the file whose metadata
    /// is awaited.
    pub closed spec fn awaited(&self) -> Option<(Seq<char>, Seq<char>, Seq<char>)> {
        match self.pending {
            Some(p) => Some((p.path@, p.extension@, p.file_stem@)),
            None => None,
        }
    }

    #[verifier::type_invariant]
    closed spec fn consistent(&self) -> bool {
        &&& self.stage == ScanStage::Metadata <==> self.pending is Some
        &&& self.pending matches Some(p) ==> allowed_extension(p.extension@, self.include_archives)
        &&& only_allowed(self.files@, self.include_archives)
    }

    /// Begins a scan of `root`.
    pub fn new(root: String, include_archives: bool) -> (session: ScanSession)
        ensures
            session.root_path() == root@,
            session.with_archives() == include_archives,
            session.known_names() == Set::<Seq<char>>::empty(),
            session.current_stage() == ScanStage::Root,
            session.found().len() == 0,
            session.warned().len() == 0,
            session.awaited() is None,
    {
        ScanSession {
            root,
            include_archives,
            installed: InstalledNames::new(),
            stage: ScanStage::Root,
            pending: None,
            files: Vec::new(),
            warnings: Vec::new(),
        }
    }

    /// The stage that the scan is in.
    pub fn stage(&self) -> (stage: ScanStage)
        ensures
            stage == self.current_stage(),
    {
        self.stage
    }

    /// Whether `next` differs from this session in nothing but its stage.
    pub open spec fn keeps_records(&self, next: ScanSession) -> bool {
        &&& next.found() == self.found()
        &&& next.warned() == self.warned()
        &&& next.awaited() == self.awaited()
    }

    /// Whether `next` is what a look at the root leads to: a root that is
    /// missing or no directory ends the scan, any other has the names of the
    /// installed programs fetched.
    pub open spec fn checks_root(
        &self,
        exists: bool,
        is_directory: bool,
        next: (ScanSession, ScanAction),
    ) -> bool {
        &&& self.keeps_records(next.0)
        &&& next.0.known_names() == self.known_names()
        &&& if !exists {
            &&& next.0.current_stage() == ScanStage::Done
            &&& next.1 matches ScanAction::Fail { error }
            &&& error matches ScanError::NotFound { root }
            &&& root@ == self.root_path()
        } else if !is_directory {
            &&& next.0.current_stage() == ScanStage::Done
            &&& next.1 matches ScanAction::Fail { error }
            &&& error matches ScanError::NotADirectory { root }
            &&& root@ == self.root_path()
        } else {
            &&& next.0.current_stage() == ScanStage::Names
            &&& next.1 is FetchInstalledNames
        }
    }

    /// Whether `next` is what the fetched names lead to: they are kept for
    /// the whole scan, and the walk begins.
    pub open spec fn takes_names(
        &self,
        names: Set<Seq<char>>,
        next: (ScanSession, ScanAction),
    ) -> bool {
        &&& self.keeps_records(next.0)
        &&& next.0.known_names() == names
        &&& next.0.current_stage() == ScanStage::Walking
        &&& next.1 is Walk
    }

    /// Whether `next` is what an entry of the walk leads to: the metadata of
    /// a wanted file is asked for, and any other entry is passed over.
    pub open spec fn meets_entry(
        &self,
        entry: FoundEntry,
        next: (ScanSession, ScanAction),
    ) -> bool {
        &&& next.0.known_names() == self.known_names()
        &&& next.0.found() == self.found()
        &&& next.0.warned() == self.warned()
        &&& if is_wanted(entry.is_file, optional_text(entry.extension), self.with_archives()) {
            &&& next.0.current_stage() == ScanStage::Metadata
            &&& next.0.awaited() == Some(
                (entry.path@, lowercase(entry.extension->0@), entry.file_stem@),
            )
            &&& next.1 is ReadMetadata
        } else {
            &&& next.0.current_stage() == ScanStage::Walking
            &&& next.0.awaited() is None
            &&& next.1 is Walk
        }
    }

    /// Whether `next` is what a failure of the walk leads to: one more
    /// warning, and the walk goes on.
    pub open spec fn warns(&self, message: Seq<char>, next: (ScanSession, ScanAction)) -> bool {
        &&& next.0.known_names() == self.known_names()
        &&& next.0.current_stage() == ScanStage::Walking
        &&& next.0.found() == self.found()
        &&& next.0.warned() == self.warned().push(warning_line(message))
        &&& next.0.awaited() is None
        &&& next.1 is Walk
    }

    /// Whether `next` is what the metadata of the awaited file leads to: its
    /// record is added after those already found, and the walk goes on.
    pub open spec fn records_file(
        &self,
        size_bytes: u64,
        modified_unix_secs: Option<u64>,
        next: (ScanSession, ScanAction),
    ) -> bool {
        &&& next.0.known_names() == self.known_names()
        &&& next.0.current_stage() == ScanStage::Walking
        &&& next.0.warned() == self.warned()
        &&& next.0.awaited() is None
        &&& next.1 is Walk
        &&& next.0.found().len() == self.found().len() + 1
        &&& next.0.found().drop_last() == self.found()
        &&& self.awaited() matches Some((path, extension, file_stem))
        &&& is_record_of(
            next.0.found().last()@,
            path,
            extension,
            file_stem,
            size_bytes,
            modified_unix_secs,
            self.known_names(),
        )
    }

    /// Whether `next` is what unreadable metadata leads to: the scan fails.
    pub open spec fn fails_on_metadata(
        &self,
        cause: Seq<char>,
        next: (ScanSession, ScanAction),
    ) -> bool {
        &&& next.0.known_names() == self.known_names()
        &&& next.0.current_stage() == ScanStage::Done
        &&& next.0.found() == self.found()
        &&& next.0.warned() == self.warned()
        &&& next.0.awaited() is None
        &&& self.awaited() matches Some((path, extension, file_stem))
        &&& next.1 matches ScanAction::Fail { error }
        &&& error matches ScanError::UnreadableMetadata { path: failed, cause: why }
        &&& failed@ == path
        &&& why@ == cause
    }

    /// Whether `next` is what the end of the walk leads to: with a time from
    /// the clock the result is handed out, stamped with it, and holds the
    /// files and warnings recorded, each file with an extension that was
    /// looked for; without one the scan fails.
    pub open spec fn ends_walk(
        &self,
        now_unix_secs: Option<u64>,
        next: (ScanSession, ScanAction),
    ) -> bool {
        &&& next.0.known_names() == self.known_names()
        &&& next.0.current_stage() == ScanStage::Done
        &&& next.0.awaited() is None
        &&& match now_unix_secs {
            None => {
                &&& next.0.found() == self.found()
                &&& next.0.warned() == self.warned()
                &&& next.1 matches ScanAction::Fail { error }
                &&& error is ClockError
            },
            Some(now) => {
                &&& next.0.found().len() == 0
                &&& next.0.warned().len() == 0
                &&& next.1 matches ScanAction::Finish { summary }
                &&& summary.root@ == self.root_path()
                &&& summary.scanned_at_unix_secs == now
                &&& summary.include_archives == self.with_archives()
                &&& summary.files@ == self.found()
                &&& line_views(summary.warnings@) == self.warned()
                &&& only_allowed(summary.files@, summary.include_archives)
            },
        }
    }

    /// Whether `next` is what `event` leads to. An event that does not belong
    /// to the current stage changes nothing.
    pub open spec fn steps_to(&self, event: ScanEvent, next: (ScanSession, ScanAction)) -> bool {
        &&& next.0.root_path() == self.root_path()
        &&& next.0.with_archives() == self.with_archives()
        &&& match (self.current_stage(), event) {
            (ScanStage::Root, ScanEvent::RootChecked { exists, is_directory }) => self.checks_root(
                exists,
                is_directory,
                next,
            ),
            (ScanStage::Names, ScanEvent::NamesFetched { names }) => self.takes_names(names@, next),
            (ScanStage::Walking, ScanEvent::Entry { entry }) => self.meets_entry(entry, next),
            (ScanStage::Walking, ScanEvent::TraversalFailed { message }) => self.warns(
                message@,
                next,
            ),
            (
                ScanStage::Metadata,
                ScanEvent::MetadataRead { size_bytes, modified_unix_secs },
            ) => self.records_file(size_bytes, modified_unix_secs, next),
            (
                ScanStage::Metadata,
                ScanEvent::MetadataUnreadable { cause },
            ) => self.fails_on_metadata(cause@, next),
            (ScanStage::Walking, ScanEvent::WalkEnded { now_unix_secs }) => self.ends_walk(
                now_unix_secs,
                next,
            ),
            _ => {
                &&& next.0.current_stage() == self.current_stage()
                &&& next.0.known_names() == self.known_names()
                &&& self.keeps_records(next.0)
                &&& next.1 is Unexpected
            },
        }
    }

    /// Takes the scan one step further: `event` is what happened since the
    /// last action, and the result is the session as it now stands together
    /// with what the caller is to do next.
    ///
    /// A root that is missing or no directory ends the scan, and so does a
    /// matching file whose metadata cannot be read, or a clock that gives no
    /// time at the end. The names of the installed programs are asked for
    /// once, before the walk, and every file is matched against them. A
    /// failure of the walk itself is recorded as a warning and the walk goes
    /// on. Files are recorded in the order in which the walk reports them.
    pub fn step(self, event: ScanEvent) -> (next: (ScanSession, ScanAction))
        ensures
            self.steps_to(event, next),
    {
        proof {
            use_type_invariant(&self);
        }
        let ScanSession { root, include_archives, installed, stage, pending, files, warnings } =
            self;
        let mut files = files;
        let mut warnings = warnings;
        match (stage, event) {
            (ScanStage::Root, ScanEvent::RootChecked { exists, is_directory }) => {
                let scanned = root.clone();
                if !exists {
                    (
                        ScanSession {
                            root,
                            include_archives,
                            installed,
                            stage: ScanStage::Done,
                            pending,
                            files,
                            warnings,
                        },
                        ScanAction::Fail { error: ScanError::NotFound { root: scanned } },
                    )
                } else if !is_directory {
                    (
                        ScanSession {
                            root,
                            include_archives,
                            installed,
                            stage: ScanStage::Done,
                            pending,
                            files,
                            warnings,
                        },
                        ScanAction::Fail { error: ScanError::NotADirectory { root: scanned } },
                    )
                } else {
                    (
                        ScanSession {
                            root,
                            include_archives,
                            installed,
                            stage: ScanStage::Names,
                            pending,
                            files,
                            warnings,
                        },
                        ScanAction::FetchInstalledNames,
                    )
                }
            },
            (ScanStage::Names, ScanEvent::NamesFetched { names }) => {
                (
                    ScanSession {
                        root,
                        include_archives,
                        installed: names,
                        stage: ScanStage::Walking,
                        pending,
                        files,
                        warnings,
                    },
                    ScanAction::Walk,
                )
            },
            (ScanStage::Walking, ScanEvent::Entry { entry }) => {
                let FoundEntry { is_file, path, extension, file_stem } = entry;
                let lowered = match extension {
                    Some(written) => Some(to_ascii_lowercase(written.as_str())),
                    None => None,
                };
                let wanted = is_file && match &lowered {
                    Some(extension) => is_allowed_extension(extension.as_str(), include_archives),
                    None => false,
                };
                if wanted {
                    let awaited = Pending { path, extension: lowered.unwrap(), file_stem };
                    (
                        ScanSession {
                            root,
                            include_archives,
                            installed,
                            stage: ScanStage::Metadata,
                            pending: Some(awaited),
                            files,
                            warnings,
                        },
                        ScanAction::ReadMetadata,
                    )
                } else {
                    (
                        ScanSession {
                            root,
                            include_archives,
                            installed,
                            stage: ScanStage::Walking,
                            pending,
                            files,
                            warnings,
                        },
                        ScanAction::Walk,
                    )
                }
            },
            (ScanStage::Walking, ScanEvent::TraversalFailed { message }) => {
                let ghost before = line_views(warnings@);
                let mut line = String::from_str("Traversal warning: ");
                line.append(message.as_str());
                warnings.push(line);
                assert(line_views(warnings@) =~= before.push(warning_line(message@)));
                (
                    ScanSession {
                        root,
                        include_archives,
                        installed,
                        stage: ScanStage::Walking,
                        pending,
                        files,
                        warnings,
                    },
                    ScanAction::Walk,
                )
            },
            (ScanStage::Metadata, ScanEvent::MetadataRead { size_bytes, modified_unix_secs }) => {
                let Pending { path, extension, file_stem } = pending.unwrap();
                let ghost before = files@;
                let matched = find_program_match(file_stem.as_str(), &installed);
                files.push(
                    InstallerFile {
                        path,
                        extension,
                        size_bytes,
                        modified_unix_secs,
                        installed_program_match: matched,
                    },
                );
                assert(files@.drop_last() =~= before);
                (
                    ScanSession {
                        root,
                        include_archives,
                        installed,
                        stage: ScanStage::Walking,
                        pending: None,
                        files,
                        warnings,
                    },
                    ScanAction::Walk,
                )
            },
            (ScanStage::Metadata, ScanEvent::MetadataUnreadable { cause }) => {
                let Pending { path, extension: _, file_stem: _ } = pending.unwrap();
                (
                    ScanSession {
                        root,
                        include_archives,
                        installed,
                        stage: ScanStage::Done,
                        pending: None,
                        files,
                        warnings,
                    },
                    ScanAction::Fail { error: ScanError::UnreadableMetadata { path, cause } },
                )
            },
            (ScanStage::Walking, ScanEvent::WalkEnded { now_unix_secs }) => {
                match now_unix_secs {
                    None => (
                        ScanSession {
                            root,
                            include_archives,
                            installed,
                            stage: ScanStage::Done,
                            pending,
                            files,
                            warnings,
                        },
                        ScanAction::Fail { error: ScanError::ClockError },
                    ),
                    Some(now) => {
                        let summary = ScanSummary {
                            root: root.clone(),
                            scanned_at_unix_secs: now,
                            include_archives,
                            files,
                            warnings,
                        };
                        (
                            ScanSession {
                                root,
                                include_archives,
                                installed,
                                stage: ScanStage::Done,
                                pending,
                                files: Vec::new(),
                                warnings: Vec::new(),
                            },
                            ScanAction::Finish { summary },
                        )
                    },
                }
            },
            _ => (
                ScanSession { root, include_archives, installed, stage, pending, files, warnings },
                ScanAction::Unexpected,
            ),
        }
    }
}

/// Whether `file` is the record of a file at `path` with the lower-cased
/// extension `extension` and the stem `file_stem`, of the given size and
/// modification time, matched against `names`.
pub open spec fn is_record_of(
    file: InstallerFileView,
    path: Seq<char>,
    extension: Seq<char>,
    file_stem: Seq<char>,
    size_bytes: u64,
    modified_unix_secs: Option<u64>,
    names: Set<Seq<char>>,
) -> bool {
    &&& file.path == path
    &&& file.extension == extension
    &&& file.size_bytes == size_bytes
    &&& file.modified_unix_secs == match modified_unix_secs {
        Some(t) => Some(t as nat),
        None => None,
    }
    &&& is_match_among(file_stem, names, file.installed_program_match)
}

/// A failure of the walk is no failure of the scan: it adds one warning,
/// loses no file that was found, and leaves the scan walking.
pub proof fn lemma_walk_failure_goes_on(
    session: ScanSession,
    message: String,
    next: (ScanSession, ScanAction),
)
    requires
        session.current_stage() == ScanStage::Walking,
        session.steps_to(ScanEvent::TraversalFailed { message }, next),
    ensures
        next.1 is Walk,
        next.0.current_stage() == ScanStage::Walking,
        next.0.found() == session.found(),
        next.0.warned().len() == session.warned().len() + 1,
        next.0.warned().last() == warning_line(message@),
{
}

/// Whether `trace` is a run of the scan: each entry is reached from the one
/// before it by the event of the same position in `events`.
pub open spec fn is_scan_run(
    trace: Seq<(ScanSession, ScanAction)>,
    events: Seq<ScanEvent>,
) -> bool {
    &&& trace.len() == events.len() + 1
    &&& forall|k: int|
        0 <= k < events.len() ==> (#[trigger] trace[k]).0.steps_to(events[k], trace[k + 1])
}

/// Whether `event` leaves a scan under way: it neither reports unreadable
/// metadata nor the end of the walk.
pub open spec fn goes_on_after(event: ScanEvent) -> bool {
    !(event is MetadataUnreadable) && !(event is WalkEnded)
}

/// Whether a scan in `stage` is under way: walking, or awaiting metadata.
pub open spec fn is_under_way(stage: ScanStage) -> bool {
    stage == ScanStage::Walking || stage == ScanStage::Metadata
}

/// A scan goes on through whatever the walk brings. As long as no metadata
/// is unreadable and the walk has not ended, the scan stays under way, and
/// every file and every warning recorded so far is kept in its place.
pub proof fn lemma_scan_goes_on(
    trace: Seq<(ScanSession, ScanAction)>,
    events: Seq<ScanEvent>,
    k: int,
)
    requires
        is_scan_run(trace, events),
        is_under_way(trace[0].0.current_stage()),
        forall|i: int| 0 <= i < events.len() ==> goes_on_after(#[trigger] events[i]),
        0 <= k <= events.len(),
    ensures
        is_under_way(trace[k].0.current_stage()),
        trace[0].0.found().is_prefix_of(trace[k].0.found()),
        trace[0].0.warned().is_prefix_of(trace[k].0.warned()),
    decreases k,
{
    if k > 0 {
        lemma_scan_goes_on(trace, events, k - 1);
        let before = trace[k - 1].0;
        let after = trace[k].0;
        assert(before.steps_to(events[k - 1], trace[k]));
        assert(goes_on_after(events[k - 1]));
        assert(before.found().is_prefix_of(after.found())) by {
            if after.found() != before.found() {
                assert(after.found().drop_last() == before.found());
            }
        }
        assert(before.warned().is_prefix_of(after.warned()));
    }
}

/// How many of `events` report a failure of the walk.
pub open spec fn walk_failures(events: Seq<ScanEvent>) -> nat
    decreases events.len(),
{
    if events.len() == 0 {
        0
    } else if events.last() is TraversalFailed {
        walk_failures(events.drop_last()) + 1
    } else {
        walk_failures(events.drop_last())
    }
}

/// How many of `events` bring the metadata of a file.
pub open spec fn metadata_reads(events: Seq<ScanEvent>) -> nat
    decreases events.len(),
{
    if events.len() == 0 {
        0
    } else if events.last() is MetadataRead {
        metadata_reads(events.drop_last()) + 1
    } else {
        metadata_reads(events.drop_last())
    }
}

/// Every failure of the walk gives one warning and every file whose
/// metadata was read gives one record, no more and no fewer: in a run in
/// which each event comes in its turn, without unreadable metadata and before
/// the end of the walk, the warnings grow by the number of failures and the
/// files by the number of metadata read.
pub proof fn lemma_scan_counts(
    trace: Seq<(ScanSession, ScanAction)>,
    events: Seq<ScanEvent>,
    k: int,
)
    requires
        is_scan_run(trace, events),
        is_under_way(trace[0].0.current_stage()),
        forall|i: int| 0 <= i < events.len() ==> goes_on_after(#[trigger] events[i]),
        forall|i: int| 0 < i < trace.len() ==> !((#[trigger] trace[i]).1 is Unexpected),
        0 <= k <= events.len(),
    ensures
        trace[k].0.warned().len() == trace[0].0.warned().len() + walk_failures(events.take(k)),
        trace[k].0.found().len() == trace[0].0.found().len() + metadata_reads(events.take(k)),
    decreases k,
{
    if k > 0 {
        lemma_scan_counts(trace, events, k - 1);
        lemma_scan_goes_on(trace, events, k - 1);
        assert(trace[k - 1].0.steps_to(events[k - 1], trace[k]));
        assert(goes_on_after(events[k - 1]));
        assert(!(trace[k].1 is Unexpected));
        assert(events.take(k).drop_last() =~= events.take(k - 1));
        assert(events.take(k).last() == events[k - 1]);
    }
}

/// What a scan hands out at its end is what it recorded: the files found, in
/// order, and every warning, whatever failures the walk met on the way.
pub proof fn lemma_walk_end_hands_out_everything(
    session: ScanSession,
    now: u64,
    next: (ScanSession, ScanAction),
)
    requires
        session.current_stage() == ScanStage::Walking,
        session.steps_to(ScanEvent::WalkEnded { now_unix_secs: Some(now) }, next),
    ensures
        next.1 matches ScanAction::Finish { summary } && summary.files@ == session.found()
            && line_views(summary.warnings@) == session.warned(),
{
}

} // verus!
