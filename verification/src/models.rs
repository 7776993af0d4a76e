//! The records that a scan produces.

use vstd::prelude::*;

verus! {

/// One discovered installer file.
#[derive(Debug, Clone, PartialEq, Eq)]
pub struct InstallerFile {
    pub path: String,
    /// Lower-cased, without the leading dot.
    pub extension: String,
    pub size_bytes: u64,
    /// Seconds since the epoch; absent where the time could not be read.
    pub modified_unix_secs: Option<u64>,
    /// The installed program that this file is believed to belong to.
    pub installed_program_match: Option<String>,
}

/// The characters of an optional string.
pub open spec fn optional_text(text: Option<String>) -> Option<Seq<char>> {
    match text {
        Some(t) => Some(t@),
        None => None,
    }
}

/// The mathematical content of an [`InstallerFile`].
pub struct InstallerFileView {
    pub path: Seq<char>,
    pub extension: Seq<char>,
    pub size_bytes: nat,
    pub modified_unix_secs: Option<nat>,
    pub installed_program_match: Option<Seq<char>>,
}

impl View for InstallerFile {
    type V = InstallerFileView;

    open spec fn view(&self) -> InstallerFileView {
        InstallerFileView {
            path: self.path@,
            extension: self.extension@,
            size_bytes: self.size_bytes as nat,
            modified_unix_secs: match self.modified_unix_secs {
                Some(t) => Some(t as nat),
                None => None,
            },
            installed_program_match: optional_text(self.installed_program_match),
        }
    }
}

/// One completed scan. The positions in `files` are what a selection refers to.
#[derive(Debug, Clone, PartialEq, Eq)]
pub struct ScanSummary {
    pub root: String,
    pub scanned_at_unix_secs: u64,
    pub include_archives: bool,
    /// In discovery order.
    pub files: Vec<InstallerFile>,
    pub warnings: Vec<String>,
}

/// The mathematical content of a [`ScanSummary`].
pub struct ScanSummaryView {
    pub root: Seq<char>,
    pub scanned_at_unix_secs: nat,
    pub include_archives: bool,
    pub files: Seq<InstallerFileView>,
    pub warnings: Seq<Seq<char>>,
}

/// The contents of `files`, one view per record.
pub open spec fn file_views(files: Seq<InstallerFile>) -> Seq<InstallerFileView> {
    Seq::new(files.len(), |i: int| files[i]@)
}

/// The contents of `lines`, one view per string.
pub open spec fn line_views(lines: Seq<String>) -> Seq<Seq<char>> {
    Seq::new(lines.len(), |i: int| lines[i]@)
}

impl View for ScanSummary {
    type V = ScanSummaryView;

    open spec fn view(&self) -> ScanSummaryView {
        ScanSummaryView {
            root: self.root@,
            scanned_at_unix_secs: self.scanned_at_unix_secs as nat,
            include_archives: self.include_archives,
            files: file_views(self.files@),
            warnings: line_views(self.warnings@),
        }
    }
}

/// The sizes of `files` added up.
pub open spec fn total_size(files: Seq<InstallerFile>) -> nat
    decreases files.len(),
{
    if files.len() == 0 {
        0
    } else {
        total_size(files.drop_last()) + files.last().size_bytes as nat
    }
}

/// The sizes of the files at the positions `targets`, added up. Every target
/// is expected to be a position in `files`.
pub open spec fn selected_size(files: Seq<InstallerFile>, targets: Seq<usize>) -> nat
    decreases targets.len(),
{
    if targets.len() == 0 {
        0
    } else {
        selected_size(files, targets.drop_last()) + files[targets.last() as int].size_bytes as nat
    }
}

/// A leading part of `files` weighs no more than the whole.
pub(crate) proof fn lemma_total_size_prefix(files: Seq<InstallerFile>, k: int)
    requires
        0 <= k <= files.len(),
    ensures
        total_size(files.take(k)) <= total_size(files),
    decreases files.len() - k,
{
    if k == files.len() {
        assert(files.take(k) =~= files);
    } else {
        lemma_total_size_prefix(files, k + 1);
        assert(files.take(k + 1).drop_last() =~= files.take(k));
    }
}

/// Strictly ascending positions inside the first `n` files weigh no more than
/// those `n` files together.
pub proof fn lemma_selected_size_bounded(files: Seq<InstallerFile>, targets: Seq<usize>, n: int)
    requires
        0 <= n <= files.len(),
        forall|i: int, j: int| 0 <= i < j < targets.len() ==> targets[i] < targets[j],
        forall|k: int| 0 <= k < targets.len() ==> targets[k] < n,
    ensures
        selected_size(files, targets) <= total_size(files.take(n)),
    decreases targets.len(),
{
    if targets.len() > 0 {
        let last = targets.last() as int;
        let init = targets.drop_last();
        assert forall|k: int| 0 <= k < init.len() implies init[k] < last by {
            assert(init[k] == targets[k]);
        }
        lemma_selected_size_bounded(files, init, last);
        lemma_total_size_prefix(files.take(n), last + 1);
        assert(files.take(n).take(last + 1) =~= files.take(last + 1));
        assert(files.take(last + 1).drop_last() =~= files.take(last));
    }
}

impl ScanSummary {
    /// The sizes of all files found, added up.
    pub open spec fn total(&self) -> nat {
        total_size(self.files@)
    }

    /// The sizes of all files found, added up.
    pub fn total_size_bytes(&self) -> (sum: u64)
        requires
            self.total() <= u64::MAX,
        ensures
            sum == self.total(),
    {
        let mut sum: u64 = 0;
        let mut i: usize = 0;
        while i < self.files.len()
            invariant
                i <= self.files.len(),
                sum == total_size(self.files@.take(i as int)),
                self.total() <= u64::MAX,
            decreases self.files.len() - i,
        {
            proof {
                lemma_total_size_prefix(self.files@, i + 1);
                assert(self.files@.take(i + 1).drop_last() =~= self.files@.take(i as int));
            }
            sum = sum + self.files[i].size_bytes;
            i = i + 1;
        }
        assert(self.files@.take(i as int) =~= self.files@);
        sum
    }

    /// The sizes of all files found, added up, or `None` where the sum does
    /// not fit in 64 bits.
    pub fn checked_total_size_bytes(&self) -> (sum: Option<u64>)
        ensures
            sum == if self.total() <= u64::MAX {
                Some(self.total() as u64)
            } else {
                None
            },
    {
        let mut sum: u64 = 0;
        let mut i: usize = 0;
        while i < self.files.len()
            invariant
                i <= self.files.len(),
                sum == total_size(self.files@.take(i as int)),
            decreases self.files.len() - i,
        {
            proof {
                lemma_total_size_prefix(self.files@, i + 1);
                assert(self.files@.take(i + 1).drop_last() =~= self.files@.take(i as int));
            }
            let size = self.files[i].size_bytes;
            if size > u64::MAX - sum {
                return None;
            }
            sum = sum + size;
            i = i + 1;
        }
        assert(self.files@.take(i as int) =~= self.files@);
        Some(sum)
    }
}

} // verus!
