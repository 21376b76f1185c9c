//! Planning a batch of deletions and accounting for its outcomes.
//!
//! The deletions themselves are the caller's: it removes what a
//! [`DeletionPlan`] lists, on as many workers as the plan says, and hands the
//! outcomes back, one for each target and in the targets' order.

use crate::format::{format_bytes, formatted_bytes};
use crate::path::chars_of;
use crate::patterns::texts;
use crate::scanner::{first_offender, is_node_modules_dir, validate_targets};
use crate::text::{decimal, decimal_text};
use crate::{CleanupError, CleanupStats};
use vstd::prelude::*;
use vstd::string::StringExecFns;

verus! {

/// Calls `num_cpus::get`, the number of logical CPUs that this process may
/// use. It depends on the machine, so nothing is stated of it.
#[verifier::external_body]
pub(crate) fn logical_cpus() -> (n: usize) {
    num_cpus::get()
}

/// The number of deletions that succeeded.
pub open spec fn deleted_count(outcomes: Seq<Result<u64, String>>) -> nat
    decreases outcomes.len(),
{
    if outcomes.len() == 0 {
        0
    } else {
        deleted_count(outcomes.drop_last()) + if outcomes.last() is Ok {
            1nat
        } else {
            0nat
        }
    }
}

/// The number of deletions that failed.
pub open spec fn failed_count(outcomes: Seq<Result<u64, String>>) -> nat
    decreases outcomes.len(),
{
    if outcomes.len() == 0 {
        0
    } else {
        failed_count(outcomes.drop_last()) + if outcomes.last() is Err {
            1nat
        } else {
            0nat
        }
    }
}

/// The sum of the sizes of the directories whose deletion succeeded.
pub open spec fn total_bytes(outcomes: Seq<Result<u64, String>>) -> nat
    decreases outcomes.len(),
{
    if outcomes.len() == 0 {
        0
    } else {
        total_bytes(outcomes.drop_last()) + match outcomes.last() {
            Ok(bytes) => bytes as nat,
            Err(_) => 0nat,
        }
    }
}

/// A count as a 64-bit accumulator holds it: modulo 2^64.
pub open spec fn wrapped(n: nat) -> u64 {
    (n % 0x1_0000_0000_0000_0000) as u64
}

/// The line that reports a failed deletion.
pub open spec fn error_line(target: Seq<char>, message: Seq<char>) -> Seq<char> {
    target + ": "@ + message
}

/// One line for each failed deletion, in the order of the targets.
pub open spec fn error_lines(targets: Seq<Seq<char>>, outcomes: Seq<Result<u64, String>>) -> Seq<
    Seq<char>,
>
    recommends
        targets.len() == outcomes.len(),
    decreases outcomes.len(),
{
    if outcomes.len() == 0 || targets.len() == 0 {
        Seq::<Seq<char>>::empty()
    } else {
        let before = error_lines(targets.drop_last(), outcomes.drop_last());
        match outcomes.last() {
            Ok(_) => before,
            Err(message) => before.push(error_line(targets.last(), message@)),
        }
    }
}

/// What deleting one directory comes to: the removal's error if it failed,
/// else the size that was measured before it, zero where measuring failed.
pub open spec fn deletion_outcome(probe: Result<u64, String>, removal: Result<(), String>) -> Result<
    u64,
    String,
> {
    match removal {
        Err(message) => Err(message),
        Ok(()) => match probe {
            Ok(bytes) => Ok(bytes),
            Err(_) => Ok(0u64),
        },
    }
}

/// Whether `pattern` occurs in `s`.
pub open spec fn has_subtext(s: Seq<char>, pattern: Seq<char>) -> bool {
    exists|i: int|
        0 <= i <= s.len() - pattern.len() && #[trigger] s.subrange(i, i + pattern.len())
            == pattern
}

/// Signs of a test harness around the process.
#[derive(Debug)]
pub struct TestSigns {
    /// The variable `CARGO_MANIFEST_DIR` is set.
    pub manifest_dir: bool,
    /// The variable `RUST_TEST` is set.
    pub rust_test: bool,
    /// The variable `CARGO_CRATE_NAME` is set.
    pub crate_name: bool,
    /// The arguments of the process.
    pub args: Vec<String>,
}

/// Whether the signs say that a test harness runs the process: the manifest
/// directory is set, and so is one of the two other variables or an argument
/// holds the word `test`.
pub open spec fn is_test_run(signs: TestSigns) -> bool {
    signs.manifest_dir && (signs.rust_test || signs.crate_name || exists|i: int|
        0 <= i < signs.args@.len() && has_subtext(#[trigger] signs.args@[i]@, "test"@))
}

/// Whether `wanted` stands in `text` at position `at`.
fn window_matches(text: &Vec<char>, wanted: &Vec<char>, at: usize) -> (r: bool)
    requires
        at + wanted.len() <= text.len(),
    ensures
        r == (text@.subrange(at as int, at + wanted@.len()) == wanted@),
{
    let ghost window = text@.subrange(at as int, at + wanted@.len());
    let mut j: usize = 0;
    while j < wanted.len()
        invariant
            at + wanted.len() <= text.len(),
            window == text@.subrange(at as int, at + wanted@.len()),
            j <= wanted.len(),
            window.take(j as int) == wanted@.take(j as int),
        decreases wanted.len() - j,
    {
        if text[at + j] != wanted[j] {
            assert(window[j as int] == text@[at + j]);
            return false;
        }
        proof {
            assert(window[j as int] == text@[at + j]);
            assert(window.take(j + 1) =~= window.take(j as int).push(window[j as int]));
            assert(wanted@.take(j + 1) =~= wanted@.take(j as int).push(wanted@[j as int]));
        }
        j = j + 1;
    }
    proof {
        assert(window.take(wanted.len() as int) =~= window);
        assert(wanted@.take(wanted.len() as int) =~= wanted@);
    }
    true
}

/// Whether `pattern` occurs in `s`.
pub fn contains_text(s: &str, pattern: &str) -> (r: bool)
    ensures
        r == has_subtext(s@, pattern@),
{
    let text = chars_of(s);
    let wanted = chars_of(pattern);
    if wanted.len() > text.len() {
        return false;
    }
    let last = text.len() - wanted.len();
    let mut i: usize = 0;
    while i < last
        invariant
            text@ == s@,
            wanted@ == pattern@,
            wanted.len() <= text.len(),
            last == text.len() - wanted.len(),
            i <= last,
            forall|k: int|
                0 <= k < i ==> #[trigger] text@.subrange(k, k + wanted@.len()) != wanted@,
        decreases last - i,
    {
        if window_matches(&text, &wanted, i) {
            return true;
        }
        i = i + 1;
    }
    window_matches(&text, &wanted, last)
}

/// The result of a batch of deletions.
#[derive(Debug)]
pub struct CleanupReport {
    /// The counts.
    pub stats: CleanupStats,
    /// One line for each deletion that failed: the path, a colon, the error.
    pub errors: Vec<String>,
}

/// Deletes directories on a pool of workers.
#[derive(Debug)]
pub struct Cleaner {
    threads: usize,
    show_progress: bool,
}

/// A batch of deletions that passed the safety check: every target has
/// `node_modules` as its terminal component.
#[derive(Debug)]
pub struct DeletionPlan {
    targets: Vec<String>,
    threads: usize,
    show_progress: bool,
}

impl Cleaner {
    /// The number of workers.
    pub closed spec fn worker_count(&self) -> usize {
        self.threads
    }

    /// Whether progress and a summary are shown.
    pub closed spec fn shows_progress(&self) -> bool {
        self.show_progress
    }

    /// A cleaner with the given number of workers, or else with as many as
    /// were detected. Under a test harness it shows no progress.
    pub fn configured(
        threads: Option<usize>,
        show_progress: bool,
        test_environment: bool,
        detected: usize,
    ) -> (cleaner: Self)
        ensures
            cleaner.worker_count() == match threads {
                Some(n) => n,
                None => detected,
            },
            cleaner.shows_progress() == (show_progress && !test_environment),
    {
        let threads = match threads {
            Some(n) => n,
            None => detected,
        };
        Cleaner { threads, show_progress: show_progress && !test_environment }
    }

    /// A cleaner with the given number of workers, or else with one for each
    /// logical CPU of the machine. Under a test harness it shows no progress.
    pub fn new(threads: Option<usize>, show_progress: bool, test_environment: bool) -> (cleaner:
        Self)
        ensures
            threads is Some ==> cleaner.worker_count() == threads->Some_0,
            cleaner.shows_progress() == (show_progress && !test_environment),
    {
        match threads {
            Some(_) => Cleaner::configured(threads, show_progress, test_environment, 0),
            None => Cleaner::configured(threads, show_progress, test_environment, logical_cpus()),
        }
    }

    /// The number of workers.
    pub fn threads(&self) -> (n: usize)
        ensures
            n == self.worker_count(),
    {
        self.threads
    }

    /// Whether progress and a summary are shown.
    pub fn show_progress(&self) -> (shown: bool)
        ensures
            shown == self.shows_progress(),
    {
        self.show_progress
    }

    /// Whether the signs say that a test harness runs the process.
    pub fn is_test_environment(signs: &TestSigns) -> (r: bool)
        ensures
            r == is_test_run(*signs),
    {
        if !signs.manifest_dir {
            return false;
        }
        if signs.rust_test || signs.crate_name {
            return true;
        }
        let mut i: usize = 0;
        while i < signs.args.len()
            invariant
                i <= signs.args.len(),
                signs.manifest_dir,
                forall|k: int| 0 <= k < i ==> !has_subtext(#[trigger] signs.args@[k]@, "test"@),
            decreases signs.args.len() - i,
        {
            if contains_text(signs.args[i].as_str(), "test") {
                assert(has_subtext(signs.args@[i as int]@, "test"@));
                return true;
            }
            i = i + 1;
        }
        false
    }

    /// Checks the targets and plans their deletion. A target whose terminal
    /// component is not `node_modules` fails the whole batch, before anything
    /// is deleted.
    pub fn delete_directories(&self, targets: Vec<String>) -> (r: Result<
        DeletionPlan,
        CleanupError,
    >)
        ensures
            match first_offender(texts(targets@)) {
                None => r is Ok && r->Ok_0.paths() == texts(targets@) && r->Ok_0.worker_count()
                    == self.worker_count() && r->Ok_0.shows_progress() == self.shows_progress(),
                Some(offender) => r is Err && r->Err_0 is UnsafeTarget
                    && r->Err_0->UnsafeTarget_path@ == offender,
            },
    {
        match validate_targets(targets.as_slice()) {
            Err(e) => Err(e),
            Ok(()) => Ok(
                DeletionPlan { targets, threads: self.threads, show_progress: self.show_progress },
            ),
        }
    }

    /// What deleting one directory comes to, from the size measured before
    /// the removal and the removal's result.
    pub fn delete_single_directory(probe: Result<u64, String>, removal: Result<(), String>) -> (r:
        Result<u64, String>)
        ensures
            r == deletion_outcome(probe, removal),
    {
        let size_before = match probe {
            Ok(bytes) => bytes,
            Err(_) => 0,
        };
        match removal {
            Err(message) => Err(message),
            Ok(()) => Ok(size_before),
        }
    }
}

impl DeletionPlan {
    #[verifier::type_invariant]
    spec fn safe(&self) -> bool {
        forall|i: int|
            0 <= i < self.targets@.len() ==> is_node_modules_dir(#[trigger] self.targets@[i]@)
    }

    /// The paths to delete.
    pub closed spec fn paths(&self) -> Seq<Seq<char>> {
        texts(self.targets@)
    }

    /// The number of workers.
    pub closed spec fn worker_count(&self) -> usize {
        self.threads
    }

    /// Whether progress and a summary are shown.
    pub closed spec fn shows_progress(&self) -> bool {
        self.show_progress
    }

    /// The paths to delete. Each has `node_modules` as its terminal
    /// component.
    pub fn targets(&self) -> (targets: &Vec<String>)
        ensures
            texts(targets@) == self.paths(),
            forall|i: int|
                0 <= i < targets@.len() ==> is_node_modules_dir(#[trigger] targets@[i]@),
    {
        proof {
            use_type_invariant(self);
        }
        &self.targets
    }

    /// The number of paths to delete.
    pub fn len(&self) -> (n: usize)
        ensures
            n == self.paths().len(),
    {
        self.targets.len()
    }

    /// Whether there is nothing to delete, so that no worker is needed.
    pub fn is_empty(&self) -> (r: bool)
        ensures
            r == (self.paths().len() == 0),
    {
        self.targets.len() == 0
    }

    /// The number of workers.
    pub fn threads(&self) -> (n: usize)
        ensures
            n == self.worker_count(),
    {
        self.threads
    }

    /// Whether progress and a summary are shown.
    pub fn show_progress(&self) -> (shown: bool)
        ensures
            shown == self.shows_progress(),
    {
        self.show_progress
    }

    /// Folds the outcomes of the deletions, one for each target and in the
    /// targets' order, into the statistics and the list of errors. The bytes
    /// add up as in a 64-bit accumulator.
    pub fn finish(self, outcomes: &[Result<u64, String>]) -> (report: CleanupReport)
        requires
            outcomes@.len() == self.paths().len(),
        ensures
            report.stats.directories_found == self.paths().len(),
            report.stats.directories_deleted == deleted_count(outcomes@),
            report.stats.directories_failed == failed_count(outcomes@),
            report.stats.directories_deleted + report.stats.directories_failed
                == report.stats.directories_found,
            report.stats.bytes_freed == wrapped(total_bytes(outcomes@)),
            texts(report.errors@) == error_lines(self.paths(), outcomes@),
    {
        let ghost paths = self.paths();
        let mut deleted: usize = 0;
        let mut failed: usize = 0;
        let mut bytes_freed: u64 = 0;
        let mut errors: Vec<String> = Vec::new();
        let n = outcomes.len();
        let mut i: usize = 0;
        proof {
            assert(outcomes@.take(0) =~= Seq::<Result<u64, String>>::empty());
            assert(texts(errors@) =~= error_lines(paths.take(0), outcomes@.take(0)));
        }
        while i < n
            invariant
                n == outcomes@.len(),
                n == self.targets@.len(),
                paths == texts(self.targets@),
                i <= n,
                deleted == deleted_count(outcomes@.take(i as int)),
                failed == failed_count(outcomes@.take(i as int)),
                deleted + failed == i,
                bytes_freed == wrapped(total_bytes(outcomes@.take(i as int))),
                texts(errors@) == error_lines(paths.take(i as int), outcomes@.take(i as int)),
            decreases n - i,
        {
            let ghost done = outcomes@.take(i as int);
            proof {
                assert(outcomes@.take(i + 1).drop_last() =~= done);
                assert(outcomes@.take(i + 1).last() == outcomes@[i as int]);
                assert(paths.take(i + 1).drop_last() =~= paths.take(i as int));
                assert(paths.take(i + 1).last() == self.targets@[i as int]@);
            }
            match &outcomes[i] {
                Ok(bytes) => {
                    deleted = deleted + 1;
                    proof {
                        let t = total_bytes(done) as int;
                        let b = *bytes as int;
                        assert((t % 0x1_0000_0000_0000_0000 + b) % 0x1_0000_0000_0000_0000 == (t
                            + b) % 0x1_0000_0000_0000_0000);
                    }
                    bytes_freed = bytes_freed.wrapping_add(*bytes);
                },
                Err(message) => {
                    failed = failed + 1;
                    let ghost before = texts(errors@);
                    let line = self.targets[i].clone().concat(": ").concat(message.as_str());
                    errors.push(line);
                    proof {
                        assert(texts(errors@) =~= before.push(line@));
                    }
                },
            }
            i = i + 1;
        }
        proof {
            assert(outcomes@.take(n as int) =~= outcomes@);
            assert(paths.take(n as int) =~= paths);
        }
        CleanupReport {
            stats: CleanupStats {
                directories_found: n,
                directories_deleted: deleted,
                directories_failed: failed,
                bytes_freed,
            },
            errors,
        }
    }
}


/// What kind of entry the walk below a directory came upon.
#[derive(Debug, Clone, Copy, PartialEq, Eq, Structural)]
pub enum EntryKind {
    /// A regular file.
    File,
    /// A symbolic link; the walk does not follow it.
    Symlink,
    /// A directory.
    Directory,
    /// Anything else.
    Other,
}

/// One thing that the walk below a directory came upon while its size was
/// measured.
#[derive(Debug)]
pub enum SizeItem {
    /// An entry, with its own length in bytes.
    Entry { kind: EntryKind, len: u64 },
    /// An entry that could not be read.
    Failure { message: String },
}

/// The bytes that an item adds to the size of its directory: the length of
/// a regular file, and that of a symbolic link itself, not of what it points
/// to.
pub open spec fn item_bytes(item: SizeItem) -> nat {
    match item {
        SizeItem::Entry { kind, len } => if kind == EntryKind::File || kind == EntryKind::Symlink {
            len as nat
        } else {
            0nat
        },
        SizeItem::Failure { .. } => 0nat,
    }
}

/// The sum of the bytes that the items add.
pub open spec fn files_bytes(items: Seq<SizeItem>) -> nat
    decreases items.len(),
{
    if items.len() == 0 {
        0
    } else {
        files_bytes(items.drop_last()) + item_bytes(items.last())
    }
}

/// The message of the first failure among the items, if there is one.
pub open spec fn first_size_failure(items: Seq<SizeItem>) -> Option<Seq<char>>
    decreases items.len(),
{
    if items.len() == 0 {
        None
    } else {
        match items.last() {
            SizeItem::Failure { message } => match first_size_failure(items.drop_last()) {
                Some(earlier) => Some(earlier),
                None => Some(message@),
            },
            SizeItem::Entry { .. } => first_size_failure(items.drop_last()),
        }
    }
}

/// The size of a directory from what the walk below it came upon: the sum of
/// the lengths of the regular files and of the symbolic links, as a 64-bit
/// accumulator holds it. The first failure of the walk fails the measurement.
pub fn calculate_directory_size(items: &[SizeItem]) -> (r: Result<u64, String>)
    ensures
        match first_size_failure(items@) {
            Some(message) => r is Err && r->Err_0@ == message,
            None => r == Ok::<u64, String>(wrapped(files_bytes(items@))),
        },
{
    let mut total_size: u64 = 0;
    let mut i: usize = 0;
    proof {
        assert(items@.take(0) =~= Seq::<SizeItem>::empty());
    }
    while i < items.len()
        invariant
            i <= items.len(),
            first_size_failure(items@.take(i as int)) is None,
            total_size == wrapped(files_bytes(items@.take(i as int))),
        decreases items.len() - i,
    {
        proof {
            assert(items@.take(i + 1).drop_last() =~= items@.take(i as int));
            assert(items@.take(i + 1).last() == items@[i as int]);
        }
        match &items[i] {
            SizeItem::Failure { message } => {
                proof {
                    lemma_first_size_failure_stays(items@, i + 1);
                }
                return Err(message.clone());
            },
            SizeItem::Entry { kind, len } => {
                if *kind == EntryKind::File || *kind == EntryKind::Symlink {
                    proof {
                        let t = files_bytes(items@.take(i as int)) as int;
                        let b = *len as int;
                        assert((t % 0x1_0000_0000_0000_0000 + b) % 0x1_0000_0000_0000_0000 == (t
                            + b) % 0x1_0000_0000_0000_0000);
                    }
                    total_size = total_size.wrapping_add(*len);
                }
            },
        }
        i = i + 1;
    }
    proof {
        assert(items@.take(items.len() as int) =~= items@);
    }
    Ok(total_size)
}

/// A failure among the first `k` items is the first failure of them all.
pub proof fn lemma_first_size_failure_stays(items: Seq<SizeItem>, k: int)
    requires
        0 <= k <= items.len(),
        first_size_failure(items.take(k)) is Some,
    ensures
        first_size_failure(items) == first_size_failure(items.take(k)),
    decreases items.len() - k,
{
    if k < items.len() {
        assert(items.take(k + 1).drop_last() =~= items.take(k));
        lemma_first_size_failure_stays(items, k + 1);
    } else {
        assert(items.take(k) =~= items);
    }
}

/// Every deletion either succeeded or failed.
pub proof fn lemma_counts_add_up(outcomes: Seq<Result<u64, String>>)
    ensures
        deleted_count(outcomes) + failed_count(outcomes) == outcomes.len(),
    decreases outcomes.len(),
{
    if outcomes.len() > 0 {
        lemma_counts_add_up(outcomes.drop_last());
    }
}

/// The bytes freed are the sum of the sizes measured before the deletions
/// that succeeded, as long as that sum fits in 64 bits. A size that could not
/// be measured counts as zero.
pub proof fn lemma_bytes_freed(outcomes: Seq<Result<u64, String>>)
    requires
        total_bytes(outcomes) <= u64::MAX,
    ensures
        wrapped(total_bytes(outcomes)) == total_bytes(outcomes),
        forall|message: String|
            deletion_outcome(Err(message), Ok(())) == Ok::<u64, String>(0),
{
}

/// The lines of the summary of a batch: the counts, the failures where there
/// are any, the space freed where it is not zero.
pub open spec fn summary_lines(stats: CleanupStats) -> Seq<Seq<char>> {
    seq![
        "\n🧹 Cleanup Summary:"@,
        "  Directories found: "@ + decimal(stats.directories_found as nat),
        "  Successfully deleted: "@ + decimal(stats.directories_deleted as nat),
    ] + (if stats.directories_failed > 0 {
        seq!["  Failed to delete: "@ + decimal(stats.directories_failed as nat)]
    } else {
        Seq::<Seq<char>>::empty()
    }) + (if stats.bytes_freed > 0 {
        seq!["  Space freed: "@ + formatted_bytes(stats.bytes_freed as nat)]
    } else {
        Seq::<Seq<char>>::empty()
    })
}

/// The lines of the summary of a batch, for the caller to print.
pub fn print_cleanup_summary(stats: &CleanupStats) -> (lines: Vec<String>)
    ensures
        texts(lines@) == summary_lines(*stats),
{
    let mut lines: Vec<String> = Vec::new();
    lines.push(String::from_str("\n🧹 Cleanup Summary:"));
    lines.push(
        String::from_str("  Directories found: ").concat(
            decimal_text(stats.directories_found as u128).as_str(),
        ),
    );
    lines.push(
        String::from_str("  Successfully deleted: ").concat(
            decimal_text(stats.directories_deleted as u128).as_str(),
        ),
    );
    if stats.directories_failed > 0 {
        lines.push(
            String::from_str("  Failed to delete: ").concat(
                decimal_text(stats.directories_failed as u128).as_str(),
            ),
        );
    }
    if stats.bytes_freed > 0 {
        lines.push(
            String::from_str("  Space freed: ").concat(format_bytes(stats.bytes_freed).as_str()),
        );
    }
    proof {
        assert(texts(lines@) =~= summary_lines(*stats));
    }
    lines
}

/// The lines that list the failures of a batch; none where nothing failed.
pub open spec fn error_report(errors: Seq<Seq<char>>) -> Seq<Seq<char>> {
    if errors.len() == 0 {
        Seq::<Seq<char>>::empty()
    } else {
        seq!["\nErrors encountered:"@] + Seq::new(errors.len(), |i: int| "  "@ + errors[i])
    }
}

/// The lines that list the failures of a batch, for the caller to print.
pub fn error_report_lines(errors: &[String]) -> (lines: Vec<String>)
    ensures
        texts(lines@) == error_report(texts(errors@)),
{
    let mut lines: Vec<String> = Vec::new();
    if errors.len() == 0 {
        proof {
            assert(texts(lines@) =~= error_report(texts(errors@)));
        }
        return lines;
    }
    lines.push(String::from_str("\nErrors encountered:"));
    let mut i: usize = 0;
    while i < errors.len()
        invariant
            i <= errors.len(),
            lines@.len() == i + 1,
            lines@[0]@ == "\nErrors encountered:"@,
            forall|k: int| 0 <= k < i ==> (#[trigger] lines@[k + 1])@ == "  "@ + errors@[k]@,
        decreases errors.len() - i,
    {
        lines.push(String::from_str("  ").concat(errors[i].as_str()));
        i = i + 1;
    }
    proof {
        let want = error_report(texts(errors@));
        assert(texts(lines@).len() == want.len());
        assert forall|k: int| 0 <= k < want.len() implies texts(lines@)[k] == want[k] by {
            if k > 0 {
                assert(lines@[(k - 1) + 1]@ == "  "@ + errors@[k - 1]@);
            }
        }
        assert(texts(lines@) =~= want);
    }
    lines
}

} // verus!
