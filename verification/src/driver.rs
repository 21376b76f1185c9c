//! The decisions of a run: what follows the scan, and what follows the
//! user's answer. Scanning, asking and deleting are the caller's.

use crate::cleaner::{deleted_count, failed_count, lemma_counts_add_up};
use crate::cli::{display_name, shown_name};
use crate::path::has_root;
use crate::patterns::{accepted, copy_texts, diagnostics, texts};
use crate::scanner::{
    first_failure, first_offender, is_node_modules_dir, is_target_path, lemma_first_offender,
    lemma_scan_outcome, scan_outcome, Scanner, WalkItem,
};
use crate::text::{decimal, decimal_text};
use crate::{CleanupError, CleanupStats, Config};
use vstd::prelude::*;
use vstd::string::StringExecFns;

verus! {

/// What a run does next.
#[derive(Debug)]
pub enum NextStep {
    /// Stop, with these statistics.
    Finish(CleanupStats),
    /// Ask the user whether to delete.
    Confirm,
    /// Check the targets and delete them.
    Delete,
}

/// The statistics of a run that found directories and deleted none.
pub open spec fn found_only(found: usize) -> CleanupStats {
    CleanupStats {
        directories_found: found,
        directories_deleted: 0,
        directories_failed: 0,
        bytes_freed: 0,
    }
}

/// What follows a scan that found `found` directories: nothing where none
/// was found; in a dry run only the count; the question, unless the run is
/// quiet or asks for none; else the deletion.
pub open spec fn step_after_scan(config: Config, found: usize) -> NextStep {
    if found == 0 {
        NextStep::Finish(found_only(0))
    } else if config.dry_run {
        NextStep::Finish(found_only(found))
    } else if !config.no_confirm && !config.quiet {
        NextStep::Confirm
    } else {
        NextStep::Delete
    }
}

/// What follows the user's answer: the deletion after a yes, and after a no
/// what a dry run gives.
pub open spec fn step_after_answer(found: usize, confirmed: bool) -> NextStep {
    if confirmed {
        NextStep::Delete
    } else {
        NextStep::Finish(found_only(found))
    }
}

/// Decides what follows a scan that found `found` directories.
pub fn after_scan(config: &Config, found: usize) -> (step: NextStep)
    ensures
        step == step_after_scan(*config, found),
{
    if found == 0 {
        NextStep::Finish(CleanupStats::default())
    } else if config.dry_run {
        NextStep::Finish(
            CleanupStats {
                directories_found: found,
                directories_deleted: 0,
                directories_failed: 0,
                bytes_freed: 0,
            },
        )
    } else if !config.no_confirm && !config.quiet {
        NextStep::Confirm
    } else {
        NextStep::Delete
    }
}

/// Decides what follows the user's answer to the question whether to delete
/// the `found` directories.
pub fn after_answer(found: usize, confirmed: bool) -> (step: NextStep)
    ensures
        step == step_after_answer(found, confirmed),
{
    if confirmed {
        NextStep::Delete
    } else {
        NextStep::Finish(
            CleanupStats {
                directories_found: found,
                directories_deleted: 0,
                directories_failed: 0,
                bytes_freed: 0,
            },
        )
    }
}

/// A dry run, and a run that the user declines, report the directories found
/// and nothing else. The count is the one that a run which deletes starts
/// from, whatever the other options are.
pub proof fn lemma_dry_run_reports_found(config: Config, other: Config, found: usize)
    requires
        config.dry_run,
        found > 0,
    ensures
        step_after_scan(config, found) == NextStep::Finish(found_only(found)),
        step_after_answer(found, false) == step_after_scan(config, found),
        found_only(found).directories_found == found,
        found_only(found).directories_deleted == 0,
        found_only(found).directories_failed == 0,
        found_only(found).bytes_freed == 0,
        !other.dry_run ==> step_after_scan(other, found) is Confirm || step_after_scan(
            other,
            found,
        ) is Delete,
{
}

/// What a scan selects passes the safety check that stands before every
/// deletion.
pub proof fn lemma_scan_passes_safety_check(
    root: Seq<char>,
    items: Seq<WalkItem>,
    patterns: Seq<Seq<char>>,
)
    requires
        has_root(root),
        first_failure(items) is None,
    ensures
        scan_outcome(root, items, patterns) is Ok,
        first_offender(scan_outcome(root, items, patterns)->Ok_0) is None,
{
    let paths = scan_outcome(root, items, patterns)->Ok_0;
    lemma_scan_outcome(root, items, patterns);
    lemma_first_offender(paths);
    assert forall|i: int| 0 <= i < paths.len() implies is_node_modules_dir(
        #[trigger] paths[i],
    ) by {
        assert(is_target_path(root, paths[i], patterns));
    }
}

/// The count that a dry run reports is the number of directories that a run
/// which deletes hands to its workers; where every deletion succeeds, it is
/// the number of directories deleted.
pub proof fn lemma_dry_run_counts_deletions(
    config: Config,
    root: Seq<char>,
    items: Seq<WalkItem>,
    patterns: Seq<Seq<char>>,
    outcomes: Seq<Result<u64, String>>,
)
    requires
        config.dry_run,
        has_root(root),
        first_failure(items) is None,
        scan_outcome(root, items, patterns)->Ok_0.len() <= usize::MAX,
        outcomes.len() == scan_outcome(root, items, patterns)->Ok_0.len(),
        failed_count(outcomes) == 0,
    ensures
        step_after_scan(config, outcomes.len() as usize) is Finish,
        step_after_scan(config, outcomes.len() as usize)->Finish_0.directories_found
            == deleted_count(outcomes),
{
    lemma_counts_add_up(outcomes);
}

/// The lines that report a scan: that nothing was found, or the count, in a
/// dry run a notice, the directories and an empty line. None in quiet mode.
pub open spec fn scan_report_lines(quiet: bool, dry_run: bool, targets: Seq<Seq<char>>) -> Seq<
    Seq<char>,
> {
    if quiet {
        Seq::<Seq<char>>::empty()
    } else if targets.len() == 0 {
        seq!["No node_modules directories found."@]
    } else {
        seq!["Found "@ + decimal(targets.len()) + " node_modules directories"@] + (if dry_run {
            seq!["DRY RUN - would delete:"@]
        } else {
            Seq::<Seq<char>>::empty()
        }) + Seq::new(targets.len(), |k: int| "  "@ + shown_name(targets[k])) + seq![""@]
    }
}

/// The lines that report a scan, for the caller to print.
pub fn scan_report(config: &Config, targets: &[String]) -> (lines: Vec<String>)
    ensures
        texts(lines@) == scan_report_lines(config.quiet, config.dry_run, texts(targets@)),
{
    let ghost all = texts(targets@);
    let mut lines: Vec<String> = Vec::new();
    if config.quiet {
        proof {
            assert(texts(lines@) =~= Seq::<Seq<char>>::empty());
        }
        return lines;
    }
    if targets.len() == 0 {
        lines.push(String::from_str("No node_modules directories found."));
        proof {
            assert(texts(lines@) =~= seq!["No node_modules directories found."@]);
        }
        return lines;
    }
    lines.push(
        String::from_str("Found ").concat(decimal_text(targets.len() as u128).as_str()).concat(
            " node_modules directories",
        ),
    );
    if config.dry_run {
        lines.push(String::from_str("DRY RUN - would delete:"));
    }
    let ghost head = texts(lines@);
    let mut i: usize = 0;
    proof {
        assert(texts(lines@) =~= head + Seq::new(0, |k: int| "  "@ + shown_name(all[k])));
    }
    while i < targets.len()
        invariant
            i <= targets.len(),
            all == texts(targets@),
            texts(lines@) == head + Seq::new(i as nat, |k: int| "  "@ + shown_name(all[k])),
        decreases targets.len() - i,
    {
        let ghost before = texts(lines@);
        let line = String::from_str("  ").concat(display_name(targets[i].as_str()).as_str());
        lines.push(line);
        proof {
            assert(texts(lines@) =~= before.push(line@));
            assert(Seq::new((i + 1) as nat, |k: int| "  "@ + shown_name(all[k])) =~= Seq::new(
                i as nat,
                |k: int| "  "@ + shown_name(all[k]),
            ).push("  "@ + shown_name(all[i as int])));
        }
        i = i + 1;
    }
    let ghost before = texts(lines@);
    lines.push(String::from_str(""));
    proof {
        assert(texts(lines@) =~= before.push(""@));
        assert(texts(lines@) =~= scan_report_lines(config.quiet, config.dry_run, all));
    }
    lines
}


/// What a scan found and what follows it.
#[derive(Debug)]
pub struct ScanReport {
    /// The directories to delete, sorted.
    pub targets: Vec<String>,
    /// One line for each exclusion pattern that did not compile.
    pub warnings: Vec<String>,
    /// The lines that report the scan.
    pub report: Vec<String>,
    /// What the run does next.
    pub next: NextStep,
}

/// The first part of a run, from what the walk below `root_path` came upon:
/// the directories to delete, the lines to print, and what follows. A root
/// that is not absolute, and a failure of the walk, fail the run. Asking the
/// user and deleting are the caller's; see `after_answer` and `Cleaner`.
pub fn cleanup_node_modules(root_path: &str, config: &Config, walked: &[WalkItem]) -> (r: Result<
    ScanReport,
    CleanupError,
>)
    ensures
        match scan_outcome(root_path@, walked@, accepted(texts(config.exclude_patterns@))) {
            Ok(paths) => r is Ok && texts(r->Ok_0.targets@) == paths && r->Ok_0.next
                == step_after_scan(*config, r->Ok_0.targets@.len() as usize) && texts(
                r->Ok_0.report@,
            ) == scan_report_lines(config.quiet, config.dry_run, paths) && texts(
                r->Ok_0.warnings@,
            ) == diagnostics(texts(config.exclude_patterns@)),
            Err(message) => r is Err && r->Err_0.text() == message && if has_root(root_path@) {
                r->Err_0 is ScanFailed
            } else {
                r->Err_0 is RelativeRoot && r->Err_0->RelativeRoot_root@ == root_path@
            },
        },
{
    let scanner = Scanner::new(root_path, config.exclude_patterns.as_slice());
    let warnings = copy_texts(scanner.warnings());
    match scanner.find_node_modules_dirs(walked) {
        Err(e) => Err(e),
        Ok(targets) => {
            let report = scan_report(config, targets.as_slice());
            let next = after_scan(config, targets.len());
            Ok(ScanReport { targets, warnings, report, next })
        },
    }
}

} // verus!
