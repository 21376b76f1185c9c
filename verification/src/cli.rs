//! What the command line says and shows: the options, and the lines of the
//! banner, the listings and the summary. Reading the arguments and printing
//! are the caller's.

use crate::cleaner::logical_cpus;
use crate::format::{format_bytes, formatted_bytes};
use crate::path::{chars_of, has_root, is_absolute, is_separator, parent_of, parent_text};
use crate::patterns::{copy_texts, texts};
use crate::text::{decimal, decimal_text};
use crate::{CleanupStats, Config};
use vstd::prelude::*;
use vstd::string::StringExecFns;

verus! {

/// The options of the command line.
#[derive(Debug)]
pub struct Cli {
    /// The directory to scan; the current directory where it is absent.
    pub path: Option<String>,
    /// Patterns to exclude from deletion.
    pub exclude_patterns: Vec<String>,
    /// Show what would be deleted, and delete nothing.
    pub dry_run: bool,
    /// Do not ask before deleting.
    pub no_confirm: bool,
    /// Print nothing but errors.
    pub quiet: bool,
    /// The number of worker threads.
    pub threads: Option<usize>,
    /// List each directory in detail.
    pub verbose: bool,
}

/// The most directories that the question before a deletion lists.
pub const MAX_DISPLAY: usize = 10;

/// The name under which a directory to delete is shown: its parent, or the
/// path itself where it has none.
pub open spec fn shown_name(path: Seq<char>) -> Seq<char> {
    match parent_text(path) {
        Some(parent) => parent,
        None => path,
    }
}

/// The name under which a directory to delete is shown.
pub fn display_name(path: &str) -> (name: String)
    ensures
        name@ == shown_name(path@),
{
    match parent_of(path) {
        Some(parent) => parent,
        None => path.to_owned(),
    }
}

/// `path` below `dir`: the two with one separator between them; `path`
/// alone where `dir` is empty.
pub open spec fn joined(dir: Seq<char>, path: Seq<char>) -> Seq<char> {
    if dir.len() == 0 {
        path
    } else if is_separator(dir.last()) {
        dir + path
    } else {
        dir + "/"@ + path
    }
}

/// The root of a scan, from the path given on the command line and the
/// current directory, as far as each is known.
pub open spec fn root_text(path: Option<Seq<char>>, current_dir: Option<Seq<char>>) -> Seq<char> {
    match path {
        Some(p) => match current_dir {
            Some(d) => if has_root(p) {
                p
            } else {
                joined(d, p)
            },
            None => p,
        },
        None => match current_dir {
            Some(d) => d,
            None => "."@,
        },
    }
}

/// Puts `path` below `dir`.
pub fn join_paths(dir: String, path: &str) -> (r: String)
    ensures
        r@ == joined(dir@, path@),
        has_root(dir@) ==> has_root(r@),
{
    let chars = chars_of(dir.as_str());
    if chars.len() == 0 {
        path.to_owned()
    } else if chars[chars.len() - 1] == '/' {
        dir.concat(path)
    } else {
        dir.concat("/").concat(path)
    }
}

impl Cli {
    /// The configuration of the run that the options ask for.
    pub fn to_config(&self) -> (config: Config)
        ensures
            config.exclude_patterns@ == self.exclude_patterns@,
            config.dry_run == self.dry_run,
            config.no_confirm == self.no_confirm,
            config.quiet == self.quiet,
            config.threads == self.threads,
    {
        Config {
            exclude_patterns: copy_texts(&self.exclude_patterns),
            dry_run: self.dry_run,
            no_confirm: self.no_confirm,
            quiet: self.quiet,
            threads: self.threads,
        }
    }

    /// The root to scan: the path given, made absolute from the current
    /// directory where it is relative and that directory is known; without a
    /// path the current directory, or `.` where that is not known.
    pub fn get_root_path(&self, current_dir: Option<String>) -> (root: String)
        ensures
            root@ == root_text(
                match self.path {
                    Some(path) => Some(path@),
                    None => None,
                },
                match current_dir {
                    Some(dir) => Some(dir@),
                    None => None,
                },
            ),
            current_dir is Some && has_root(current_dir->Some_0@) ==> has_root(root@),
    {
        match &self.path {
            Some(path) => match current_dir {
                Some(dir) => {
                    if is_absolute(path.as_str()) {
                        path.clone()
                    } else {
                        join_paths(dir, path.as_str())
                    }
                },
                None => path.clone(),
            },
            None => match current_dir {
                Some(dir) => dir,
                None => String::from_str("."),
            },
        }
    }

    /// The lines of the banner, for the caller to print; none in quiet mode.
    pub fn print_banner(&self) -> (lines: Vec<String>)
        ensures
            texts(lines@) == banner_lines(self.quiet, self.dry_run),
    {
        let mut lines: Vec<String> = Vec::new();
        if !self.quiet {
            lines.push(String::from_str("🧹 nuke-node-modules"));
            lines.push(String::from_str("A fast, multi-threaded node_modules cleanup tool"));
            if self.dry_run {
                lines.push(String::from_str("🔍 DRY RUN MODE - No files will be deleted"));
            }
            lines.push(String::from_str(""));
        }
        proof {
            assert(texts(lines@) =~= banner_lines(self.quiet, self.dry_run));
        }
        lines
    }

    /// The lines that say what is scanned and how, for the caller to print;
    /// none in quiet mode. Where no number of workers is asked for, the lines
    /// name the number of logical CPUs of the machine.
    pub fn print_scan_info(&self, root_path: &str) -> (lines: Vec<String>)
        ensures
            exists|detected: usize|
                texts(lines@) == #[trigger] scan_info_lines(
                    self.quiet,
                    root_path@,
                    texts(self.exclude_patterns@),
                    self.threads,
                    detected,
                ),
    {
        let detected = match self.threads {
            Some(_) => 0,
            None => logical_cpus(),
        };
        self.scan_info(root_path, detected)
    }

    /// The lines that say what is scanned and how; none in quiet mode.
    /// `detected` is the number of workers used where none is asked for.
    pub fn scan_info(&self, root_path: &str, detected: usize) -> (lines: Vec<String>)
        ensures
            texts(lines@) == scan_info_lines(
                self.quiet,
                root_path@,
                texts(self.exclude_patterns@),
                self.threads,
                detected,
            ),
    {
        let mut lines: Vec<String> = Vec::new();
        if self.quiet {
            proof {
                assert(texts(lines@) =~= Seq::<Seq<char>>::empty());
            }
            return lines;
        }
        lines.push(String::from_str("📁 Scanning from: ").concat(root_path));
        let ghost patterns = texts(self.exclude_patterns@);
        if self.exclude_patterns.len() > 0 {
            lines.push(String::from_str("🚫 Exclude patterns:"));
            let mut i: usize = 0;
            while i < self.exclude_patterns.len()
                invariant
                    i <= self.exclude_patterns.len(),
                    patterns == texts(self.exclude_patterns@),
                    texts(lines@) == seq!["📁 Scanning from: "@ + root_path@, "🚫 Exclude patterns:"@]
                        + Seq::new(i as nat, |k: int| "  - "@ + patterns[k]),
                decreases self.exclude_patterns.len() - i,
            {
                let ghost before = texts(lines@);
                let line = String::from_str("  - ").concat(self.exclude_patterns[i].as_str());
                lines.push(line);
                proof {
                    assert(texts(lines@) =~= before.push(line@));
                    assert(Seq::new((i + 1) as nat, |k: int| "  - "@ + patterns[k]) =~= Seq::new(
                        i as nat,
                        |k: int| "  - "@ + patterns[k],
                    ).push("  - "@ + patterns[i as int]));
                }
                i = i + 1;
            }
        }
        let ghost before = texts(lines@);
        let threads_line = match self.threads {
            Some(threads) => String::from_str("⚡ Using ").concat(
                decimal_text(threads as u128).as_str(),
            ).concat(" threads"),
            None => String::from_str("⚡ Using ").concat(
                decimal_text(detected as u128).as_str(),
            ).concat(" threads (auto-detected)"),
        };
        lines.push(threads_line);
        lines.push(String::from_str(""));
        proof {
            assert(texts(lines@) =~= before.push(threads_line@).push(""@));
            assert(texts(lines@) =~= scan_info_lines(
                self.quiet,
                root_path@,
                patterns,
                self.threads,
                detected,
            ));
        }
        lines
    }
}

/// The lines of the banner.
pub open spec fn banner_lines(quiet: bool, dry_run: bool) -> Seq<Seq<char>> {
    if quiet {
        Seq::<Seq<char>>::empty()
    } else if dry_run {
        seq![
            "🧹 nuke-node-modules"@,
            "A fast, multi-threaded node_modules cleanup tool"@,
            "🔍 DRY RUN MODE - No files will be deleted"@,
            ""@,
        ]
    } else {
        seq!["🧹 nuke-node-modules"@, "A fast, multi-threaded node_modules cleanup tool"@, ""@]
    }
}

/// The lines that say what is scanned and how.
pub open spec fn scan_info_lines(
    quiet: bool,
    root: Seq<char>,
    patterns: Seq<Seq<char>>,
    threads: Option<usize>,
    detected: usize,
) -> Seq<Seq<char>> {
    if quiet {
        Seq::<Seq<char>>::empty()
    } else {
        seq!["📁 Scanning from: "@ + root] + (if patterns.len() > 0 {
            seq!["🚫 Exclude patterns:"@] + Seq::new(patterns.len(), |k: int| "  - "@ + patterns[k])
        } else {
            Seq::<Seq<char>>::empty()
        }) + seq![
            match threads {
                Some(n) => "⚡ Using "@ + decimal(n as nat) + " threads"@,
                None => "⚡ Using "@ + decimal(detected as nat) + " threads (auto-detected)"@,
            },
            ""@,
        ]
    }
}


/// The question that is asked before a deletion.
pub const CONFIRM_PROMPT: &'static str = "Are you sure you want to delete these directories?";

/// The line of the directory at position `k` in a numbered listing.
pub open spec fn numbered_line(k: int, path: Seq<char>) -> Seq<char> {
    "  "@ + decimal((k + 1) as nat) + ". "@ + shown_name(path)
}

/// The lines shown before the question: the count, the first ten
/// directories, how many more there are, and an empty line.
pub open spec fn confirmation_lines(targets: Seq<Seq<char>>) -> Seq<Seq<char>> {
    let shown = if targets.len() > MAX_DISPLAY {
        MAX_DISPLAY as nat
    } else {
        targets.len()
    };
    seq!["Found "@ + decimal(targets.len()) + " node_modules directories:"@] + Seq::new(
        shown,
        |k: int| numbered_line(k, targets[k]),
    ) + (if targets.len() > MAX_DISPLAY {
        seq!["  ... and "@ + decimal((targets.len() - MAX_DISPLAY) as nat) + " more"@]
    } else {
        Seq::<Seq<char>>::empty()
    }) + seq![""@]
}

/// The lines shown before the question whether to delete `targets`. Asking
/// the question, with no as the default answer, is the caller's.
pub fn confirm_deletion(targets: &[String]) -> (lines: Vec<String>)
    ensures
        texts(lines@) == confirmation_lines(texts(targets@)),
{
    let ghost all = texts(targets@);
    let n = targets.len();
    let shown = if n > MAX_DISPLAY {
        MAX_DISPLAY
    } else {
        n
    };
    let mut lines: Vec<String> = Vec::new();
    let head = String::from_str("Found ").concat(decimal_text(n as u128).as_str()).concat(
        " node_modules directories:",
    );
    lines.push(head);
    let mut i: usize = 0;
    proof {
        assert(texts(lines@) =~= seq![head@] + Seq::new(0, |k: int| numbered_line(k, all[k])));
    }
    while i < shown
        invariant
            i <= shown <= n,
            n == targets@.len(),
            all == texts(targets@),
            texts(lines@) == seq![head@] + Seq::new(i as nat, |k: int| numbered_line(k, all[k])),
        decreases shown - i,
    {
        let ghost before = texts(lines@);
        let line = String::from_str("  ").concat(decimal_text(i as u128 + 1).as_str()).concat(
            ". ",
        ).concat(display_name(targets[i].as_str()).as_str());
        lines.push(line);
        proof {
            assert(line@ == numbered_line(i as int, all[i as int]));
            assert(texts(lines@) =~= before.push(line@));
            assert(Seq::new((i + 1) as nat, |k: int| numbered_line(k, all[k])) =~= Seq::new(
                i as nat,
                |k: int| numbered_line(k, all[k]),
            ).push(numbered_line(i as int, all[i as int])));
        }
        i = i + 1;
    }
    let ghost before = texts(lines@);
    if n > MAX_DISPLAY {
        let more = String::from_str("  ... and ").concat(
            decimal_text((n - MAX_DISPLAY) as u128).as_str(),
        ).concat(" more");
        lines.push(more);
        lines.push(String::from_str(""));
        proof {
            assert(texts(lines@) =~= before.push(more@).push(""@));
        }
    } else {
        lines.push(String::from_str(""));
        proof {
            assert(texts(lines@) =~= before.push(""@));
        }
    }
    proof {
        assert(texts(lines@) =~= confirmation_lines(all));
    }
    lines
}

/// The lines of one directory in the detailed listing: its number and name,
/// when it was last modified where that is known, how many items it holds
/// where that is known and not zero, and an empty line.
pub open spec fn verbose_lines(
    index: usize,
    target: Seq<char>,
    modified: Option<Seq<char>>,
    item_count: Option<usize>,
) -> Seq<Seq<char>> {
    seq![decimal((index + 1) as nat) + ". "@ + shown_name(target)] + (match modified {
        Some(when) => seq!["   Last modified: "@ + when],
        None => Seq::<Seq<char>>::empty(),
    }) + (match item_count {
        Some(count) => if count > 0 {
            seq!["   Contains ~"@ + decimal(count as nat) + " items"@]
        } else {
            Seq::<Seq<char>>::empty()
        },
        None => Seq::<Seq<char>>::empty(),
    }) + seq![""@]
}

/// The lines of one directory in the detailed listing.
pub fn verbose_entry(
    index: usize,
    target: &str,
    modified: Option<&str>,
    item_count: Option<usize>,
) -> (lines: Vec<String>)
    ensures
        texts(lines@) == verbose_lines(
            index,
            target@,
            match modified {
                Some(when) => Some(when@),
                None => None,
            },
            item_count,
        ),
{
    let mut lines: Vec<String> = Vec::new();
    lines.push(
        decimal_text(index as u128 + 1).concat(". ").concat(display_name(target).as_str()),
    );
    match modified {
        Some(when) => {
            lines.push(String::from_str("   Last modified: ").concat(when));
        },
        None => {},
    }
    match item_count {
        Some(count) => {
            if count > 0 {
                lines.push(
                    String::from_str("   Contains ~").concat(
                        decimal_text(count as u128).as_str(),
                    ).concat(" items"),
                );
            }
        },
        None => {},
    }
    lines.push(String::from_str(""));
    proof {
        assert(texts(lines@) =~= verbose_lines(
            index,
            target@,
            match modified {
                Some(when) => Some(when@),
                None => None,
            },
            item_count,
        ));
    }
    lines
}

/// The line that says how the run went.
pub open spec fn outcome_line(dry_run: bool, stats: CleanupStats) -> Seq<char> {
    if dry_run {
        "🔍 Dry run completed - no files were deleted"@
    } else if stats.directories_deleted > 0 {
        "✅ Cleanup completed successfully!"@
    } else if stats.directories_found == 0 {
        "ℹ️  No node_modules directories found"@
    } else {
        "⚠️  Cleanup completed with some issues"@
    }
}

/// The lines that close a run: how it went and, where directories were
/// found, the counts. None in quiet mode.
pub open spec fn closing_lines(quiet: bool, dry_run: bool, stats: CleanupStats) -> Seq<Seq<char>> {
    if quiet {
        Seq::<Seq<char>>::empty()
    } else if stats.directories_found == 0 {
        seq![outcome_line(dry_run, stats)]
    } else {
        seq![
            outcome_line(dry_run, stats),
            ""@,
            "📊 Final Summary:"@,
            "   Found: "@ + decimal(stats.directories_found as nat),
        ] + (if dry_run {
            seq!["   Would delete: "@ + decimal(stats.directories_found as nat)]
        } else {
            seq!["   Deleted: "@ + decimal(stats.directories_deleted as nat)] + (if stats.directories_failed
                > 0 {
                seq!["   Failed: "@ + decimal(stats.directories_failed as nat)]
            } else {
                Seq::<Seq<char>>::empty()
            }) + (if stats.bytes_freed > 0 {
                seq!["   Space freed: "@ + formatted_bytes(stats.bytes_freed as nat)]
            } else {
                Seq::<Seq<char>>::empty()
            })
        })
    }
}

/// The lines that close a run, for the caller to print.
pub fn closing_summary(config: &Config, stats: &CleanupStats) -> (lines: Vec<String>)
    ensures
        texts(lines@) == closing_lines(config.quiet, config.dry_run, *stats),
{
    let mut lines: Vec<String> = Vec::new();
    if !config.quiet {
        if config.dry_run {
            lines.push(String::from_str("🔍 Dry run completed - no files were deleted"));
        } else if stats.directories_deleted > 0 {
            lines.push(String::from_str("✅ Cleanup completed successfully!"));
        } else if stats.directories_found == 0 {
            lines.push(String::from_str("ℹ️  No node_modules directories found"));
        } else {
            lines.push(String::from_str("⚠️  Cleanup completed with some issues"));
        }
        if stats.directories_found > 0 {
            lines.push(String::from_str(""));
            lines.push(String::from_str("📊 Final Summary:"));
            lines.push(
                String::from_str("   Found: ").concat(
                    decimal_text(stats.directories_found as u128).as_str(),
                ),
            );
            if config.dry_run {
                lines.push(
                    String::from_str("   Would delete: ").concat(
                        decimal_text(stats.directories_found as u128).as_str(),
                    ),
                );
            } else {
                lines.push(
                    String::from_str("   Deleted: ").concat(
                        decimal_text(stats.directories_deleted as u128).as_str(),
                    ),
                );
                if stats.directories_failed > 0 {
                    lines.push(
                        String::from_str("   Failed: ").concat(
                            decimal_text(stats.directories_failed as u128).as_str(),
                        ),
                    );
                }
                if stats.bytes_freed > 0 {
                    lines.push(
                        String::from_str("   Space freed: ").concat(
                            format_bytes(stats.bytes_freed).as_str(),
                        ),
                    );
                }
            }
        }
    }
    proof {
        assert(texts(lines@) =~= closing_lines(config.quiet, config.dry_run, *stats));
    }
    lines
}

/// The exit code of the process: 1 where a deletion failed, else 0.
pub fn exit_code(stats: &CleanupStats) -> (code: i32)
    ensures
        code == (if stats.directories_failed > 0 {
            1i32
        } else {
            0i32
        }),
{
    if stats.directories_failed > 0 {
        1
    } else {
        0
    }
}


/// The form in which a date and time is written: `2024-05-01 10:20:30`.
pub const TIMESTAMP_FORMAT: &'static str = "%Y-%m-%d %H:%M:%S";

/// The date and time in UTC that lies `seconds` after the start of 1970,
/// written in the given form; `None` where the calendar does not reach that
/// far (`chrono::DateTime::from_timestamp`, then `chrono::DateTime::format`).
pub uninterp spec fn utc_text(seconds: i64, format: Seq<char>) -> Option<Seq<char>>;

/// Calls `chrono::DateTime::from_timestamp` with no nanoseconds and, on the
/// date and time that it gives, `chrono::DateTime::format`. Both depend on
/// the seconds and the form alone. A form that chrono cannot read makes the
/// writing fail, so only the one form of this library is let in.
#[verifier::external_body]
pub(crate) fn utc_date_time(seconds: i64, format: &str) -> (r: Option<String>)
    requires
        format@ == TIMESTAMP_FORMAT@,
    ensures
        match r {
            Some(text) => utc_text(seconds, format@) == Some(text@),
            None => utc_text(seconds, format@) is None,
        },
{
    match chrono::DateTime::from_timestamp(seconds, 0) {
        Some(when) => Some(when.format(format).to_string()),
        None => None,
    }
}

/// A count of seconds as a signed number of 64 bits holds it.
pub open spec fn as_signed(seconds: u64) -> i64 {
    if seconds <= i64::MAX {
        seconds as i64
    } else {
        (seconds - 0x1_0000_0000_0000_0000) as i64
    }
}

/// When a directory was last modified, as text, from the seconds between
/// the start of 1970 and then.
pub fn modified_text(seconds: u64) -> (r: Option<String>)
    ensures
        match r {
            Some(text) => utc_text(as_signed(seconds), TIMESTAMP_FORMAT@) == Some(text@),
            None => utc_text(as_signed(seconds), TIMESTAMP_FORMAT@) is None,
        },
{
    let signed: i64 = if seconds <= 0x7fff_ffff_ffff_ffff {
        seconds as i64
    } else {
        ((seconds - 0x8000_0000_0000_0000) as i64) - 0x4000_0000_0000_0000
            - 0x4000_0000_0000_0000
    };
    utc_date_time(signed, TIMESTAMP_FORMAT)
}

/// A directory of the detailed listing, with what is known of it.
#[derive(Debug)]
pub struct VerboseTarget {
    /// The path of the directory.
    pub path: String,
    /// When it was last modified, in seconds since the start of 1970.
    pub modified: Option<u64>,
    /// How many items it holds.
    pub item_count: Option<usize>,
}

/// The lines of a directory of the detailed listing.
pub open spec fn target_lines(index: usize, target: VerboseTarget) -> Seq<Seq<char>> {
    verbose_lines(
        index,
        target.path@,
        match target.modified {
            Some(seconds) => utc_text(as_signed(seconds), TIMESTAMP_FORMAT@),
            None => None,
        },
        target.item_count,
    )
}

/// The lines of the detailed listing, directory by directory.
pub open spec fn listing_lines(targets: Seq<VerboseTarget>) -> Seq<Seq<char>>
    decreases targets.len(),
{
    if targets.len() == 0 {
        Seq::<Seq<char>>::empty()
    } else {
        listing_lines(targets.drop_last()) + target_lines(
            (targets.len() - 1) as usize,
            targets.last(),
        )
    }
}

/// The lines of the detailed listing, for the caller to print.
pub fn print_verbose_info(targets: &[VerboseTarget]) -> (lines: Vec<String>)
    ensures
        texts(lines@) == listing_lines(targets@),
{
    let mut lines: Vec<String> = Vec::new();
    let mut i: usize = 0;
    proof {
        assert(targets@.take(0) =~= Seq::<VerboseTarget>::empty());
        assert(texts(lines@) =~= listing_lines(targets@.take(0)));
    }
    while i < targets.len()
        invariant
            i <= targets.len(),
            texts(lines@) == listing_lines(targets@.take(i as int)),
        decreases targets.len() - i,
    {
        proof {
            assert(targets@.take(i + 1).drop_last() =~= targets@.take(i as int));
            assert(targets@.take(i + 1).last() == targets@[i as int]);
        }
        let modified = match targets[i].modified {
            Some(seconds) => modified_text(seconds),
            None => None,
        };
        let when = match &modified {
            Some(text) => Some(text.as_str()),
            None => None,
        };
        let mut entry = verbose_entry(i, targets[i].path.as_str(), when, targets[i].item_count);
        let ghost before = texts(lines@);
        let ghost added = texts(entry@);
        lines.append(&mut entry);
        proof {
            assert(texts(lines@) =~= before + added);
        }
        i = i + 1;
    }
    proof {
        assert(targets@.take(targets.len() as int) =~= targets@);
    }
    lines
}

} // verus!
