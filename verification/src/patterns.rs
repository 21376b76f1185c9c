//! Exclusion patterns: shell globs, compiled and matched by the `glob` crate.
//!
//! What the crate accepts and what a pattern matches is not spelled out here
//! but named: `glob_rejection` and `glob_matches` stand for what the crate
//! does where `/` is the one path separator, as everywhere in this library.

use crate::text::{decimal, decimal_text};
use vstd::prelude::*;
use vstd::string::StringExecFns;

verus! {

/// Makes `glob::Pattern`, a compiled pattern, known as an opaque type.
#[verifier::external_type_specification]
#[verifier::external_body]
pub struct ExPattern(glob::Pattern);

/// Why a pattern text was not accepted.
#[derive(Debug)]
pub struct Rejection {
    /// The approximate index of the character at which the error was found.
    pub position: usize,
    /// What is wrong there.
    pub message: String,
}

/// What `glob::Pattern::new` says of a pattern text: `None` where it compiles
/// the text, else the position and the message of its error.
pub uninterp spec fn glob_rejection(text: Seq<char>) -> Option<(usize, Seq<char>)>;

/// The text that a compiled pattern was made from (`glob::Pattern::as_str`).
pub uninterp spec fn pattern_text(pattern: glob::Pattern) -> Seq<char>;

/// Whether the pattern compiled from `pattern` matches the whole of `text`
/// (`glob::Pattern::matches`, with the default options).
pub uninterp spec fn glob_matches(pattern: Seq<char>, text: Seq<char>) -> bool;

/// Whether a pattern text compiles.
pub open spec fn glob_accepts(text: Seq<char>) -> bool {
    glob_rejection(text) is None
}

/// Calls `glob::Pattern::new`. Whether the text compiles, and with which error
/// it does not, depends on the text alone; a compiled pattern keeps its text.
/// The error is handed on field by field.
#[verifier::external_body]
pub(crate) fn compile(text: &str) -> (r: Result<glob::Pattern, Rejection>)
    ensures
        match r {
            Ok(p) => glob_rejection(text@) is None && pattern_text(p) == text@,
            Err(e) => glob_rejection(text@) == Some((e.position, e.message@)),
        },
{
    match glob::Pattern::new(text) {
        Ok(p) => Ok(p),
        Err(e) => Err(Rejection { position: e.pos, message: e.msg.to_string() }),
    }
}

/// Calls `glob::Pattern::matches`: whether the pattern matches `text` depends
/// on the pattern's text and on `text` alone.
#[verifier::external_body]
pub(crate) fn pattern_matches(pattern: &glob::Pattern, text: &str) -> (r: bool)
    ensures
        r == glob_matches(pattern_text(*pattern), text@),
{
    pattern.matches(text)
}

/// The views of a sequence of strings.
pub open spec fn texts(v: Seq<String>) -> Seq<Seq<char>> {
    v.map_values(|s: String| s@)
}

/// A copy of the strings.
pub fn copy_texts(v: &Vec<String>) -> (r: Vec<String>)
    ensures
        r@ == v@,
{
    let mut r: Vec<String> = Vec::new();
    let mut i: usize = 0;
    while i < v.len()
        invariant
            i <= v.len(),
            r@ == v@.take(i as int),
        decreases v.len() - i,
    {
        r.push(v[i].clone());
        proof {
            assert(r@ =~= v@.take(i + 1));
        }
        i = i + 1;
    }
    proof {
        assert(v@.take(v.len() as int) =~= v@);
    }
    r
}

/// How a rejection reads: `Pattern syntax error near position 0: invalid
/// range pattern`.
pub open spec fn rejection_text(position: usize, message: Seq<char>) -> Seq<char> {
    "Pattern syntax error near position "@ + decimal(position as nat) + ": "@ + message
}

/// The diagnostic line for a pattern that does not compile.
pub open spec fn warning_line(pattern: Seq<char>, position: usize, message: Seq<char>) -> Seq<
    char,
> {
    "Warning: Invalid pattern '"@ + pattern + "': "@ + rejection_text(position, message)
}

/// Of the given pattern texts, those that compile, in their order.
pub open spec fn accepted(patterns: Seq<Seq<char>>) -> Seq<Seq<char>>
    decreases patterns.len(),
{
    if patterns.len() == 0 {
        Seq::<Seq<char>>::empty()
    } else {
        let before = accepted(patterns.drop_last());
        if glob_accepts(patterns.last()) {
            before.push(patterns.last())
        } else {
            before
        }
    }
}

/// One diagnostic line for each of the given pattern texts that does not
/// compile, in their order.
pub open spec fn diagnostics(patterns: Seq<Seq<char>>) -> Seq<Seq<char>>
    decreases patterns.len(),
{
    if patterns.len() == 0 {
        Seq::<Seq<char>>::empty()
    } else {
        let before = diagnostics(patterns.drop_last());
        match glob_rejection(patterns.last()) {
            Some((position, message)) => before.push(
                warning_line(patterns.last(), position, message),
            ),
            None => before,
        }
    }
}

/// Whether one of the pattern texts matches `text`.
pub open spec fn any_matches(patterns: Seq<Seq<char>>, text: Seq<char>) -> bool {
    exists|i: int| 0 <= i < patterns.len() && #[trigger] glob_matches(patterns[i], text)
}

impl Rejection {
    /// The rejection as one line of text.
    pub fn describe(&self) -> (line: String)
        ensures
            line@ == rejection_text(self.position, self.message@),
    {
        String::from_str("Pattern syntax error near position ").concat(
            decimal_text(self.position as u128).as_str(),
        ).concat(": ").concat(self.message.as_str())
    }
}

/// The compiled exclusion patterns of one run, and a diagnostic line for each
/// pattern text that did not compile.
pub struct PatternSet {
    compiled: Vec<glob::Pattern>,
    warnings: Vec<String>,
}

impl PatternSet {
    /// The texts of the compiled patterns, in their order.
    pub closed spec fn sources(&self) -> Seq<Seq<char>> {
        self.compiled@.map_values(|p: glob::Pattern| pattern_text(p))
    }

    /// The diagnostic lines, in their order.
    pub closed spec fn warning_lines(&self) -> Seq<Seq<char>> {
        texts(self.warnings@)
    }

    /// Compiles each pattern text. One that does not compile is left out and
    /// reported in a diagnostic line; compiling never fails as a whole.
    pub fn compile(patterns: &[String]) -> (set: PatternSet)
        ensures
            set.sources() == accepted(texts(patterns@)),
            set.warning_lines() == diagnostics(texts(patterns@)),
    {
        let mut set = PatternSet { compiled: Vec::new(), warnings: Vec::new() };
        let ghost all = texts(patterns@);
        let mut i: usize = 0;
        proof {
            assert(all.take(0) =~= Seq::<Seq<char>>::empty());
            assert(set.sources() =~= accepted(all.take(0)));
            assert(set.warning_lines() =~= diagnostics(all.take(0)));
        }
        while i < patterns.len()
            invariant
                i <= patterns.len(),
                all == texts(patterns@),
                set.sources() == accepted(all.take(i as int)),
                set.warning_lines() == diagnostics(all.take(i as int)),
            decreases patterns.len() - i,
        {
            let text = patterns[i].as_str();
            let ghost old_set = set;
            proof {
                assert(all.take(i + 1).drop_last() =~= all.take(i as int));
                assert(all.take(i + 1).last() == text@);
            }
            match compile(text) {
                Ok(p) => {
                    set.compiled.push(p);
                    proof {
                        assert(set.sources() =~= old_set.sources().push(text@));
                    }
                },
                Err(e) => {
                    let line = String::from_str("Warning: Invalid pattern '").concat(text).concat(
                        "': ",
                    ).concat(e.describe().as_str());
                    set.warnings.push(line);
                    proof {
                        assert(set.warning_lines() =~= old_set.warning_lines().push(line@));
                    }
                },
            }
            i = i + 1;
        }
        proof {
            assert(all.take(patterns.len() as int) =~= all);
        }
        set
    }

    /// The number of compiled patterns.
    pub fn len(&self) -> (n: usize)
        ensures
            n == self.sources().len(),
    {
        self.compiled.len()
    }

    /// The diagnostic lines, for the caller to print.
    pub fn warnings(&self) -> (lines: &Vec<String>)
        ensures
            texts(lines@) == self.warning_lines(),
    {
        &self.warnings
    }

    /// Whether one of the compiled patterns matches `text`.
    pub fn matches_any(&self, text: &str) -> (r: bool)
        ensures
            r == any_matches(self.sources(), text@),
    {
        let mut i: usize = 0;
        while i < self.compiled.len()
            invariant
                i <= self.compiled.len(),
                forall|j: int| 0 <= j < i ==> !glob_matches(#[trigger] self.sources()[j], text@),
            decreases self.compiled.len() - i,
        {
            if pattern_matches(&self.compiled[i], text) {
                assert(glob_matches(self.sources()[i as int], text@));
                return true;
            }
            i = i + 1;
        }
        false
    }
}

} // verus!
