//! Verification findings: diagnostics read from compiler and test output,
//! the report they make up, and the request for fix suggestions.

use crate::text::{contains_str, lines_of, split_lines, text_contains, texts, trim_str, trimmed};
use vstd::prelude::*;
use vstd::string::StringExecFns;

verus! {

/// Diagnostic severity level.
#[derive(Clone, Copy, Debug, PartialEq, Eq, Structural)]
pub enum DiagnosticLevel {
    /// Info message
    Info,
    /// Warning message
    Warning,
    /// Error message
    Error,
}

/// Diagnostic message.
#[derive(Clone, Debug)]
pub struct Diagnostic {
    /// Severity level
    pub level: DiagnosticLevel,
    /// Diagnostic message
    pub message: String,
}

/// Verification report.
#[derive(Clone, Debug)]
pub struct VerificationReport {
    /// Whether verification passed
    pub passed: bool,
    /// Any diagnostics or errors
    pub diagnostics: Vec<Diagnostic>,
    /// Fix suggestions (None when none were asked for or given)
    pub suggestions: Option<String>,
}

/// A diagnostic as its level and message text.
pub open spec fn diag_view(d: Diagnostic) -> (DiagnosticLevel, Seq<char>) {
    (d.level, d.message@)
}

/// Diagnostics as levels and message texts.
pub open spec fn diags_view(ds: Seq<Diagnostic>) -> Seq<(DiagnosticLevel, Seq<char>)> {
    ds.map_values(|d: Diagnostic| diag_view(d))
}

/// The diagnostics of compiler output lines: a line containing `error:` is
/// an error, otherwise one containing `warning:` a warning, each with the
/// line trimmed as its message; other lines give none.
pub open spec fn check_diagnostics(lines: Seq<Seq<char>>) -> Seq<(DiagnosticLevel, Seq<char>)>
    decreases lines.len(),
{
    if lines.len() == 0 {
        Seq::empty()
    } else {
        let l = lines.last();
        let before = check_diagnostics(lines.drop_last());
        if text_contains(l, "error:"@) {
            before.push((DiagnosticLevel::Error, trimmed(l)))
        } else if text_contains(l, "warning:"@) {
            before.push((DiagnosticLevel::Warning, trimmed(l)))
        } else {
            before
        }
    }
}

/// The diagnostics of test output lines: a line containing both
/// `test result:` and `FAILED` is an error with the line trimmed as its
/// message; other lines give none.
pub open spec fn test_diagnostics_of(lines: Seq<Seq<char>>) -> Seq<(DiagnosticLevel, Seq<char>)>
    decreases lines.len(),
{
    if lines.len() == 0 {
        Seq::empty()
    } else {
        let l = lines.last();
        let before = test_diagnostics_of(lines.drop_last());
        if text_contains(l, "test result:"@) && text_contains(l, "FAILED"@) {
            before.push((DiagnosticLevel::Error, trimmed(l)))
        } else {
            before
        }
    }
}

/// Appends a diagnostic.
fn push_diag(out: &mut Vec<Diagnostic>, level: DiagnosticLevel, message: String)
    ensures
        diags_view(final(out)@) == diags_view(old(out)@).push((level, message@)),
{
    let ghost before = out@;
    out.push(Diagnostic { level, message });
    proof {
        assert(diags_view(out@) =~= diags_view(before).push((level, message@)));
    }
}

/// Appends the diagnostics of compiler output lines.
fn push_check_diagnostics(out: &mut Vec<Diagnostic>, lines: &Vec<String>)
    ensures
        diags_view(final(out)@) == diags_view(old(out)@) + check_diagnostics(texts(lines@)),
{
    let ghost start = diags_view(out@);
    let mut i: usize = 0;
    while i < lines.len()
        invariant
            i <= lines@.len(),
            diags_view(out@) == start + check_diagnostics(texts(lines@.subrange(0, i as int))),
        decreases lines@.len() - i,
    {
        let line = lines[i].as_str();
        proof {
            let t1 = texts(lines@.subrange(0, i + 1));
            assert(t1.drop_last() =~= texts(lines@.subrange(0, i as int)));
            assert(t1.last() == lines@[i as int]@);
        }
        let ghost before = diags_view(out@);
        if contains_str(line, "error:") {
            push_diag(out, DiagnosticLevel::Error, trim_str(line));
        } else if contains_str(line, "warning:") {
            push_diag(out, DiagnosticLevel::Warning, trim_str(line));
        }
        proof {
            assert(start + check_diagnostics(texts(lines@.subrange(0, i + 1))) =~= diags_view(out@));
        }
        i = i + 1;
    }
    proof {
        assert(lines@.subrange(0, i as int) =~= lines@);
    }
}

/// Appends the diagnostics of test output lines.
fn push_test_diagnostics(out: &mut Vec<Diagnostic>, lines: &Vec<String>)
    ensures
        diags_view(final(out)@) == diags_view(old(out)@) + test_diagnostics_of(texts(lines@)),
{
    let ghost start = diags_view(out@);
    let mut i: usize = 0;
    while i < lines.len()
        invariant
            i <= lines@.len(),
            diags_view(out@) == start + test_diagnostics_of(texts(lines@.subrange(0, i as int))),
        decreases lines@.len() - i,
    {
        let line = lines[i].as_str();
        proof {
            let t1 = texts(lines@.subrange(0, i + 1));
            assert(t1.drop_last() =~= texts(lines@.subrange(0, i as int)));
            assert(t1.last() == lines@[i as int]@);
        }
        if contains_str(line, "test result:") && contains_str(line, "FAILED") {
            push_diag(out, DiagnosticLevel::Error, trim_str(line));
        }
        proof {
            assert(start + test_diagnostics_of(texts(lines@.subrange(0, i + 1))) =~= diags_view(out@));
        }
        i = i + 1;
    }
    proof {
        assert(lines@.subrange(0, i as int) =~= lines@);
    }
}

/// The diagnostics of a compile check: those of the standard output's
/// lines, then those of the standard error's.
pub fn compile_diagnostics(stdout: &str, stderr: &str) -> (r: Vec<Diagnostic>)
    ensures
        diags_view(r@) == check_diagnostics(lines_of(stdout@)) + check_diagnostics(lines_of(stderr@)),
{
    let mut r: Vec<Diagnostic> = Vec::new();
    assert(diags_view(r@) =~= Seq::empty());
    let out_lines = split_lines(stdout);
    push_check_diagnostics(&mut r, &out_lines);
    let err_lines = split_lines(stderr);
    push_check_diagnostics(&mut r, &err_lines);
    r
}

/// The diagnostics of a test run: those of the standard output's lines,
/// then those of the standard error's.
pub fn test_diagnostics(stdout: &str, stderr: &str) -> (r: Vec<Diagnostic>)
    ensures
        diags_view(r@) == test_diagnostics_of(lines_of(stdout@)) + test_diagnostics_of(lines_of(stderr@)),
{
    let mut r: Vec<Diagnostic> = Vec::new();
    assert(diags_view(r@) =~= Seq::empty());
    let out_lines = split_lines(stdout);
    push_test_diagnostics(&mut r, &out_lines);
    let err_lines = split_lines(stderr);
    push_test_diagnostics(&mut r, &err_lines);
    r
}

/// The diagnostic reported when no code graph is available.
pub fn graph_unavailable() -> (r: Diagnostic)
    ensures
        r.level == DiagnosticLevel::Info,
        r.message@ == "Graph check: no Forge SDK available"@,
{
    Diagnostic { level: DiagnosticLevel::Info, message: "Graph check: no Forge SDK available".to_string() }
}

/// How many diagnostics are errors.
pub open spec fn error_count(ds: Seq<Diagnostic>) -> nat
    decreases ds.len(),
{
    if ds.len() == 0 {
        0
    } else {
        error_count(ds.drop_last()) + if ds.last().level == DiagnosticLevel::Error {
            1nat
        } else {
            0nat
        }
    }
}

/// The number of error diagnostics.
pub fn count_errors(diagnostics: &Vec<Diagnostic>) -> (r: usize)
    ensures
        r == error_count(diagnostics@),
{
    let mut n: usize = 0;
    let mut i: usize = 0;
    while i < diagnostics.len()
        invariant
            i <= diagnostics@.len(),
            n == error_count(diagnostics@.subrange(0, i as int)),
            n <= i,
        decreases diagnostics@.len() - i,
    {
        proof {
            assert(diagnostics@.subrange(0, i + 1).drop_last() =~= diagnostics@.subrange(0, i as int));
        }
        if diagnostics[i].level == DiagnosticLevel::Error {
            n = n + 1;
        }
        i = i + 1;
    }
    proof {
        assert(diagnostics@.subrange(0, i as int) =~= diagnostics@);
    }
    n
}

/// The error count counts each error diagnostic once and nothing else: one
/// more diagnostic adds one when it is an error and nothing otherwise (so a
/// single error counts one), the count is zero exactly when no diagnostic
/// is an error, and it never exceeds the number of diagnostics.
pub proof fn lemma_error_count(ds: Seq<Diagnostic>, d: Diagnostic)
    ensures
        error_count(ds.push(d)) == error_count(ds) + (if d.level == DiagnosticLevel::Error {
            1nat
        } else {
            0nat
        }),
        error_count(ds) == 0 <==> forall|i: int| 0 <= i < ds.len() ==> #[trigger] ds[i].level != DiagnosticLevel::Error,
        error_count(ds) <= ds.len(),
    decreases ds.len(),
{
    assert(ds.push(d).drop_last() =~= ds);
    if ds.len() > 0 {
        lemma_error_count(ds.drop_last(), ds.last());
        assert(ds.drop_last().push(ds.last()) =~= ds);
        if error_count(ds) == 0 {
            assert forall|i: int| 0 <= i < ds.len() implies #[trigger] ds[i].level != DiagnosticLevel::Error by {
                if i < ds.len() - 1 {
                    assert(ds.drop_last()[i] == ds[i]);
                }
            }
        }
        if forall|i: int| 0 <= i < ds.len() ==> #[trigger] ds[i].level != DiagnosticLevel::Error {
            assert(ds[ds.len() - 1].level != DiagnosticLevel::Error);
            assert forall|i: int| 0 <= i < ds.drop_last().len() implies #[trigger] ds.drop_last()[i].level
                != DiagnosticLevel::Error by {
                assert(ds.drop_last()[i] == ds[i]);
            }
        }
    }
}

impl VerificationReport {
    /// The report of the given diagnostics: it passes when none is an error.
    pub fn from_diagnostics(diagnostics: Vec<Diagnostic>, suggestions: Option<String>) -> (r: VerificationReport)
        ensures
            r.passed == (error_count(diagnostics@) == 0),
            r.passed <==> forall|i: int| 0 <= i < diagnostics@.len() ==> #[trigger] diagnostics@[i].level
                != DiagnosticLevel::Error,
            r.diagnostics@ == diagnostics@,
            r.suggestions == suggestions,
    {
        proof {
            if diagnostics@.len() > 0 {
                lemma_error_count(diagnostics@, diagnostics@[0]);
            } else {
                assert(error_count(diagnostics@) == 0);
            }
        }
        let errors = count_errors(&diagnostics);
        VerificationReport { passed: errors == 0, diagnostics, suggestions }
    }
}

/// The messages of the error diagnostics, in order.
pub open spec fn error_messages(ds: Seq<Diagnostic>) -> Seq<Seq<char>>
    decreases ds.len(),
{
    if ds.len() == 0 {
        Seq::empty()
    } else if ds.last().level == DiagnosticLevel::Error {
        error_messages(ds.drop_last()).push(ds.last().message@)
    } else {
        error_messages(ds.drop_last())
    }
}

/// The texts joined with line feeds between them.
pub open spec fn join_lines(parts: Seq<Seq<char>>) -> Seq<char>
    decreases parts.len(),
{
    if parts.len() == 0 {
        Seq::empty()
    } else if parts.len() == 1 {
        parts[0]
    } else {
        join_lines(parts.drop_last()) + "\n"@ + parts.last()
    }
}

/// The request to explain the errors: a heading, then the error messages one per line.
pub open spec fn errors_prompt_text(ds: Seq<Diagnostic>) -> Seq<char> {
    "The following compilation/test errors were detected:\n\n"@ + join_lines(error_messages(ds))
}

/// Appends the texts joined with line feeds.
fn push_joined(s: &mut String, parts: &Vec<String>)
    ensures
        final(s)@ == old(s)@ + join_lines(texts(parts@)),
{
    let ghost start = s@;
    let mut i: usize = 0;
    while i < parts.len()
        invariant
            i <= parts@.len(),
            s@ == start + join_lines(texts(parts@.subrange(0, i as int))),
        decreases parts@.len() - i,
    {
        let ghost before = s@;
        proof {
            reveal_strlit("\n");
            let t1 = texts(parts@.subrange(0, i + 1));
            assert(t1.drop_last() =~= texts(parts@.subrange(0, i as int)));
            assert(t1.last() == parts@[i as int]@);
        }
        if i > 0 {
            s.append("\n");
        }
        s.append(parts[i].as_str());
        proof {
            if i == 0 {
                assert(texts(parts@.subrange(0, 0)) =~= Seq::<Seq<char>>::empty());
                assert(texts(parts@.subrange(0, 1)) =~= seq![parts@[0]@]);
            }
        }
        i = i + 1;
    }
    proof {
        assert(parts@.subrange(0, i as int) =~= parts@);
    }
}

/// The messages of the error diagnostics.
fn error_message_list(diagnostics: &Vec<Diagnostic>) -> (r: Vec<String>)
    ensures
        texts(r@) == error_messages(diagnostics@),
{
    let mut r: Vec<String> = Vec::new();
    let mut i: usize = 0;
    while i < diagnostics.len()
        invariant
            i <= diagnostics@.len(),
            texts(r@) == error_messages(diagnostics@.subrange(0, i as int)),
        decreases diagnostics@.len() - i,
    {
        proof {
            assert(diagnostics@.subrange(0, i + 1).drop_last() =~= diagnostics@.subrange(0, i as int));
        }
        let ghost before = r@;
        if diagnostics[i].level == DiagnosticLevel::Error {
            r.push(diagnostics[i].message.clone());
            proof {
                assert(texts(r@) =~= texts(before).push(diagnostics@[i as int].message@));
            }
        }
        i = i + 1;
    }
    proof {
        assert(diagnostics@.subrange(0, i as int) =~= diagnostics@);
    }
    r
}

/// The request to explain the errors, or `None` when there is no error.
pub fn errors_prompt(diagnostics: &Vec<Diagnostic>) -> (r: Option<String>)
    ensures
        error_messages(diagnostics@).len() == 0 <==> r is None,
        r matches Some(p) ==> p@ == errors_prompt_text(diagnostics@),
{
    let messages = error_message_list(diagnostics);
    if messages.len() == 0 {
        return None;
    }
    let mut s = "The following compilation/test errors were detected:\n\n".to_string();
    push_joined(&mut s, &messages);
    Some(s)
}

/// The request to explain the errors in the light of recent changes.
pub open spec fn errors_with_diffs_prompt_text(ds: Seq<Diagnostic>, diffs: Seq<Seq<char>>) -> Seq<char> {
    errors_prompt_text(ds) + "\n\nRecent changes (diffs):\n"@ + join_lines(diffs)
}

/// The request to explain the errors together with the diffs that likely
/// caused them, or `None` when there is no error.
pub fn errors_with_diffs_prompt(diagnostics: &Vec<Diagnostic>, diffs: &Vec<String>) -> (r: Option<String>)
    ensures
        error_messages(diagnostics@).len() == 0 <==> r is None,
        r matches Some(p) ==> p@ == errors_with_diffs_prompt_text(diagnostics@, texts(diffs@)),
{
    match errors_prompt(diagnostics) {
        None => None,
        Some(p) => {
            let mut s = p;
            s.append("\n\nRecent changes (diffs):\n");
            push_joined(&mut s, diffs);
            Some(s)
        },
    }
}

} // verus!
