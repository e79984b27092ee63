//! What the interactive session decides: what a read from the terminal amounts to, and
//! how a submission is checked before it runs.
use vstd::prelude::*;

use crate::ast::{Program, SpecProgram};
use crate::diagnostics::{Diagnostic, SpecDiagnostic};
use crate::parser::lexer::{lex_from, Lexer};
use crate::parser::parser::{lemma_parse_ok_iff_clean, parse_outcome, parse_result_view, Parser, SpecParser};
use crate::text::chars_of;
use crate::types::checking::{check_program_in, lemma_check_program_keeps_names, lookup};
use crate::types::type_checker::{SpecTypeChecker, TypeChecker};

verus! {

/// Whether `char::is_whitespace` holds of `c`.
pub uninterp spec fn white_space(c: char) -> bool;

/// Calls `char::is_whitespace`, which tells whether `c` has the Unicode property
/// White_Space. Its result is named by [`white_space`], not stated.
#[verifier::external_body]
fn is_whitespace(c: char) -> (r: bool)
    ensures
        r == white_space(c),
{
    c.is_whitespace()
}

/// Whether `s` holds nothing but white space (what `str::trim` leaves of it is empty).
pub open spec fn blank(s: Seq<char>) -> bool {
    forall|i: int| 0 <= i < s.len() ==> white_space(#[trigger] s[i])
}

/// Whether `s` holds nothing but white space.
pub fn is_blank(s: &str) -> (r: bool)
    ensures
        r == blank(s@),
{
    let cs = chars_of(s);
    let mut i: usize = 0;
    while i < cs.len()
        invariant
            i <= cs@.len(),
            cs@ == s@,
            forall|j: int| 0 <= j < i ==> white_space(#[trigger] s@[j]),
        decreases cs.len() - i,
    {
        if !is_whitespace(cs[i]) {
            return false;
        }
        i = i + 1;
    }
    true
}

/// What one read from the terminal gave.
pub enum ReadEvent {
    /// A line, without its line ending.
    Line(String),
    /// The user pressed Ctrl-C.
    Interrupted,
    /// The input ended (Ctrl-D).
    Eof,
    /// Reading failed.
    Failed,
}

/// What the session does after a read.
pub enum ReadOutcome {
    /// Runs this source.
    Submission(String),
    /// Drops the input and reads again.
    Cancelled,
    /// Ends the session.
    Exit,
}

/// What a read amounts to: a line is submitted with a line ending, a blank line as
/// nothing; Ctrl-C cancels; the end of the input, or a failed read, ends the session.
pub fn read_outcome(event: ReadEvent) -> (r: ReadOutcome)
    ensures
        match (event, r) {
            (ReadEvent::Line(line), ReadOutcome::Submission(s)) => s@ == if blank(line@) {
                Seq::<char>::empty()
            } else {
                line@ + "\n"@
            },
            (ReadEvent::Interrupted, ReadOutcome::Cancelled) => true,
            (ReadEvent::Eof, ReadOutcome::Exit) => true,
            (ReadEvent::Failed, ReadOutcome::Exit) => true,
            _ => false,
        },
{
    match event {
        ReadEvent::Line(line) => {
            let mut buffer = String::new();
            if !is_blank(line.as_str()) {
                buffer.append(line.as_str());
                buffer.append("\n");
            }
            ReadOutcome::Submission(buffer)
        },
        ReadEvent::Interrupted => ReadOutcome::Cancelled,
        ReadEvent::Eof => ReadOutcome::Exit,
        ReadEvent::Failed => ReadOutcome::Exit,
    }
}

/// Checking a submission before it runs: lexing, then parsing, then type checking in the
/// checker's environment; the first stage that reports stops the others. The program or
/// the diagnostics, and the checker after; `None` where a stage cannot go on.
pub open spec fn source_check(file: Seq<char>, source: Seq<char>, tc: SpecTypeChecker) -> Option<
    (Result<SpecProgram, Seq<SpecDiagnostic>>, SpecTypeChecker),
> {
    let (tokens, lex_diags) = lex_from(source, file, 0, 1, 1);
    if lex_diags.len() > 0 {
        Some((Err(lex_diags), tc))
    } else {
        match parse_outcome(SpecParser { file, tokens, index: 0, diagnostics: seq![] }) {
            None => None,
            Some(o) => match o.result {
                Err(ds) => Some((Err(ds), tc)),
                Ok(p) => match check_program_in(p, tc.env) {
                    None => None,
                    Some((env1, ds)) => Some(
                        (
                            if ds.len() == 0 {
                                Ok(p)
                            } else {
                                Err(ds)
                            },
                            SpecTypeChecker { env: env1, diagnostics: ds },
                        ),
                    ),
                },
            },
        }
    }
}

/// Lexes, parses and type-checks `source`, the text of the file named `file`, with
/// `type_checker`: the program to run, or the diagnostics of the first stage that has
/// any. `None` where a stage cannot go on.
pub fn check_source(file: &str, source: &str, type_checker: &mut TypeChecker) -> (r: Option<
    Result<Program, Vec<Diagnostic>>,
>)
    requires
        source@.len() + 3 <= usize::MAX,
    ensures
        match source_check(file@, source@, old(type_checker)@) {
            None => r is None,
            Some((res, tc)) => r is Some && parse_result_view(r->0) == res && final(type_checker)@ == tc,
        },
{
    let mut lexer = Lexer::new(crate::text::owned(file), source);
    let tokens = lexer.tokenize();
    let lex_diags = lexer.into_diagnostics();
    if lex_diags.len() > 0 {
        return Some(Err(lex_diags));
    }
    let mut parser = Parser::new(file, tokens);
    let program = match parser.try_parse() {
        None => {
            return None;
        },
        Some(Err(ds)) => {
            return Some(Err(ds));
        },
        Some(Ok(program)) => program,
    };
    match type_checker.try_check_program(&program) {
        None => None,
        Some(Err(ds)) => Some(Err(ds)),
        Some(Ok(())) => Some(Ok(program)),
    }
}

/// A submission is accepted only when no stage reports anything, and the checker then
/// holds no diagnostic; a refused submission comes with at least one diagnostic.
pub proof fn lemma_source_check_ok_iff_clean(file: Seq<char>, source: Seq<char>, tc: SpecTypeChecker)
    ensures
        match source_check(file, source, tc) {
            Some((Ok(_), after)) => after.diagnostics.len() == 0,
            Some((Err(ds), _)) => ds.len() > 0,
            None => true,
        },
{
    let (tokens, lex_diags) = lex_from(source, file, 0, 1, 1);
    let p = SpecParser { file, tokens, index: 0, diagnostics: seq![] };
    if lex_diags.len() == 0 && parse_outcome(p) is Some {
        lemma_parse_ok_iff_clean(p);
    }
}

/// A submission never makes the session forget a name: every name the checker knew before
/// it is still known after it, whether it was accepted or refused.
pub proof fn lemma_source_check_keeps_names(file: Seq<char>, source: Seq<char>, tc: SpecTypeChecker, name: Seq<char>)
    requires
        lookup(tc.env, name) is Some,
    ensures
        source_check(file, source, tc) matches Some((_, after)) ==> lookup(after.env, name) is Some,
{
    let (tokens, lex_diags) = lex_from(source, file, 0, 1, 1);
    let p = SpecParser { file, tokens, index: 0, diagnostics: seq![] };
    if lex_diags.len() == 0 {
        if let Some(o) = parse_outcome(p) {
            if let Ok(program) = o.result {
                lemma_check_program_keeps_names(program, tc.env, name);
            }
        }
    }
}

} // verus!
