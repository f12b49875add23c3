//! How the analyzer is called, and what a call of it amounts to.
//!
//! The analyzer is run as `dpkg-shlibdeps -O [-l<libdir>] <binary>`, where
//! `<libdir>` is the library directory of the target architecture, in a
//! working directory that holds `debian/control`. Running it is left to the
//! caller; this module says with which arguments, and turns what came of the
//! run into a dependency list or an error.

use crate::error::{bytes_result_view, list_result_view, ErrorView, ResolveError};
use crate::bytes::split_on;
use crate::parser::{
    depends_value, has_tagged_line, is_runtime_support, lemma_no_runtime_support,
    lemma_parsed_iff_tagged, parse_dependencies, parsed_output, COMMA, MISSING_DEPENDS,
};
use vstd::prelude::*;
use vstd::string::StringExecFns;

verus! {

/// The name under which the analyzer is looked up.
pub const ANALYZER: &'static str = "dpkg-shlibdeps";

/// The directory that the analyzer expects in its working directory.
pub const SCAFFOLD_DIR: &'static str = "debian";

/// The file that the analyzer expects in that directory. It may be empty.
pub const SCAFFOLD_FILE: &'static str = "control";

/// The option that has the analyzer print its result to standard output.
pub const STDOUT_OPTION: &'static str = "-O";

/// What the library search option begins with: the option's letter and the
/// directory under which each architecture has its libraries.
pub const LIBRARY_DIR_OPTION: &'static str = "-l/usr/lib/";

/// The option that points the analyzer at the libraries of `arch_triple`.
pub open spec fn library_dir_option(arch_triple: Seq<char>) -> Seq<char> {
    LIBRARY_DIR_OPTION@ + arch_triple
}

/// The options of a call, for a target architecture or for none.
pub open spec fn option_list(arch_triple: Option<Seq<char>>) -> Seq<Seq<char>> {
    match arch_triple {
        Some(triple) => seq![STDOUT_OPTION@, library_dir_option(triple)],
        None => seq![STDOUT_OPTION@],
    }
}

/// All arguments of a call: the options, then the binary.
pub open spec fn argument_list(binary: Seq<char>, arch_triple: Option<Seq<char>>) -> Seq<
    Seq<char>,
> {
    option_list(arch_triple) + seq![binary]
}

/// Builds the library search option for `arch_triple`.
pub fn library_search_arg(arch_triple: &str) -> (arg: String)
    ensures
        arg@ == library_dir_option(arch_triple@),
{
    String::from_str(LIBRARY_DIR_OPTION).concat(arch_triple)
}

/// Builds the options of a call. The library search option is among them
/// exactly when an architecture is given.
pub fn analyzer_options(arch_triple: Option<&str>) -> (options: Vec<String>)
    ensures
        options.deep_view() == option_list(arch_triple.deep_view()),
{
    let mut options: Vec<String> = Vec::new();
    options.push(String::from_str(STDOUT_OPTION));
    match arch_triple {
        Some(triple) => {
            options.push(library_search_arg(triple));
        },
        None => {},
    }
    options
}

/// Builds all arguments of a call on `binary`: the options, and the binary's
/// path last.
pub fn analyzer_args(binary: &str, arch_triple: Option<&str>) -> (args: Vec<String>)
    ensures
        args.deep_view() == argument_list(binary@, arch_triple.deep_view()),
        arch_triple is None ==> args.deep_view() == seq![STDOUT_OPTION@, binary@],
        arch_triple matches Some(triple) ==> args.deep_view() == seq![
            STDOUT_OPTION@,
            LIBRARY_DIR_OPTION@ + triple@,
            binary@,
        ],
{
    let mut args = analyzer_options(arch_triple);
    let ghost options = args.deep_view();
    args.push(String::from_str(binary));
    assert(args.deep_view() =~= options + seq![binary@]);
    assert(arch_triple matches Some(triple) ==> args.deep_view() =~= seq![
        STDOUT_OPTION@,
        LIBRARY_DIR_OPTION@ + triple@,
        binary@,
    ]);
    args
}

/// What a run of the analyzer left behind.
#[derive(Debug)]
pub struct AnalyzerOutput {
    /// The exit code, or none where the process ended without one.
    pub exit_code: Option<i32>,
    /// Everything written to standard output.
    pub stdout: Vec<u8>,
    /// Everything written to standard error.
    pub stderr: Vec<u8>,
}

impl AnalyzerOutput {
    /// Whether the analyzer reported success: it did if it exited with code 0.
    pub open spec fn succeeded(&self) -> bool {
        self.exit_code == Some(0i32)
    }

    /// Whether the analyzer reported success.
    pub fn success(&self) -> (yes: bool)
        ensures
            yes == self.succeeded(),
    {
        match self.exit_code {
            Some(code) => code == 0,
            None => false,
        }
    }
}

/// What a run on `target` amounts to, before its output is read: the output
/// of a run that succeeded, and an error for one that failed or never began.
pub open spec fn checked_outcome(
    target: Seq<char>,
    outcome: Result<AnalyzerOutput, std::io::Error>,
) -> Result<Seq<u8>, ErrorView> {
    match outcome {
        Err(cause) => Err(ErrorView::CommandFailed(cause, ANALYZER@)),
        Ok(output) => if output.succeeded() {
            Ok(output.stdout@)
        } else {
            Err(ErrorView::CommandError(ANALYZER@, target, output.stderr@))
        },
    }
}

/// What a run on `target` amounts to: the dependency list that a successful
/// run printed, and an error for every other run.
pub open spec fn resolution(
    target: Seq<char>,
    outcome: Result<AnalyzerOutput, std::io::Error>,
) -> Result<Seq<Seq<char>>, ErrorView> {
    match checked_outcome(target, outcome) {
        Err(error) => Err(error),
        Ok(stdout) => parsed_output(stdout),
    }
}

/// A resolution succeeds exactly for a run that began, exited with success
/// and printed a tagged line, and the list it then gives has no specifier of
/// the runtime support library.
pub proof fn lemma_resolution(target: Seq<char>, outcome: Result<AnalyzerOutput, std::io::Error>)
    ensures
        resolution(target, outcome) is Ok <==> (outcome matches Ok(output) && output.succeeded()
            && has_tagged_line(output.stdout@)),
        resolution(target, outcome) matches Ok(list) ==> forall|i: int|
            0 <= i < list.len() ==> !is_runtime_support(#[trigger] list[i]),
{
    if let Ok(output) = outcome {
        lemma_parsed_iff_tagged(output.stdout@);
        if let Some(value) = depends_value(output.stdout@) {
            lemma_no_runtime_support(split_on(value, COMMA));
        }
    }
}

/// Tells a run that succeeded from one that failed and one that never began.
///
/// `outcome` is what starting the analyzer on `target` gave: the operating
/// system's error where it could not be started, else what the run left
/// behind.
pub fn check_outcome(target: &str, outcome: Result<AnalyzerOutput, std::io::Error>) -> (result:
    Result<Vec<u8>, ResolveError>)
    ensures
        bytes_result_view(result) == checked_outcome(target@, outcome),
        outcome matches Err(cause) ==> (result matches Err(error) && error@
            == ErrorView::CommandFailed(cause, ANALYZER@)),
{
    match outcome {
        Err(cause) => Err(ResolveError::CommandFailed(cause, ANALYZER)),
        Ok(output) => {
            if output.success() {
                Ok(output.stdout)
            } else {
                Err(ResolveError::CommandError(ANALYZER, target.to_owned(), output.stderr))
            }
        },
    }
}

/// Turns what a run of the analyzer on `target` gave into the dependency
/// list of `target`, or into the error that says why there is none.
pub fn resolve_outcome(target: &str, outcome: Result<AnalyzerOutput, std::io::Error>) -> (result:
    Result<Vec<String>, ResolveError>)
    ensures
        list_result_view(result) == resolution(target@, outcome),
        result is Ok <==> (outcome matches Ok(output) && output.succeeded() && has_tagged_line(
            output.stdout@,
        )),
        result matches Ok(deps) ==> forall|i: int|
            0 <= i < deps@.len() ==> !is_runtime_support(#[trigger] deps@[i]@),
        outcome matches Err(cause) ==> (result matches Err(error) && error@
            == ErrorView::CommandFailed(cause, ANALYZER@)),
        outcome matches Ok(output) && output.succeeded() && !has_tagged_line(output.stdout@) ==> (
        result matches Err(error) && error@ == ErrorView::Format(MISSING_DEPENDS@)),
{
    match check_outcome(target, outcome) {
        Err(error) => Err(error),
        Ok(stdout) => parse_dependencies(stdout.as_slice()),
    }
}

} // verus!
