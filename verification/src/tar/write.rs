//! Writing a tar stream into a commit: the options, the command line of the
//! commit writer, and what its outcome amounts to.

use crate::failure::{ErrorKind, Failure};
use crate::tar::tally::FilterTally;
use crate::text::{decimal, opt_text, texts, trim_str, trimmed, usize_to_string};
use vstd::prelude::*;

verus! {

/// Configuration for tar layer commits.
#[derive(Debug)]
#[non_exhaustive]
pub struct WriteTarOptions {
    /// Base commit hash.
    pub base: Option<String>,
    /// Enable SELinux labeling from the base commit.
    /// Takes effect only with a `base`.
    pub selinux: bool,
}

impl Default for WriteTarOptions {
    fn default() -> (o: WriteTarOptions)
        ensures
            o.base is None,
            !o.selinux,
    {
        WriteTarOptions { base: None, selinux: false }
    }
}

/// The result of writing a tar stream.
#[derive(Debug)]
pub struct WriteTarResult {
    /// The digest of the resulting commit.
    pub commit: String,
    /// Number of paths in a prefix (e.g. `/var` or `/boot`) which were discarded.
    pub filtered: FilterTally,
}

impl Default for WriteTarResult {
    fn default() -> (r: WriteTarResult)
        ensures
            r.commit@.len() == 0,
            r.filtered.wf(),
            r.filtered@ == Map::<Seq<char>, nat>::empty(),
    {
        WriteTarResult { commit: String::new(), filtered: FilterTally::new() }
    }
}

/// The program that writes the commit.
pub const COMMIT_PROGRAM: &'static str = "ostree";

/// The number under which the commit writer finds the descriptor of the
/// commit store; its command line refers to it as `/proc/self/fd/` and
/// this number.
pub const COMMIT_STORE_FD: usize = 3;

impl WriteTarOptions {
    /// The base commit whose SELinux policy labels the new commit: the
    /// `base`, where labeling is asked for and a base is given.
    pub fn sepolicy_base(&self) -> (r: Option<&String>)
        ensures
            r is Some <==> self.selinux && self.base is Some,
            r matches Some(b) ==> Some(*b) == self.base,
    {
        if self.selinux {
            match &self.base {
                Some(b) => Some(b),
                None => None,
            }
        } else {
            None
        }
    }
}

/// The arguments of the commit writer: a commit in tar mode that reads
/// standard input, creates missing parent directories, records the importer
/// version, labels from `sepolicy_dir` where one is given, and writes to the
/// ref `refname`.
pub open spec fn commit_args(
    refname: Seq<char>,
    sepolicy_dir: Option<Seq<char>>,
    importer_version: Seq<char>,
) -> Seq<Seq<char>> {
    seq!["commit"@, "--repo=/proc/self/fd/"@ + decimal(COMMIT_STORE_FD as nat)] + match sepolicy_dir {
        Some(dir) => seq!["--selinux-policy"@, dir],
        None => seq![],
    } + seq![
        "--add-metadata-string=ostree.importer.version="@ + importer_version,
        "--no-bindings"@,
        "--tar-autocreate-parents"@,
        "--tree=tar=/proc/self/fd/0"@,
        "--branch"@,
        refname,
    ]
}

/// Builds the arguments with which the commit writer is launched.
pub fn commit_writer_args(refname: &str, sepolicy_dir: Option<&str>, importer_version: &str) -> (args:
    Vec<String>)
    ensures
        texts(args@) == commit_args(refname@, opt_text(sepolicy_dir), importer_version@),
{
    let mut args: Vec<String> = Vec::new();
    args.push(String::from_str("commit"));
    args.push(
        String::from_str("--repo=/proc/self/fd/").concat(usize_to_string(COMMIT_STORE_FD).as_str()),
    );
    match sepolicy_dir {
        Some(dir) => {
            args.push(String::from_str("--selinux-policy"));
            args.push(String::from_str(dir));
        },
        None => {},
    }
    args.push(
        String::from_str("--add-metadata-string=ostree.importer.version=").concat(importer_version),
    );
    args.push(String::from_str("--no-bindings"));
    args.push(String::from_str("--tar-autocreate-parents"));
    args.push(String::from_str("--tree=tar=/proc/self/fd/0"));
    args.push(String::from_str("--branch"));
    args.push(String::from_str(refname));
    assert(texts(args@) =~= commit_args(refname@, opt_text(sepolicy_dir), importer_version@));
    args
}

/// What the exit of the commit writer amounts to: nothing on success, and on
/// failure an error that names the exit status as `status` describes it.
pub fn commit_exit(success: bool, status: &str) -> (r: Result<(), Failure>)
    ensures
        r is Ok <==> success,
        r matches Err(e) ==> e@.kind == ErrorKind::ChildProcess && e@.root
            == "Failed to commit tar: "@ + status@ && e@.contexts.len() == 0,
{
    if success {
        Ok(())
    } else {
        let msg = String::from_str("Failed to commit tar: ").concat(status);
        Err(Failure::new(ErrorKind::ChildProcess, msg.as_str()))
    }
}

/// What the commit writer wrote to its two output streams.
#[derive(Debug, Clone, PartialEq, Eq)]
pub struct ChildOutput {
    /// Standard output: the digest of the commit, on success.
    pub stdout: String,
    /// Standard error: diagnostics.
    pub stderr: String,
}

/// The outcome of a commit, from the outcome of running the writer and the
/// filter together and from what was read of the writer's output.
///
/// Where the run succeeded, the commit digest is the writer's standard
/// output without surrounding whitespace, and a failure to read the output
/// is the failure. Where the run failed, the failure is the run's, marked as
/// one of processing the archive, and under the writer's diagnostics where
/// they could be read.
pub fn conclude_commit(run: Result<FilterTally, Failure>, output: Result<ChildOutput, Failure>) -> (r:
    Result<WriteTarResult, Failure>)
    requires
        run matches Ok(t) ==> t.wf(),
    ensures
        match run {
            Ok(tally) => match output {
                Ok(out) => r matches Ok(done) && done.commit@ == trimmed(out.stdout@)
                    && done.filtered == tally && done.filtered.wf(),
                Err(e) => r matches Err(f) && f@ == e@.context("Copying child output"@),
            },
            Err(e) => match output {
                Ok(out) => r matches Err(f) && f@ == e@.context("Processing tar via ostree"@).context(
                    trimmed(out.stderr@),
                ),
                Err(_) => r matches Err(f) && f@ == e@.context("Processing tar via ostree"@),
            },
        },
{
    match run {
        Ok(tally) => match output {
            Ok(out) => {
                let commit = String::from_str(trim_str(out.stdout.as_str()));
                Ok(WriteTarResult { commit, filtered: tally })
            },
            Err(e) => Err(e.context("Copying child output")),
        },
        Err(e) => {
            let e = e.context("Processing tar via ostree");
            match output {
                Ok(out) => Err(e.context(trim_str(out.stderr.as_str()))),
                Err(_) => Err(e),
            }
        },
    }
}

} // verus!
