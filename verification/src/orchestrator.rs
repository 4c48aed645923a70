//! The lint orchestrator: drives a lint/format pass across a package's
//! local dependency closure.
//!
//! The pass itself needs a filesystem, a dependency retriever and a
//! compiler; none of those can live here.  The orchestrator is therefore a
//! state machine: [`Linter::start`] and [`Linter::step`] decide, from the
//! current state and the outcome of the last action, which action the
//! surrounding driver must perform next.  The driver performs it — removes
//! a directory, stages a dependency, compiles a file, reads or writes a
//! source file — and hands the outcome back as a [`LintEvent`].
//!
//! The order of actions follows the pass's design: clear the root `build`
//! directory once, scaffold the package, resolve the dependency closure
//! (the root itself is appended last), then for each dependency in turn
//! stage it, create its outputs and build scratch directories, list and
//! check its source files, compile every file, remove both scratch
//! directories, and only then rewrite every source file through the
//! normalizer.  The rewrite is unconditional: an already-canonical file is
//! read and written back all the same.  Any failure event aborts the whole
//! pass at once; nothing is retried and nothing is rolled back.

use vstd::prelude::*;
use vstd::string::StringExecFns;
use crate::normalizer::normalize_code;
use crate::normalizer::normalized;

verus! {

/// The distinct failures a pass can end with, mirroring where in the loop
/// the driver's action failed.
#[derive(Clone, Copy, PartialEq, Eq, Structural, Debug)]
pub enum LintError {
    /// The pre-existing top-level build directory could not be removed.
    BuildClear,
    /// The package scaffold could not be created.
    Scaffold,
    /// The dependency closure could not be resolved.
    Retrieve,
    /// A dependency could not be staged locally.
    Prepare,
    /// The outputs scratch directory could not be created.
    OutputsCreate,
    /// The build scratch directory could not be created.
    BuildCreate,
    /// The dependency's source files could not be enumerated.
    SourceList,
    /// A source file failed validation.
    SourceCheck,
    /// A malformed dependency name gave no valid program identifier.
    ProgramName,
    /// A source file failed compilation.
    Compile,
    /// A scratch directory could not be removed.
    ScratchRemove,
    /// A source file could not be read.
    Read,
    /// A source file could not be written back.
    Write,
}

/// What the machine is currently waiting on.
#[derive(Clone, Copy, PartialEq, Eq, Structural, Debug)]
pub enum Phase {
    /// Nothing has been asked yet.
    Ready,
    /// Clearing the top-level build directory.
    ClearingRootBuild,
    /// Creating the package scaffold.
    CreatingScaffold,
    /// Resolving the dependency closure.
    Retrieving,
    /// Staging the current dependency locally.
    Preparing,
    /// Creating the outputs scratch directory.
    CreatingOutputs,
    /// Creating the build scratch directory.
    CreatingBuild,
    /// Enumerating the dependency's source files.
    Listing,
    /// Validating the enumerated source files.
    Checking,
    /// Compiling the current source file.
    Compiling,
    /// Removing the build scratch directory.
    RemovingBuildScratch,
    /// Removing the outputs scratch directory.
    RemovingOutputsScratch,
    /// Reading the current source file for rewriting.
    Reading,
    /// Writing the current source file's canonical form back.
    Writing,
    /// Every dependency's every file compiled and was rewritten.
    Done,
    /// The pass aborted; `error` says why.
    Failed,
}

/// The next action the driver must perform.
pub enum LintAction {
    /// Remove the directory recursively if it exists.
    ClearDir { path: String },
    /// Create a fresh package scaffold for the program at the path.
    CreateScaffold { path: String, program: String },
    /// Resolve the ordered local dependency closure of the root program.
    Retrieve,
    /// Stage the named dependency locally, yielding its local path.
    PrepareLocal { dependency: String },
    /// Create the outputs scratch directory under the staged path.
    CreateOutputsDir { path: String },
    /// Create the build scratch directory under the staged path.
    CreateBuildDir { path: String },
    /// Enumerate the source files under the staged path.
    ListSourceFiles { path: String },
    /// Validate the enumerated source files.
    CheckSourceFiles,
    /// Compile one source file for verification only; the artifact is
    /// discarded, only the verdict matters.
    CompileFile { path: String, program: String, outputs: String },
    /// Remove the directory recursively; it must exist.
    RemoveDir { path: String },
    /// Read the whole source file as text.
    ReadFile { path: String },
    /// Overwrite the whole source file with the text.
    WriteFile { path: String, text: String },
    /// The pass is complete.
    Finish,
    /// The pass failed; the machine's error says why.
    Abort,
}

/// The outcome of the last action, handed back by the driver.
pub enum LintEvent {
    /// The action succeeded and carries no payload.
    Done,
    /// The resolved dependency closure, in order, root not included.
    Deps { deps: Vec<String> },
    /// The staged dependency's local path.
    Prepared { local_path: String },
    /// The path of a created scratch directory.
    Path { path: String },
    /// The enumerated source file paths.
    Files { files: Vec<String> },
    /// The text of the source file just read.
    Text { text: String },
    /// The action failed.
    Failed { error: LintError },
}

/// Which events answer which phase: a failure answers any action, a
/// payload-carrying event only the action that asked for it.  No event
/// fits `Ready`, `Done` or `Failed` — the machine is not running, or the
/// pass is over.
pub open spec fn event_fits(p: Phase, ev: LintEvent) -> bool {
    if ev is Failed {
        p != Phase::Ready && p != Phase::Done && p != Phase::Failed
    } else {
        match p {
            Phase::ClearingRootBuild => ev is Done,
            Phase::CreatingScaffold => ev is Done,
            Phase::Retrieving => ev is Deps,
            Phase::Preparing => ev is Prepared,
            Phase::CreatingOutputs => ev is Path,
            Phase::CreatingBuild => ev is Path,
            Phase::Listing => ev is Files,
            Phase::Checking => ev is Done,
            Phase::Compiling => ev is Done,
            Phase::RemovingBuildScratch => ev is Done,
            Phase::RemovingOutputsScratch => ev is Done,
            Phase::Reading => ev is Text,
            Phase::Writing => ev is Done,
            _ => false,
        }
    }
}

/// The lint pass over one root package.
///
/// The five configuration fields are fixed for the pass.  The rest is the
/// machine's bookkeeping: the dependency sequence with the current index,
/// the staged paths, the current file list with its index, and a model of
/// the scratch directories on disk — `outputs_scratch` and `build_scratch`
/// are true exactly while the respective directory exists (assuming the
/// driver performs each action it is handed), and `compiled` is true once
/// every file of the current dependency has compiled.
pub struct Linter {
    pub program_name: String,
    pub network: String,
    pub endpoint: String,
    pub package_path: String,
    pub home_path: String,
    pub phase: Phase,
    pub deps: Vec<String>,
    pub dep_idx: usize,
    pub local_path: String,
    pub outputs_path: String,
    pub build_path: String,
    pub files: Vec<String>,
    pub file_idx: usize,
    pub error: Option<LintError>,
    pub outputs_scratch: bool,
    pub build_scratch: bool,
    pub compiled: bool,
}

impl Linter {
    /// The machine's invariant, preserved by every step.
    ///
    /// Its last three clauses are the scratch-cleanup guarantee: from the
    /// moment a dependency's files are rewritten, both of its scratch
    /// directories are gone and all of its files have compiled; and the
    /// removals happen in order, build scratch first.
    pub open spec fn wf(self) -> bool {
        &&& ((self.phase == Phase::Preparing || self.phase == Phase::CreatingOutputs
            || self.phase == Phase::CreatingBuild || self.phase == Phase::Listing || self.phase
            == Phase::Checking || self.phase == Phase::Compiling || self.phase
            == Phase::RemovingBuildScratch || self.phase == Phase::RemovingOutputsScratch
            || self.phase == Phase::Reading || self.phase == Phase::Writing) ==> self.dep_idx
            < self.deps.len())
        &&& ((self.phase == Phase::Compiling || self.phase == Phase::Reading || self.phase
            == Phase::Writing) ==> self.file_idx < self.files.len())
        &&& ((self.phase == Phase::RemovingBuildScratch || self.phase
            == Phase::RemovingOutputsScratch) ==> self.compiled)
        &&& (self.phase == Phase::RemovingOutputsScratch ==> !self.build_scratch)
        &&& ((self.phase == Phase::Reading || self.phase == Phase::Writing) ==> (!self.build_scratch
            && !self.outputs_scratch && self.compiled))
        &&& (self.phase == Phase::Failed ==> self.error is Some)
    }

    /// Builds the machine for a root package.  Construction cannot fail;
    /// the `Result` shape is kept for callers that expect one, and success
    /// is promised.
    pub fn new(
        program_name: String,
        network: String,
        endpoint: String,
        package_path: String,
        home_path: String,
    ) -> (r: Result<Linter, LintError>)
        ensures
            (r matches Ok(l) && l.program_name == program_name && l.network == network && l.endpoint
                == endpoint && l.package_path == package_path && l.home_path == home_path && l.phase
                == Phase::Ready && l.error is None && !l.outputs_scratch && !l.build_scratch
                && l.wf()),
    {
        Ok(
            Linter {
                program_name,
                network,
                endpoint,
                package_path,
                home_path,
                phase: Phase::Ready,
                deps: Vec::new(),
                dep_idx: 0,
                local_path: String::new(),
                outputs_path: String::new(),
                build_path: String::new(),
                files: Vec::new(),
                file_idx: 0,
                error: None,
                outputs_scratch: false,
                build_scratch: false,
                compiled: false,
            },
        )
    }

    /// Begins the pass: the first action clears the top-level `build`
    /// directory under the package path, left over from any earlier run.
    pub fn start(&mut self) -> (a: LintAction)
        requires
            old(self).phase == Phase::Ready,
            old(self).wf(),
        ensures
            final(self).wf(),
            final(self).phase == Phase::ClearingRootBuild,
            (a matches LintAction::ClearDir { path } && path@ == old(self).package_path@
                + "/build"@),
            final(self).program_name == old(self).program_name,
            final(self).package_path == old(self).package_path,
            final(self).home_path == old(self).home_path,
            final(self).endpoint == old(self).endpoint,
            final(self).network == old(self).network,
    {
        self.phase = Phase::ClearingRootBuild;
        let path = self.package_path.clone().concat("/build");
        LintAction::ClearDir { path }
    }

    /// One step of the pass: consumes the outcome of the action last
    /// handed out and returns the next action.
    ///
    /// A failure outcome aborts the whole pass, whatever the phase: the
    /// machine moves to `Failed`, records the error, and no further event
    /// fits — in particular, after a compile failure no file of any
    /// dependency is rewritten and no later dependency is compiled.
    ///
    /// In the `Reading` phase the returned action writes the canonical
    /// form of exactly the text read, unconditionally: there is no
    /// comparison with the old text, so an already-canonical file is
    /// rewritten all the same.
    #[verifier::rlimit(100)]
    pub fn step(&mut self, ev: LintEvent) -> (a: LintAction)
        requires
            event_fits(old(self).phase, ev),
            old(self).wf(),
        ensures
            final(self).wf(),
            final(self).program_name == old(self).program_name,
            final(self).package_path == old(self).package_path,
            final(self).home_path == old(self).home_path,
            final(self).endpoint == old(self).endpoint,
            final(self).network == old(self).network,
            // fail-fast: any failure ends the pass at once
            (ev matches LintEvent::Failed { error } ==> (final(self).phase == Phase::Failed && final(self).error == Some(error) && a is Abort && same_deps(*old(self), *final(self)) && same_files(*old(self), *final(self)) && same_paths(*old(self), *final(self)) && same_scratch(*old(self), *final(self)) && final(self).compiled == old(self).compiled)),
            (!(ev is Failed) ==> final(self).error == old(self).error),
            // the root build directory cleared: scaffold the package
            ((old(self).phase == Phase::ClearingRootBuild && !(ev is Failed)) ==> (final(self).phase
                == Phase::CreatingScaffold && (a matches LintAction::CreateScaffold { path, program }
                && path@ == old(self).package_path@ + "/build"@ && program == old(self).program_name) && same_deps(*old(self), *final(self)) && same_files(*old(self), *final(self)) && same_paths(*old(self), *final(self)) && same_scratch(*old(self), *final(self)) && final(self).compiled == old(self).compiled)),
            // scaffold in place: resolve the dependency closure
            ((old(self).phase == Phase::CreatingScaffold && !(ev is Failed)) ==> (final(self).phase
                == Phase::Retrieving && a is Retrieve && same_deps(*old(self), *final(self)) && same_files(*old(self), *final(self)) && same_paths(*old(self), *final(self)) && same_scratch(*old(self), *final(self)) && final(self).compiled == old(self).compiled)),
            // closure resolved: the root goes last, then stage the first entry
            (old(self).phase == Phase::Retrieving ==> (ev matches LintEvent::Deps { deps } ==> (
            final(self).phase == Phase::Preparing && final(self).deps@ == deps@.push(
                old(self).program_name,
            ) && final(self).dep_idx == 0 && !final(self).compiled && (
            a matches LintAction::PrepareLocal { dependency } && dependency == final(self).deps[0]) && same_files(*old(self), *final(self)) && same_paths(*old(self), *final(self)) && same_scratch(*old(self), *final(self))))),
            // dependency staged: create the outputs scratch directory
            (old(self).phase == Phase::Preparing ==> (ev matches LintEvent::Prepared { local_path }
                ==> (final(self).phase == Phase::CreatingOutputs && final(self).local_path
                == local_path && (a matches LintAction::CreateOutputsDir { path } && path
                == local_path) && same_deps(*old(self), *final(self)) && same_files(*old(self), *final(self)) && same_scratch(*old(self), *final(self))
                && final(self).outputs_path == old(self).outputs_path && final(self).build_path
                == old(self).build_path && final(self).compiled == old(self).compiled))),
            // outputs scratch created: create the build scratch directory
            (old(self).phase == Phase::CreatingOutputs ==> (ev matches LintEvent::Path {
                path: created } ==> (final(self).phase == Phase::CreatingBuild && final(
            self).outputs_path == created && final(self).outputs_scratch && (
            a matches LintAction::CreateBuildDir { path } && path == old(self).local_path)
                && same_deps(*old(self), *final(self)) && same_files(*old(self), *final(self)) && final(self).local_path == old(self).local_path
                && final(self).build_path == old(self).build_path && final(self).build_scratch
                == old(self).build_scratch && final(self).compiled == old(self).compiled))),
            // build scratch created: enumerate the source files
            (old(self).phase == Phase::CreatingBuild ==> (ev matches LintEvent::Path {
                path: created } ==> (final(self).phase == Phase::Listing && final(
            self).build_path == created && final(self).build_scratch && (
            a matches LintAction::ListSourceFiles { path } && path == old(self).local_path)
                && same_deps(*old(self), *final(self)) && same_files(*old(self), *final(self)) && final(self).local_path == old(self).local_path
                && final(self).outputs_path == old(self).outputs_path && final(self).outputs_scratch
                == old(self).outputs_scratch && final(self).compiled == old(self).compiled))),
            // files enumerated: validate them
            (old(self).phase == Phase::Listing ==> (ev matches LintEvent::Files { files } ==> (
            final(self).phase == Phase::Checking && final(self).files == files && final(self).file_idx
                == 0 && (a is CheckSourceFiles) && same_deps(*old(self), *final(self)) && same_paths(*old(self), *final(self))
                && same_scratch(*old(self), *final(self)) && final(self).compiled == old(self).compiled))),
            // files valid: compile the first, or — with nothing to compile —
            // go straight to scratch teardown
            ((old(self).phase == Phase::Checking && !(ev is Failed)) ==> ((old(self).files.len() > 0
                ==> (final(self).phase == Phase::Compiling && final(self).file_idx == 0 && (
            a matches LintAction::CompileFile { path, program, outputs } && path == old(self).files[0] && program@ == old(self).deps[old(self).dep_idx as int]@ + ".aleo"@ && outputs
                == old(self).outputs_path) && final(self).compiled == old(self).compiled)) && (old(self).files.len() == 0 ==> (final(self).phase
                == Phase::RemovingBuildScratch && final(self).compiled && (
            a matches LintAction::RemoveDir { path } && path == old(self).build_path)
                && final(self).file_idx == old(self).file_idx)) && same_deps(*old(self), *final(self))
                && same_paths(*old(self), *final(self)) && same_scratch(*old(self), *final(self)) && final(self).files == old(self).files)),
            // a file compiled: the next one, or tear the build scratch down
            ((old(self).phase == Phase::Compiling && !(ev is Failed)) ==> ((old(self).file_idx + 1
                < old(self).files.len() ==> (final(self).phase == Phase::Compiling && final(self).file_idx == old(self).file_idx + 1 && (
            a matches LintAction::CompileFile { path, program, outputs } && path == old(self).files[
                old(self).file_idx + 1] && program@ == old(self).deps[old(self).dep_idx as int]@
                + ".aleo"@ && outputs == old(self).outputs_path) && final(self).compiled
                == old(self).compiled)) && (old(self).file_idx + 1 == old(self).files.len() ==> (final(self).phase == Phase::RemovingBuildScratch && final(self).compiled && (a matches LintAction::RemoveDir { path } && path == old(self).build_path)
                && final(self).file_idx == old(self).file_idx)) && same_deps(*old(self), *final(self))
                && same_paths(*old(self), *final(self)) && same_scratch(*old(self), *final(self)) && final(self).files == old(self).files)),
            // build scratch removed: remove the outputs scratch
            ((old(self).phase == Phase::RemovingBuildScratch && !(ev is Failed)) ==> (final(self).phase == Phase::RemovingOutputsScratch && !final(self).build_scratch && (
            a matches LintAction::RemoveDir { path } && path == old(self).outputs_path)
                && same_deps(*old(self), *final(self)) && same_files(*old(self), *final(self)) && same_paths(*old(self), *final(self)) && final(self).outputs_scratch
                == old(self).outputs_scratch && final(self).compiled == old(self).compiled)),
            // both scratch directories gone before any rewrite: read the
            // first file, or move to the next dependency
            ((old(self).phase == Phase::RemovingOutputsScratch && !(ev is Failed)) ==> (!final(self).outputs_scratch && !final(self).build_scratch && (old(self).files.len() > 0 ==> (final(self).phase == Phase::Reading && final(self).file_idx == 0 && (
            a matches LintAction::ReadFile { path } && path == old(self).files[0])
                && same_deps(*old(self), *final(self)) && final(self).compiled == old(self).compiled)) && (old(self).files.len() == 0 ==> advanced_dep(*old(self), *final(self), a))
                && same_paths(*old(self), *final(self)) && final(self).files == old(self).files)),
            // a file read: write its canonical form back, unconditionally
            (old(self).phase == Phase::Reading ==> (ev matches LintEvent::Text { text } ==> (
            final(self).phase == Phase::Writing && (a matches LintAction::WriteFile {
                path, text: out } && path == old(self).files[old(self).file_idx as int] && out@
                == normalized(text@)) && same_deps(*old(self), *final(self)) && same_files(*old(self), *final(self)) && same_paths(*old(self), *final(self))
                && same_scratch(*old(self), *final(self)) && final(self).compiled == old(self).compiled))),
            // a file written: read the next, or move to the next dependency
            ((old(self).phase == Phase::Writing && !(ev is Failed)) ==> ((old(self).file_idx + 1
                < old(self).files.len() ==> (final(self).phase == Phase::Reading && final(self).file_idx == old(self).file_idx + 1 && (a matches LintAction::ReadFile { path } && path
                == old(self).files[old(self).file_idx + 1]) && same_deps(*old(self), *final(self))
                && final(self).compiled == old(self).compiled)) && (old(self).file_idx + 1 == old(self).files.len() ==> advanced_dep(*old(self), *final(self), a))
                && final(self).files == old(self).files && same_paths(*old(self), *final(self)) && same_scratch(*old(self), *final(self)))),
    {
        match ev {
            LintEvent::Failed { error } => {
                self.phase = Phase::Failed;
                self.error = Some(error);
                LintAction::Abort
            },
            LintEvent::Done => {
                match self.phase {
                    Phase::ClearingRootBuild => {
                        self.phase = Phase::CreatingScaffold;
                        let path = self.package_path.clone().concat("/build");
                        let program = self.program_name.clone();
                        LintAction::CreateScaffold { path, program }
                    },
                    Phase::CreatingScaffold => {
                        self.phase = Phase::Retrieving;
                        LintAction::Retrieve
                    },
                    Phase::Checking => {
                        if self.files.len() > 0 {
                            self.phase = Phase::Compiling;
                            self.file_idx = 0;
                            self.compile_action()
                        } else {
                            self.compiled = true;
                            self.phase = Phase::RemovingBuildScratch;
                            LintAction::RemoveDir { path: self.build_path.clone() }
                        }
                    },
                    Phase::Compiling => {
                        if self.file_idx + 1 < self.files.len() {
                            self.file_idx = self.file_idx + 1;
                            self.compile_action()
                        } else {
                            self.compiled = true;
                            self.phase = Phase::RemovingBuildScratch;
                            LintAction::RemoveDir { path: self.build_path.clone() }
                        }
                    },
                    Phase::RemovingBuildScratch => {
                        self.build_scratch = false;
                        self.phase = Phase::RemovingOutputsScratch;
                        LintAction::RemoveDir { path: self.outputs_path.clone() }
                    },
                    Phase::RemovingOutputsScratch => {
                        self.outputs_scratch = false;
                        if self.files.len() > 0 {
                            self.phase = Phase::Reading;
                            self.file_idx = 0;
                            LintAction::ReadFile { path: self.files[0].clone() }
                        } else {
                            self.next_dependency()
                        }
                    },
                    Phase::Writing => {
                        if self.file_idx + 1 < self.files.len() {
                            self.file_idx = self.file_idx + 1;
                            self.phase = Phase::Reading;
                            LintAction::ReadFile { path: self.files[self.file_idx].clone() }
                        } else {
                            self.next_dependency()
                        }
                    },
                    _ => {
                        proof {
                            assert(false);
                        }
                        LintAction::Abort
                    },
                }
            },
            LintEvent::Deps { deps } => {
                self.deps = deps;
                self.deps.push(self.program_name.clone());
                self.dep_idx = 0;
                self.compiled = false;
                self.phase = Phase::Preparing;
                LintAction::PrepareLocal { dependency: self.deps[0].clone() }
            },
            LintEvent::Prepared { local_path } => {
                self.local_path = local_path;
                self.phase = Phase::CreatingOutputs;
                LintAction::CreateOutputsDir { path: self.local_path.clone() }
            },
            LintEvent::Path { path } => {
                match self.phase {
                    Phase::CreatingOutputs => {
                        self.outputs_path = path;
                        self.outputs_scratch = true;
                        self.phase = Phase::CreatingBuild;
                        LintAction::CreateBuildDir { path: self.local_path.clone() }
                    },
                    Phase::CreatingBuild => {
                        self.build_path = path;
                        self.build_scratch = true;
                        self.phase = Phase::Listing;
                        LintAction::ListSourceFiles { path: self.local_path.clone() }
                    },
                    _ => {
                        proof {
                            assert(false);
                        }
                        LintAction::Abort
                    },
                }
            },
            LintEvent::Files { files } => {
                self.files = files;
                self.file_idx = 0;
                self.phase = Phase::Checking;
                LintAction::CheckSourceFiles
            },
            LintEvent::Text { text } => {
                self.phase = Phase::Writing;
                let out = normalize_code(text.as_str());
                LintAction::WriteFile { path: self.files[self.file_idx].clone(), text: out }
            },
        }
    }

    /// The compile action for the current file of the current dependency:
    /// the program identifier is the dependency's name with the `.aleo`
    /// network suffix.
    fn compile_action(&self) -> (a: LintAction)
        requires
            self.wf(),
            self.dep_idx < self.deps.len(),
            self.file_idx < self.files.len(),
        ensures
            (a matches LintAction::CompileFile { path, program, outputs } && path == self.files[
                self.file_idx as int] && program@ == self.deps[self.dep_idx as int]@ + ".aleo"@
                && outputs == self.outputs_path),
    {
        let path = self.files[self.file_idx].clone();
        let program = self.deps[self.dep_idx].clone().concat(".aleo");
        let outputs = self.outputs_path.clone();
        LintAction::CompileFile { path, program, outputs }
    }

    /// Moves on past a finished dependency: stage the next one, or finish
    /// the pass after the last (the root, which was appended at the end).
    fn next_dependency(&mut self) -> (a: LintAction)
        requires
            old(self).wf(),
            old(self).dep_idx < old(self).deps.len(),
            old(self).phase == Phase::RemovingOutputsScratch || old(self).phase == Phase::Writing,
            !old(self).build_scratch,
            !old(self).outputs_scratch,
        ensures
            final(self).wf(),
            advanced_dep(*old(self), *final(self), a),
            final(self).program_name == old(self).program_name,
            final(self).package_path == old(self).package_path,
            final(self).home_path == old(self).home_path,
            final(self).endpoint == old(self).endpoint,
            final(self).network == old(self).network,
            final(self).error == old(self).error,
            !final(self).outputs_scratch,
            !final(self).build_scratch,
    {
        if self.dep_idx + 1 < self.deps.len() {
            self.dep_idx = self.dep_idx + 1;
            self.compiled = false;
            self.phase = Phase::Preparing;
            LintAction::PrepareLocal { dependency: self.deps[self.dep_idx].clone() }
        } else {
            self.phase = Phase::Done;
            LintAction::Finish
        }
    }
}

/// How a finished dependency is left behind: either the next dependency is
/// staged, or — after the last, which is the root — the pass is done.
pub open spec fn advanced_dep(pre: Linter, post: Linter, a: LintAction) -> bool {
    &&& (pre.dep_idx + 1 < pre.deps.len() ==> (post.phase == Phase::Preparing && post.dep_idx
        == pre.dep_idx + 1 && !post.compiled && (a matches LintAction::PrepareLocal { dependency }
        && dependency == pre.deps[pre.dep_idx + 1])))
    &&& (pre.dep_idx + 1 == pre.deps.len() ==> (post.phase == Phase::Done && a is Finish
        && post.dep_idx == pre.dep_idx && post.compiled == pre.compiled))
    &&& post.deps == pre.deps
    &&& same_files(pre, post)
    &&& same_paths(pre, post)
}

/// The file list and the position in it are untouched.
pub open spec fn same_files(pre: Linter, post: Linter) -> bool {
    post.files == pre.files && post.file_idx == pre.file_idx
}

/// The dependency sequence and the position in it are untouched.
pub open spec fn same_deps(pre: Linter, post: Linter) -> bool {
    post.deps == pre.deps && post.dep_idx == pre.dep_idx
}

/// The three staged paths are untouched.
pub open spec fn same_paths(pre: Linter, post: Linter) -> bool {
    post.local_path == pre.local_path && post.outputs_path == pre.outputs_path && post.build_path
        == pre.build_path
}

/// The model of the scratch directories on disk is untouched.
pub open spec fn same_scratch(pre: Linter, post: Linter) -> bool {
    post.outputs_scratch == pre.outputs_scratch && post.build_scratch == pre.build_scratch
}

/// The `leo format` command: it takes no flags or arguments; the
/// surrounding command layer reads the package's manifest, builds a
/// [`Linter`] for the package and runs the pass.
pub struct Format {}

impl Format {
    /// The endpoint used for remote dependency fetch when none is
    /// configured.
    pub fn default_endpoint() -> (s: String)
        ensures
            s@ == "https://api.explorer.aleo.org/v1"@,
    {
        String::from_str("https://api.explorer.aleo.org/v1")
    }
}

/// Scratch cleanup: while any of a dependency's files is being rewritten,
/// both of its scratch directories are gone and all of its files have
/// compiled.  (When compilation fails mid-loop the pass aborts at once, and
/// the scratch directories of the failed dependency are left behind —
/// teardown is reached only on the success path.)
pub proof fn lemma_scratch_cleanup(l: Linter)
    requires
        l.wf(),
        l.phase == Phase::Reading || l.phase == Phase::Writing,
    ensures
        !l.build_scratch,
        !l.outputs_scratch,
        l.compiled,
{
}

/// Fail-fast: a failed machine accepts no further event, so after a
/// failure no later file is compiled, read or written.
pub proof fn lemma_failed_is_terminal(l: Linter, ev: LintEvent)
    requires
        l.phase == Phase::Failed,
    ensures
        !event_fits(l.phase, ev),
{
}

} // verus!
