use leo_linter::normalizer::normalize_code;
use leo_linter::orchestrator::Format;
use leo_linter::orchestrator::LintAction;
use leo_linter::orchestrator::LintError;
use leo_linter::orchestrator::LintEvent;
use leo_linter::orchestrator::Linter;
use leo_linter::orchestrator::Phase;

fn machine() -> Linter {
    Linter::new(
        String::from("demo"),
        String::from("testnet"),
        String::from("https://api.explorer.aleo.org/v1"),
        String::from("/pkg"),
        String::from("/home/user"),
    )
    .unwrap()
}

#[test]
fn construction_cannot_fail() {
    let l = machine();
    assert_eq!(l.phase, Phase::Ready);
    assert!(l.error.is_none());
}

#[test]
fn full_pass_over_root_only() {
    let mut l = machine();

    let a = l.start();
    assert!(matches!(a, LintAction::ClearDir { ref path } if path == "/pkg/build"));

    let a = l.step(LintEvent::Done);
    assert!(matches!(
        a,
        LintAction::CreateScaffold { ref path, ref program }
            if path == "/pkg/build" && program == "demo"
    ));

    let a = l.step(LintEvent::Done);
    assert!(matches!(a, LintAction::Retrieve));

    // no local dependencies: the root itself is appended and processed last
    let a = l.step(LintEvent::Deps { deps: Vec::new() });
    assert!(matches!(a, LintAction::PrepareLocal { ref dependency } if dependency == "demo"));

    let a = l.step(LintEvent::Prepared {
        local_path: String::from("/pkg"),
    });
    assert!(matches!(a, LintAction::CreateOutputsDir { ref path } if path == "/pkg"));

    let a = l.step(LintEvent::Path {
        path: String::from("/pkg/outputs"),
    });
    assert!(l.outputs_scratch);
    assert!(matches!(a, LintAction::CreateBuildDir { ref path } if path == "/pkg"));

    let a = l.step(LintEvent::Path {
        path: String::from("/pkg/build"),
    });
    assert!(l.build_scratch);
    assert!(matches!(a, LintAction::ListSourceFiles { ref path } if path == "/pkg"));

    let a = l.step(LintEvent::Files {
        files: vec![String::from("/pkg/src/main.leo")],
    });
    assert!(matches!(a, LintAction::CheckSourceFiles));

    // the program identifier carries the network suffix
    let a = l.step(LintEvent::Done);
    assert!(matches!(
        a,
        LintAction::CompileFile { ref path, ref program, ref outputs }
            if path == "/pkg/src/main.leo" && program == "demo.aleo" && outputs == "/pkg/outputs"
    ));

    // after the last compile, both scratch directories go, build first
    let a = l.step(LintEvent::Done);
    assert!(matches!(a, LintAction::RemoveDir { ref path } if path == "/pkg/build"));
    let a = l.step(LintEvent::Done);
    assert!(!l.build_scratch);
    assert!(matches!(a, LintAction::RemoveDir { ref path } if path == "/pkg/outputs"));

    // scratch is gone before any rewrite begins
    let a = l.step(LintEvent::Done);
    assert!(!l.build_scratch && !l.outputs_scratch && l.compiled);
    assert!(matches!(a, LintAction::ReadFile { ref path } if path == "/pkg/src/main.leo"));

    let a = l.step(LintEvent::Text {
        text: String::from("function f(){let x:u8=1;}"),
    });
    assert!(matches!(
        a,
        LintAction::WriteFile { ref path, ref text }
            if path == "/pkg/src/main.leo" && text == "function f(  ){\n    let x: u8=1;\n    \n}"
    ));

    let a = l.step(LintEvent::Done);
    assert!(matches!(a, LintAction::Finish));
    assert_eq!(l.phase, Phase::Done);
}

#[test]
fn rewrite_is_unconditional_for_canonical_text() {
    let mut l = machine();
    l.start();
    l.step(LintEvent::Done);
    l.step(LintEvent::Done);
    l.step(LintEvent::Deps { deps: Vec::new() });
    l.step(LintEvent::Prepared {
        local_path: String::from("/pkg"),
    });
    l.step(LintEvent::Path {
        path: String::from("/pkg/outputs"),
    });
    l.step(LintEvent::Path {
        path: String::from("/pkg/build"),
    });
    l.step(LintEvent::Files {
        files: vec![String::from("/pkg/src/main.leo")],
    });
    l.step(LintEvent::Done);
    l.step(LintEvent::Done);
    l.step(LintEvent::Done);
    l.step(LintEvent::Done);
    // the text is already canonical: a write is issued all the same
    let canonical = normalize_code("function f(){let x:u8=1;}");
    let a = l.step(LintEvent::Text {
        text: canonical.clone(),
    });
    assert!(matches!(
        a,
        LintAction::WriteFile { ref text, .. } if *text == canonical
    ));
}

#[test]
fn compile_failure_aborts_before_any_rewrite() {
    let mut l = machine();
    l.start();
    l.step(LintEvent::Done);
    l.step(LintEvent::Done);
    // two dependencies: `a` fails, so nothing of `a` is rewritten and
    // nothing of the root is ever staged
    l.step(LintEvent::Deps {
        deps: vec![String::from("a")],
    });
    l.step(LintEvent::Prepared {
        local_path: String::from("/home/user/.aleo/a"),
    });
    l.step(LintEvent::Path {
        path: String::from("/home/user/.aleo/a/outputs"),
    });
    l.step(LintEvent::Path {
        path: String::from("/home/user/.aleo/a/build"),
    });
    l.step(LintEvent::Files {
        files: vec![String::from("/home/user/.aleo/a/src/main.leo")],
    });
    let a = l.step(LintEvent::Done);
    assert!(matches!(a, LintAction::CompileFile { .. }));

    let a = l.step(LintEvent::Failed {
        error: LintError::Compile,
    });
    assert!(matches!(a, LintAction::Abort));
    assert_eq!(l.phase, Phase::Failed);
    assert_eq!(l.error, Some(LintError::Compile));
    // the abort comes before teardown: the failed dependency's scratch
    // directories are left behind (there is no rollback)
    assert!(l.build_scratch);
    assert!(l.outputs_scratch);
}

#[test]
fn failure_while_clearing_build_aborts() {
    let mut l = machine();
    l.start();
    let a = l.step(LintEvent::Failed {
        error: LintError::BuildClear,
    });
    assert!(matches!(a, LintAction::Abort));
    assert_eq!(l.error, Some(LintError::BuildClear));
}

#[test]
fn retrieval_failure_aborts() {
    let mut l = machine();
    l.start();
    l.step(LintEvent::Done);
    l.step(LintEvent::Done);
    let a = l.step(LintEvent::Failed {
        error: LintError::Retrieve,
    });
    assert!(matches!(a, LintAction::Abort));
    assert_eq!(l.error, Some(LintError::Retrieve));
}

#[test]
fn write_failure_aborts() {
    let mut l = machine();
    l.start();
    l.step(LintEvent::Done);
    l.step(LintEvent::Done);
    l.step(LintEvent::Deps { deps: Vec::new() });
    l.step(LintEvent::Prepared {
        local_path: String::from("/pkg"),
    });
    l.step(LintEvent::Path {
        path: String::from("/pkg/outputs"),
    });
    l.step(LintEvent::Path {
        path: String::from("/pkg/build"),
    });
    l.step(LintEvent::Files {
        files: vec![String::from("/pkg/src/main.leo")],
    });
    l.step(LintEvent::Done);
    l.step(LintEvent::Done);
    l.step(LintEvent::Done);
    l.step(LintEvent::Done);
    l.step(LintEvent::Text {
        text: String::from("a;"),
    });
    let a = l.step(LintEvent::Failed {
        error: LintError::Write,
    });
    assert!(matches!(a, LintAction::Abort));
    assert_eq!(l.phase, Phase::Failed);
    assert_eq!(l.error, Some(LintError::Write));
}

#[test]
fn dependency_with_no_files_is_skipped_cleanly() {
    let mut l = machine();
    l.start();
    l.step(LintEvent::Done);
    l.step(LintEvent::Done);
    l.step(LintEvent::Deps { deps: Vec::new() });
    l.step(LintEvent::Prepared {
        local_path: String::from("/pkg"),
    });
    l.step(LintEvent::Path {
        path: String::from("/pkg/outputs"),
    });
    l.step(LintEvent::Path {
        path: String::from("/pkg/build"),
    });
    l.step(LintEvent::Files { files: Vec::new() });
    // nothing to compile: straight to teardown, then done
    let a = l.step(LintEvent::Done);
    assert!(matches!(a, LintAction::RemoveDir { ref path } if path == "/pkg/build"));
    let a = l.step(LintEvent::Done);
    assert!(matches!(a, LintAction::RemoveDir { ref path } if path == "/pkg/outputs"));
    let a = l.step(LintEvent::Done);
    assert!(matches!(a, LintAction::Finish));
    assert_eq!(l.phase, Phase::Done);
}

#[test]
fn two_dependencies_are_processed_in_order() {
    let mut l = machine();
    l.start();
    l.step(LintEvent::Done);
    l.step(LintEvent::Done);
    let a = l.step(LintEvent::Deps {
        deps: vec![String::from("a")],
    });
    assert!(matches!(a, LintAction::PrepareLocal { ref dependency } if dependency == "a"));
    l.step(LintEvent::Prepared {
        local_path: String::from("/deps/a"),
    });
    l.step(LintEvent::Path {
        path: String::from("/deps/a/outputs"),
    });
    l.step(LintEvent::Path {
        path: String::from("/deps/a/build"),
    });
    l.step(LintEvent::Files { files: Vec::new() });
    l.step(LintEvent::Done);
    l.step(LintEvent::Done);
    // after `a` is finished, the root is staged last
    let a = l.step(LintEvent::Done);
    assert!(matches!(a, LintAction::PrepareLocal { ref dependency } if dependency == "demo"));
}

#[test]
fn default_endpoint_is_the_explorer_api() {
    assert_eq!(
        Format::default_endpoint(),
        "https://api.explorer.aleo.org/v1"
    );
}
