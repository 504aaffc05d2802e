use cw_optimizoor::ledger::{checksums_text, Artifact, Ledger};
use cw_optimizoor::optimization::{
    decide, find_stored, incremental_optimizations, optimized_output_path, Decision, NamingError,
    OptimizationJob,
};
use cw_optimizoor::paths::ArtifactPath;

const ARCH: &str = "x86_64";

fn path(components: &[&str]) -> ArtifactPath {
    ArtifactPath::new(components.iter().map(|c| c.to_string()).collect())
}

fn out_dir() -> ArtifactPath {
    path(&["/", "ws", "artifacts"])
}

fn intermediates(contents: &[(&str, &[u8])]) -> Vec<Artifact> {
    contents
        .iter()
        .map(|(name, bytes)| Artifact::new(path(&["/", "ws", "target", name]), bytes.to_vec()))
        .collect()
}

/// What the optimizer left in the output directory after a run: a stand-in
/// for optimized bytes of each job.
fn optimized(jobs: &[OptimizationJob], inputs: &[Artifact]) -> Vec<Artifact> {
    jobs.iter()
        .zip(inputs)
        .map(|(job, input)| {
            let mut bytes = b"optimized:".to_vec();
            bytes.extend_from_slice(&input.contents);
            Artifact::new(ArtifactPath::new(job.output.components.clone()), bytes)
        })
        .collect()
}

fn copy(artifacts: &[Artifact]) -> Vec<Artifact> {
    artifacts
        .iter()
        .map(|a| Artifact::new(ArtifactPath::new(a.path.components.clone()), a.contents.clone()))
        .collect()
}

fn decisions(jobs: &[OptimizationJob]) -> Vec<Decision> {
    jobs.iter().map(|j| j.decision).collect()
}

struct RunResult {
    jobs: Vec<OptimizationJob>,
    intermediate_ledger: String,
    final_ledger: String,
    outputs: Vec<Artifact>,
}

/// One run of the stage: plan, "optimize" what is not skipped, write both
/// ledgers.
fn run(inputs: &[Artifact], present: &[Artifact], prev_intermediate: &str, prev_final: &str) -> RunResult {
    let inputs_vec = copy(inputs);
    let jobs = incremental_optimizations(
        &out_dir(),
        ARCH,
        &inputs_vec,
        &copy(present),
        prev_intermediate,
        prev_final,
    )
    .unwrap();
    let fresh = optimized(&jobs, inputs);
    let mut outputs = Vec::new();
    for (job, made) in jobs.iter().zip(fresh) {
        let kept = present.iter().find(|p| p.path.components == job.output.components);
        match (job.decision, kept) {
            (Decision::Skip, Some(old)) => outputs.push(copy(std::slice::from_ref(old)).remove(0)),
            _ => outputs.push(made),
        }
    }
    RunResult {
        jobs,
        intermediate_ledger: checksums_text(&inputs_vec),
        final_ledger: checksums_text(&outputs),
        outputs,
    }
}

#[test]
fn suffixes_filename_with_arch() {
    let input_path = path(&["some", "path", "to", "artifact.wasm"]);
    let output_dir = path(&["some", "output", "dir"]);

    assert_eq!(
        format!("some/output/dir/artifact-{}.wasm", ARCH),
        optimized_output_path(&input_path, &output_dir, ARCH).unwrap().display()
    )
}

#[test]
fn naming_fails_without_file_name_or_extension() {
    let dir = out_dir();
    assert_eq!(
        NamingError::MissingFileName,
        optimized_output_path(&path(&[]), &dir, ARCH).unwrap_err()
    );
    assert_eq!(
        NamingError::MissingFileName,
        optimized_output_path(&path(&["/"]), &dir, ARCH).unwrap_err()
    );
    assert_eq!(
        NamingError::MissingFileName,
        optimized_output_path(&path(&["a", ".."]), &dir, ARCH).unwrap_err()
    );
    assert_eq!(
        NamingError::UnparseableFileName,
        optimized_output_path(&path(&["a", "artifact"]), &dir, ARCH).unwrap_err()
    );
    assert_eq!(
        NamingError::UnparseableFileName,
        optimized_output_path(&path(&["a", ".hidden"]), &dir, ARCH).unwrap_err()
    );
}

#[test]
fn naming_keeps_inner_dots_and_differs_per_arch() {
    let p = path(&["t", "my.contract.wasm"]);
    let dir = path(&["out"]);
    assert_eq!(
        "out/my.contract-aarch64.wasm",
        optimized_output_path(&p, &dir, "aarch64").unwrap().display()
    );
    let a = optimized_output_path(&path(&["x", "a.wasm"]), &dir, ARCH).unwrap();
    let b = optimized_output_path(&path(&["y", "b.wasm"]), &dir, ARCH).unwrap();
    assert_ne!(a.display(), b.display());
    let a_again = optimized_output_path(&path(&["elsewhere", "a.wasm"]), &dir, ARCH).unwrap();
    assert_eq!(a.display(), a_again.display());
}

#[test]
fn decides_on_all_three_conditions() {
    let source = Artifact::new(path(&["t", "a.wasm"]), b"source".to_vec());
    let output = path(&["out", "a-x86_64.wasm"]);
    let final_bytes = b"final".to_vec();
    let prev = Ledger::parse(&checksums_text(&vec![Artifact::new(
        path(&["t", "a.wasm"]),
        b"source".to_vec(),
    )]));
    let current = Ledger::parse(&checksums_text(&vec![Artifact::new(
        path(&["out", "a-x86_64.wasm"]),
        b"final".to_vec(),
    )]));
    let empty = Ledger::parse("");
    assert_eq!(Decision::Skip, decide(&source, &output, Some(&final_bytes), &prev, &current));
    assert_eq!(Decision::Optimize, decide(&source, &output, None, &prev, &current));
    assert_eq!(Decision::Optimize, decide(&source, &output, Some(&final_bytes), &empty, &current));
    assert_eq!(Decision::Optimize, decide(&source, &output, Some(&final_bytes), &prev, &empty));
    let other = b"tampered".to_vec();
    assert_eq!(Decision::Optimize, decide(&source, &output, Some(&other), &prev, &current));
}

#[test]
fn finds_stored_outputs_by_file_name() {
    let files = vec![
        Artifact::new(path(&["out", "a.wasm"]), b"1".to_vec()),
        Artifact::new(path(&["out", "b.wasm"]), b"2".to_vec()),
        Artifact::new(path(&["elsewhere", "b.wasm"]), b"3".to_vec()),
    ];
    assert_eq!(Some(&b"2".to_vec()), find_stored(&files, &"b.wasm".to_string()));
    assert_eq!(None, find_stored(&files, &"c.wasm".to_string()));
}

#[test]
fn planning_fails_on_first_unnameable_artifact() {
    let inputs = vec![
        Artifact::new(path(&["t", "a.wasm"]), Vec::new()),
        Artifact::new(path(&["t", "noext"]), Vec::new()),
        Artifact::new(path(&["/"]), Vec::new()),
    ];
    let r = incremental_optimizations(&out_dir(), ARCH, &inputs, &Vec::new(), "", "");
    assert_eq!(NamingError::UnparseableFileName, r.err().unwrap());
}

#[test]
fn first_run_with_missing_ledgers_optimizes_everything() {
    let inputs = intermediates(&[("a.wasm", b"aaa"), ("b.wasm", b"bbb")]);
    let first = run(&inputs, &[], "", "");
    assert_eq!(vec![Decision::Optimize, Decision::Optimize], decisions(&first.jobs));
    assert_eq!(2, first.final_ledger.lines().count());
    assert_eq!(2, first.intermediate_ledger.lines().count());
}

#[test]
fn corrupt_ledgers_on_first_run_optimize_everything() {
    let inputs = intermediates(&[("a.wasm", b"aaa"), ("b.wasm", b"bbb")]);
    let first = run(&inputs, &[], "\u{0}garbage\n\nnot a ledger", "zzz  a-x86_64.wasm\n");
    assert_eq!(vec![Decision::Optimize, Decision::Optimize], decisions(&first.jobs));
    assert!(first.intermediate_ledger.ends_with("  b.wasm\n"));
}

#[test]
fn second_run_without_changes_skips_everything() {
    let inputs = intermediates(&[("a.wasm", b"aaa"), ("b.wasm", b"bbb"), ("c.wasm", b"ccc")]);
    let first = run(&inputs, &[], "", "");
    let second = run(&inputs, &first.outputs, &first.intermediate_ledger, &first.final_ledger);
    assert_eq!(vec![Decision::Skip; 3], decisions(&second.jobs));
    for (a, b) in first.outputs.iter().zip(&second.outputs) {
        assert_eq!(a.contents, b.contents);
    }
    assert_eq!(first.final_ledger, second.final_ledger);
}

#[test]
fn changed_member_alone_is_optimized_again() {
    let inputs = intermediates(&[("a.wasm", b"aaa"), ("b.wasm", b"bbb"), ("c.wasm", b"ccc")]);
    let first = run(&inputs, &[], "", "");
    let changed = intermediates(&[("a.wasm", b"aaa"), ("b.wasm", b"bbb, changed"), ("c.wasm", b"ccc")]);
    let second = run(&changed, &first.outputs, &first.intermediate_ledger, &first.final_ledger);
    assert_eq!(
        vec![Decision::Skip, Decision::Optimize, Decision::Skip],
        decisions(&second.jobs)
    );
}

#[test]
fn deleted_or_altered_output_is_optimized_again() {
    let inputs = intermediates(&[("a.wasm", b"aaa"), ("b.wasm", b"bbb")]);
    let first = run(&inputs, &[], "", "");

    let without_a: Vec<Artifact> = copy(&first.outputs[1..]);
    let second = run(&inputs, &without_a, &first.intermediate_ledger, &first.final_ledger);
    assert_eq!(vec![Decision::Optimize, Decision::Skip], decisions(&second.jobs));

    let mut altered = copy(&first.outputs);
    altered[1].contents.push(0);
    let third = run(&inputs, &altered, &first.intermediate_ledger, &first.final_ledger);
    assert_eq!(vec![Decision::Skip, Decision::Optimize], decisions(&third.jobs));
}

#[test]
fn jobs_carry_paths_and_stems() {
    let inputs = intermediates(&[("cw20_base.wasm", b"x")]);
    let jobs = incremental_optimizations(&out_dir(), ARCH, &inputs, &Vec::new(), "", "").unwrap();
    assert_eq!(1, jobs.len());
    assert_eq!("cw20_base", jobs[0].stem);
    assert_eq!("/ws/target/cw20_base.wasm", jobs[0].source.display());
    assert_eq!("/ws/artifacts/cw20_base-x86_64.wasm", jobs[0].output.display());
}
