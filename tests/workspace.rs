use cw_optimizoor::compilation::{
    collect_artifacts, compile_jobs, resolve_jobs, wasm_artifacts, CompileJob, CompileKind,
    CompiledOutput, JobsError,
};
use cw_optimizoor::ledger::Artifact;
use cw_optimizoor::optimization::{incremental_optimizations, Decision};
use cw_optimizoor::paths::ArtifactPath;
use cw_optimizoor::workspace::{
    contract_members, find_manifest, partition, DiscoveryError, PathProbe, WorkspaceMember,
};

fn path(components: &[&str]) -> ArtifactPath {
    ArtifactPath::new(components.iter().map(|c| c.to_string()).collect())
}

fn member(name: &str, dir: &[&str], features: &[&[&str]]) -> WorkspaceMember {
    let mut manifest: Vec<&str> = dir.to_vec();
    manifest.push("Cargo.toml");
    WorkspaceMember {
        name: name.to_string(),
        manifest_path: path(&manifest),
        dependency_features: features
            .iter()
            .map(|fs| fs.iter().map(|f| f.to_string()).collect())
            .collect(),
    }
}

fn names(ms: &[WorkspaceMember]) -> Vec<String> {
    ms.iter().map(|m| m.name.clone()).collect()
}

fn wasm(p: &[&str]) -> CompiledOutput {
    CompiledOutput { kind: CompileKind::Target("wasm32-unknown-unknown".to_string()), path: path(p) }
}

fn host(p: &[&str]) -> CompiledOutput {
    CompiledOutput { kind: CompileKind::Host, path: path(p) }
}

fn probe(exists: bool, is_dir: bool, contains_manifest: bool) -> PathProbe {
    PathProbe { exists, is_dir, contains_manifest }
}

fn check_finds_manifest() {
    // dir path
    let dir = path(&["/", "repo", "tests", "cw-plus"]);
    let found = find_manifest(&dir, &probe(true, true, true)).unwrap();
    assert!(found.ends_with("Cargo.toml"));
    assert_eq!("/repo/tests/cw-plus/Cargo.toml", found.display());

    // manifest path
    let manifest = path(&["/", "repo", "tests", "cw-plus", "Cargo.toml"]);
    let found = find_manifest(&manifest, &probe(true, false, false)).unwrap();
    assert_eq!("/repo/tests/cw-plus/Cargo.toml", found.display());

    // invalid manifest
    let wrong = path(&["/", "repo", "tests", "cw-plus", "wrong.toml"]);
    let res = find_manifest(&wrong, &probe(false, false, false));
    assert!(res.is_err());
}

#[test]
fn cw_plus_finds_manifest() {
    check_finds_manifest();
}

#[test]
fn integration_finds_manifest() {
    check_finds_manifest();
}

#[test]
fn reports_missing_manifests() {
    let dir = path(&["/", "empty"]);
    match find_manifest(&dir, &probe(true, true, false)) {
        Err(DiscoveryError::ManifestNotFound(p)) => assert_eq!("/empty/Cargo.toml", p.display()),
        other => panic!("unexpected {:?}", other),
    }
    let manifest = path(&["/", "gone", "Cargo.toml"]);
    match find_manifest(&manifest, &probe(false, false, false)) {
        Err(DiscoveryError::ManifestNotFound(p)) => assert_eq!("/gone/Cargo.toml", p.display()),
        other => panic!("unexpected {:?}", other),
    }
    let file = path(&["/", "notes.txt"]);
    match find_manifest(&file, &probe(true, false, false)) {
        Err(DiscoveryError::InvalidWorkspacePath(p)) => assert_eq!("/notes.txt", p.display()),
        other => panic!("unexpected {:?}", other),
    }
}

#[test]
fn virtual_workspaces_build_only_contracts() {
    let root = path(&["/", "ws"]);
    let members = vec![
        member("cw20", &["/", "ws", "contracts", "cw20"], &[]),
        member("helpers", &["/", "ws", "packages", "helpers"], &[]),
        member("cw721", &["/", "ws", "contracts", "cw721"], &[]),
    ];
    let found = contract_members(true, &root, &members).unwrap();
    assert_eq!(vec!["cw20", "cw721"], names(&found));
    let all = contract_members(false, &root, &members).unwrap();
    assert_eq!(vec!["cw20", "helpers", "cw721"], names(&all));
}

#[test]
fn no_contracts_is_a_discovery_error() {
    let root = path(&["/", "ws"]);
    let members = vec![member("helpers", &["/", "ws", "packages", "helpers"], &[])];
    assert!(matches!(
        contract_members(true, &root, &members),
        Err(DiscoveryError::NoContracts)
    ));
    assert!(matches!(
        contract_members(false, &root, &Vec::new()),
        Err(DiscoveryError::NoContracts)
    ));
    // nothing to compile either
    let p = partition(&Vec::new());
    assert!(compile_jobs(&p).is_empty());
}

#[test]
fn library_members_are_isolated() {
    let members = vec![
        member("a", &["/", "ws", "contracts", "a"], &[&["std"], &[]]),
        member("b", &["/", "ws", "contracts", "b"], &[&["iterator"], &["library", "x"]]),
        member("c", &["/", "ws", "contracts", "c"], &[]),
    ];
    let p = partition(&members);
    assert_eq!(vec!["a", "c"], p.shared);
    assert_eq!(vec!["b"], names(&p.isolated));
    assert!(!members[0].needs_isolation());
    assert!(members[1].needs_isolation());
}

fn job_names(jobs: &[CompileJob]) -> Vec<String> {
    jobs.iter()
        .map(|j| match j {
            CompileJob::Shared(ns) => format!("shared:{}", ns.join(",")),
            CompileJob::Isolated(n) => format!("isolated:{}", n),
        })
        .collect()
}

#[test]
fn three_plain_members_compile_once() {
    let root = path(&["/", "ws"]);
    let members = vec![
        member("a", &["/", "ws", "contracts", "a"], &[]),
        member("b", &["/", "ws", "contracts", "b"], &[]),
        member("c", &["/", "ws", "contracts", "c"], &[]),
    ];
    let contracts = contract_members(true, &root, &members).unwrap();
    let jobs = compile_jobs(&partition(&contracts));
    assert_eq!(vec!["shared:a,b,c"], job_names(&jobs));

    let produced = vec![vec![
        wasm(&["/", "ws", "target", "wasm32-unknown-unknown", "release", "a.wasm"]),
        host(&["/", "ws", "target", "release", "libbuild_helper.so"]),
        wasm(&["/", "ws", "target", "wasm32-unknown-unknown", "release", "b.wasm"]),
        wasm(&["/", "ws", "target", "wasm32-unknown-unknown", "release", "c.wasm"]),
    ]];
    let paths = collect_artifacts(&produced);
    assert_eq!(3, paths.len());
    let inputs: Vec<Artifact> = paths
        .into_iter()
        .map(|p| Artifact::new(p, b"\0asm".to_vec()))
        .collect();
    let out = path(&["/", "ws", "artifacts"]);
    let planned = incremental_optimizations(&out, "x86_64", &inputs, &Vec::new(), "", "").unwrap();
    assert_eq!(3, planned.len());
    assert!(planned.iter().all(|j| j.decision == Decision::Optimize));
}

#[test]
fn library_member_gets_its_own_compilation() {
    let root = path(&["/", "ws"]);
    let members = vec![
        member("a", &["/", "ws", "contracts", "a"], &[]),
        member("b", &["/", "ws", "contracts", "b"], &[&["library"]]),
    ];
    let contracts = contract_members(true, &root, &members).unwrap();
    let jobs = compile_jobs(&partition(&contracts));
    assert_eq!(vec!["shared:a", "isolated:b"], job_names(&jobs));

    let produced = vec![
        vec![wasm(&["/", "ws", "target", "a.wasm"])],
        vec![host(&["/", "tmp", "b", "build.so"]), wasm(&["/", "tmp", "b", "b.wasm"])],
    ];
    let paths = collect_artifacts(&produced);
    assert_eq!(
        vec!["/ws/target/a.wasm", "/tmp/b/b.wasm"],
        paths.iter().map(|p| p.display()).collect::<Vec<_>>()
    );
    let inputs: Vec<Artifact> = paths.into_iter().map(|p| Artifact::new(p, Vec::new())).collect();
    let out = path(&["/", "ws", "artifacts"]);
    let planned = incremental_optimizations(&out, "x86_64", &inputs, &Vec::new(), "", "").unwrap();
    assert_eq!(2, planned.len());
}

#[test]
fn only_library_members_means_no_shared_invocation() {
    let members = vec![member("b", &["/", "ws", "contracts", "b"], &[&["library"]])];
    let jobs = compile_jobs(&partition(&members));
    assert_eq!(vec!["isolated:b"], job_names(&jobs));
}

#[test]
fn keeps_only_wasm_outputs() {
    let outputs = vec![
        host(&["h.so"]),
        CompiledOutput { kind: CompileKind::Target("x86_64-unknown-linux-gnu".to_string()), path: path(&["x.so"]) },
        wasm(&["w.wasm"]),
    ];
    let kept = wasm_artifacts(&outputs);
    assert_eq!(vec!["w.wasm"], kept.iter().map(|p| p.display()).collect::<Vec<_>>());
    assert!(wasm_artifacts(&Vec::new()).is_empty());
}

#[test]
fn resolves_job_counts() {
    assert_eq!(Ok(4), resolve_jobs(Some(4), 16));
    assert_eq!(Ok(16), resolve_jobs(None, 16));
    assert_eq!(Err(JobsError::Zero), resolve_jobs(Some(0), 16));
    assert_eq!(Err(JobsError::OutOfRange), resolve_jobs(Some(-1), 16));
    assert_eq!(Err(JobsError::Zero), resolve_jobs(None, 0));
    assert_eq!(Err(JobsError::OutOfRange), resolve_jobs(None, usize::MAX));
}
