use vstd::prelude::*;

use crate::paths::ArtifactPath;
use crate::workspace::{
    contract_filter, isolated_of, member_views, names_of, shared_of, MemberView, Partition,
};

verus! {

/// The platform that the contracts are compiled for.
pub open spec fn wasm_target() -> Seq<char> {
    "wasm32-unknown-unknown"@
}

/// One invocation of the compiler driver.
#[derive(Debug)]
pub enum CompileJob {
    /// The named packages, built together in the workspace.
    Shared(Vec<String>),
    /// The named package, built alone in a throwaway workspace.
    Isolated(String),
}

/// A compiler invocation as a value.
pub enum JobView {
    Shared(Seq<Seq<char>>),
    Isolated(Seq<char>),
}

impl View for CompileJob {
    type V = JobView;

    open spec fn view(&self) -> JobView {
        match self {
            CompileJob::Shared(names) => JobView::Shared(names.deep_view()),
            CompileJob::Isolated(name) => JobView::Isolated(name@),
        }
    }
}

/// The invocations for a partition: the shared group first, where it has
/// members, then one for each isolated member in order.
pub open spec fn jobs_of(shared: Seq<Seq<char>>, isolated: Seq<Seq<char>>) -> Seq<JobView> {
    let first = if shared.len() > 0 {
        seq![JobView::Shared(shared)]
    } else {
        Seq::empty()
    };
    first + isolated.map_values(|n: Seq<char>| JobView::Isolated(n))
}

/// Plans the compiler invocations for a partition of the contracts.
pub fn compile_jobs(partition: &Partition) -> (r: Vec<CompileJob>)
    ensures
        r@.map_values(|j: CompileJob| j@) == jobs_of(
            partition.shared.deep_view(),
            names_of(member_views(partition.isolated@)),
        ),
{
    let ghost isolated = names_of(member_views(partition.isolated@));
    let mut jobs: Vec<CompileJob> = Vec::new();
    if partition.shared.len() > 0 {
        let names = partition.shared.clone();
        proof {
            assert forall|i: int| 0 <= i < names@.len() implies #[trigger] names@[i]@
                == partition.shared@[i]@ by {
                assert(cloned(partition.shared@[i], names@[i]));
            }
            assert(names.deep_view() =~= partition.shared.deep_view());
        }
        jobs.push(CompileJob::Shared(names));
    }
    let ghost first = jobs@.map_values(|j: CompileJob| j@);
    assert(first =~= jobs_of(partition.shared.deep_view(), Seq::empty()));
    let mut i: usize = 0;
    while i < partition.isolated.len()
        invariant
            i <= partition.isolated@.len(),
            isolated == names_of(member_views(partition.isolated@)),
            jobs@.map_values(|j: CompileJob| j@) == first + isolated.subrange(0, i as int).map_values(
                |n: Seq<char>| JobView::Isolated(n),
            ),
        decreases partition.isolated@.len() - i,
    {
        let name = partition.isolated[i].name.clone();
        let ghost before = jobs@;
        let ghost name_view = name@;
        jobs.push(CompileJob::Isolated(name));
        proof {
            assert(isolated[i as int] == name_view);
            assert(jobs@.map_values(|j: CompileJob| j@) =~= before.map_values(|j: CompileJob| j@).push(
                JobView::Isolated(name_view),
            ));
            assert(isolated.subrange(0, i + 1).map_values(|n: Seq<char>| JobView::Isolated(n))
                =~= isolated.subrange(0, i as int).map_values(|n: Seq<char>| JobView::Isolated(n)).push(
                JobView::Isolated(name_view),
            ));
            assert(jobs@.map_values(|j: CompileJob| j@) =~= first + isolated.subrange(
                0,
                i + 1,
            ).map_values(|n: Seq<char>| JobView::Isolated(n)));
        }
        i = i + 1;
    }
    assert(isolated.subrange(0, i as int) =~= isolated);
    assert(first + isolated.map_values(|n: Seq<char>| JobView::Isolated(n)) =~= jobs_of(
        partition.shared.deep_view(),
        isolated,
    ));
    jobs
}

/// What a compiled unit was built for.
#[derive(Debug)]
pub enum CompileKind {
    /// The machine that runs the build.
    Host,
    /// The named target platform.
    Target(String),
}

/// A binary that the compiler driver produced.
#[derive(Debug)]
pub struct CompiledOutput {
    pub kind: CompileKind,
    pub path: ArtifactPath,
}

/// A produced binary as a value: its target platform (none for the host)
/// and its path.
pub type OutputView = (Option<Seq<char>>, Seq<Seq<char>>);

impl View for CompiledOutput {
    type V = OutputView;

    open spec fn view(&self) -> OutputView {
        (
            match &self.kind {
                CompileKind::Host => None,
                CompileKind::Target(t) => Some(t@),
            },
            self.path@,
        )
    }
}

/// Whether a produced binary was cross-compiled for the contracts' platform.
pub open spec fn is_wasm_output(o: OutputView) -> bool {
    o.0 == Some(wasm_target())
}

/// The paths of the binaries built for the contracts' platform, in order.
pub open spec fn wasm_paths_of(outputs: Seq<OutputView>) -> Seq<Seq<Seq<char>>> {
    outputs.filter(|o: OutputView| is_wasm_output(o)).map_values(|o: OutputView| o.1)
}

/// Keeps, of what one compiler invocation produced, the paths of the
/// binaries built for the contracts' platform; host builds are dropped.
pub fn wasm_artifacts(outputs: &Vec<CompiledOutput>) -> (r: Vec<ArtifactPath>)
    ensures
        r@.map_values(|p: ArtifactPath| p@) == wasm_paths_of(
            outputs@.map_values(|o: CompiledOutput| o@),
        ),
{
    proof {
        reveal_strlit("wasm32-unknown-unknown");
    }
    let ghost views = outputs@.map_values(|o: CompiledOutput| o@);
    let ghost pred = |o: OutputView| is_wasm_output(o);
    let mut paths: Vec<ArtifactPath> = Vec::new();
    let mut i: usize = 0;
    while i < outputs.len()
        invariant
            i <= outputs@.len(),
            views == outputs@.map_values(|o: CompiledOutput| o@),
            pred == (|o: OutputView| is_wasm_output(o)),
            paths@.map_values(|p: ArtifactPath| p@) == views.subrange(0, i as int).filter(
                pred,
            ).map_values(|o: OutputView| o.1),
        decreases outputs@.len() - i,
    {
        proof {
            reveal(Seq::filter);
            assert(views.subrange(0, i + 1).drop_last() =~= views.subrange(0, i as int));
        }
        let o = &outputs[i];
        let wasm = match &o.kind {
            CompileKind::Host => false,
            CompileKind::Target(t) => *t == String::from_str("wasm32-unknown-unknown"),
        };
        assert(wasm == pred(views[i as int]));
        let ghost before = paths@;
        let ghost kept = views.subrange(0, i as int).filter(pred);
        if wasm {
            let p = o.path.duplicate();
            let ghost pv = p@;
            paths.push(p);
            assert(pv == views[i as int].1);
            assert(paths@.map_values(|p: ArtifactPath| p@) =~= before.map_values(|p: ArtifactPath| p@).push(pv));
            assert(views.subrange(0, i + 1).filter(pred) == kept.push(views[i as int]));
            assert(paths@.map_values(|p: ArtifactPath| p@) =~= kept.push(views[i as int]).map_values(
                |o: OutputView| o.1,
            ));
        } else {
            assert(views.subrange(0, i + 1).filter(pred) == kept);
        }
        i = i + 1;
    }
    assert(views.subrange(0, i as int) =~= views);
    paths
}

/// Gathers the intermediate artifacts of a whole compilation: what each
/// invocation produced for the contracts' platform, invocation by invocation.
pub fn collect_artifacts(results: &Vec<Vec<CompiledOutput>>) -> (r: Vec<ArtifactPath>)
    ensures
        r@.map_values(|p: ArtifactPath| p@) == results@.map_values(
            |outs: Vec<CompiledOutput>| wasm_paths_of(outs@.map_values(|o: CompiledOutput| o@)),
        ).flatten_alt(),
{
    let ghost per_job = results@.map_values(
        |outs: Vec<CompiledOutput>| wasm_paths_of(outs@.map_values(|o: CompiledOutput| o@)),
    );
    let mut all: Vec<ArtifactPath> = Vec::new();
    let mut i: usize = 0;
    while i < results.len()
        invariant
            i <= results@.len(),
            per_job == results@.map_values(
                |outs: Vec<CompiledOutput>| wasm_paths_of(outs@.map_values(|o: CompiledOutput| o@)),
            ),
            all@.map_values(|p: ArtifactPath| p@) == per_job.subrange(0, i as int).flatten_alt(),
        decreases results@.len() - i,
    {
        let mut found = wasm_artifacts(&results[i]);
        let ghost before = all@;
        let ghost added = found@;
        all.append(&mut found);
        proof {
            assert(per_job.subrange(0, i + 1).drop_last() =~= per_job.subrange(0, i as int));
            assert(per_job[i as int] == wasm_paths_of(
                results@[i as int]@.map_values(|o: CompiledOutput| o@),
            ));
            assert(per_job.subrange(0, i + 1).last() == per_job[i as int]);
            assert(all@.map_values(|p: ArtifactPath| p@) =~= before.map_values(
                |p: ArtifactPath| p@,
            ) + added.map_values(|p: ArtifactPath| p@));
        }
        i = i + 1;
    }
    assert(per_job.subrange(0, i as int) =~= per_job);
    all
}

/// Why the number of parallel compiler jobs cannot be used.
#[derive(PartialEq, Eq, Structural, Clone, Copy, Debug)]
pub enum JobsError {
    /// The number is negative or does not fit the build configuration.
    OutOfRange,
    /// The number is zero.
    Zero,
}

/// The number of parallel compiler jobs: the configured number where there
/// is one, else the available parallelism.
pub open spec fn requested_jobs(configured: Option<i32>, available: usize) -> int {
    match configured {
        Some(j) => j as int,
        None => available as int,
    }
}

/// Resolves the number of parallel compiler jobs: the configured number, or
/// else the available parallelism, which must fit in an `i32`; a negative
/// number is out of range and zero is refused.
pub fn resolve_jobs(configured: Option<i32>, available: usize) -> (r: Result<u32, JobsError>)
    ensures
        ({
            let n = requested_jobs(configured, available);
            &&& (n < 0 || n > i32::MAX) <==> r == Err::<u32, JobsError>(JobsError::OutOfRange)
            &&& n == 0 <==> r == Err::<u32, JobsError>(JobsError::Zero)
            &&& 0 < n <= i32::MAX <==> r == Ok::<u32, JobsError>(n as u32)
        }),
{
    let jobs: i32 = match configured {
        Some(j) => j,
        None => {
            if available > i32::MAX as usize {
                return Err(JobsError::OutOfRange);
            }
            available as i32
        },
    };
    if jobs < 0 {
        Err(JobsError::OutOfRange)
    } else if jobs == 0 {
        Err(JobsError::Zero)
    } else {
        Ok(jobs as u32)
    }
}

/// A workspace without contracts plans no compilation: its discovery fails,
/// and the partition of what it found holds no compiler invocation.
pub proof fn lemma_no_contracts_no_compilation(
    is_virtual: bool,
    root: Seq<Seq<char>>,
    members: Seq<MemberView>,
)
    requires
        members.filter(contract_filter(is_virtual, root)).len() == 0,
    ensures
        ({
            let found = members.filter(contract_filter(is_virtual, root));
            jobs_of(shared_of(found), names_of(isolated_of(found))).len() == 0
        }),
{
    let found = members.filter(contract_filter(is_virtual, root));
    found.lemma_filter_len(|m: MemberView| crate::workspace::needs_isolation(m));
    assert(names_of(found).len() == 0);
    names_of(found).lemma_filter_len(|n: Seq<char>| !names_of(isolated_of(found)).contains(n));
}

} // verus!
