use vstd::prelude::*;

use crate::hashing::{checksum, checksum_entry};
use crate::ledger::{lines_of, Artifact, Ledger};
use crate::paths::{
    file_name_of, last_dot, lemma_last_dot_bounds, split_file_name, stem_and_extension, ArtifactPath,
};

verus! {

/// Why an artifact's output path could not be formed.
#[derive(PartialEq, Eq, Structural, Clone, Copy, Debug)]
pub enum NamingError {
    /// The path has no file name (it is empty, or ends in the root, `.` or `..`).
    MissingFileName,
    /// The file name has no extension.
    UnparseableFileName,
}

/// Whether an optimized artifact can be kept as it is.
#[derive(PartialEq, Eq, Structural, Clone, Copy, Debug)]
pub enum Decision {
    /// The optimized artifact stays as it is.
    Skip,
    /// The artifact is optimized again and its optimized form rewritten.
    Optimize,
}

/// The name of an optimized artifact: the stem, `-`, the architecture, `.`
/// and the extension.
pub open spec fn suffixed_name(stem: Seq<char>, arch: Seq<char>, ext: Seq<char>) -> Seq<char> {
    stem + seq!['-'] + arch + seq!['.'] + ext
}

/// Where the optimized form of the artifact at `p` goes in `dir`.
pub open spec fn output_path_of(p: Seq<Seq<char>>, dir: Seq<Seq<char>>, arch: Seq<char>) -> Result<
    Seq<Seq<char>>,
    NamingError,
> {
    match file_name_of(p) {
        None => Err(NamingError::MissingFileName),
        Some(name) => match stem_and_extension(name).1 {
            None => Err(NamingError::UnparseableFileName),
            Some(ext) => Ok(dir.push(suffixed_name(stem_and_extension(name).0, arch, ext))),
        },
    }
}

/// The content of the first file among `files` whose file name is `name`.
pub open spec fn stored(files: Seq<(Seq<Seq<char>>, Seq<u8>)>, name: Seq<char>) -> Option<Seq<u8>>
    decreases files.len(),
{
    if files.len() == 0 {
        None
    } else if files[0].0.len() > 0 && files[0].0.last() == name {
        Some(files[0].1)
    } else {
        stored(files.drop_first(), name)
    }
}

/// An artifact may be skipped where its optimized form exists, its own entry
/// is in the previous intermediate ledger, and the entry of the optimized
/// form as it now is stands in the final ledger.
pub open spec fn should_skip(
    source: (Seq<Seq<char>>, Seq<u8>),
    output_name: Seq<char>,
    existing: Option<Seq<u8>>,
    previous_intermediate: Seq<Seq<char>>,
    current_final: Seq<Seq<char>>,
) -> bool {
    &&& existing is Some
    &&& previous_intermediate.contains(checksum_entry(source.0.last(), source.1))
    &&& current_final.contains(checksum_entry(output_name, existing->0))
}

/// Returns the optimized output path: the file name of `wasm_path`, with the
/// architecture inserted before its extension, in `output_dir`.
pub fn optimized_output_path(wasm_path: &ArtifactPath, output_dir: &ArtifactPath, arch: &str) -> (r:
    Result<ArtifactPath, NamingError>)
    ensures
        r is Ok <==> output_path_of(wasm_path@, output_dir@, arch@) is Ok,
        r matches Ok(p) ==> output_path_of(wasm_path@, output_dir@, arch@) == Ok::<
            Seq<Seq<char>>,
            NamingError,
        >(p@),
        r matches Err(e) ==> output_path_of(wasm_path@, output_dir@, arch@) == Err::<
            Seq<Seq<char>>,
            NamingError,
        >(e),
{
    let name = match wasm_path.file_name() {
        Some(name) => name,
        None => return Err(NamingError::MissingFileName),
    };
    let (stem, ext) = split_file_name(&name);
    match ext {
        None => Err(NamingError::UnparseableFileName),
        Some(ext) => {
            let mut file = stem;
            proof {
                reveal_strlit("-");
                reveal_strlit(".");
            }
            file.append("-");
            file.append(arch);
            file.append(".");
            file.append(ext.as_str());
            proof {
                let parts = stem_and_extension(name@);
                assert(file@ =~= suffixed_name(parts.0, arch@, ext@));
            }
            Ok(output_dir.join(file))
        },
    }
}

/// The content of the first of `files` whose last path component is `name`.
pub fn find_stored<'a>(files: &'a Vec<Artifact>, name: &String) -> (r: Option<&'a Vec<u8>>)
    ensures
        match r {
            Some(c) => stored(files@.map_values(|a: Artifact| a@), name@) == Some(c@),
            None => stored(files@.map_values(|a: Artifact| a@), name@) is None,
        },
{
    let ghost views = files@.map_values(|a: Artifact| a@);
    let mut i: usize = 0;
    assert(views.subrange(0, views.len() as int) =~= views);
    while i < files.len()
        invariant
            i <= files@.len(),
            views == files@.map_values(|a: Artifact| a@),
            stored(views, name@) == stored(views.subrange(i as int, views.len() as int), name@),
        decreases files@.len() - i,
    {
        let ghost rest = views.subrange(i as int, views.len() as int);
        assert(rest.drop_first() =~= views.subrange(i + 1, views.len() as int));
        let f = &files[i];
        if f.path.ends_with(name.as_str()) {
            return Some(&f.contents);
        }
        i = i + 1;
    }
    None
}

/// The bytes that an optional reference points to.
pub open spec fn content_of(existing: Option<&Vec<u8>>) -> Option<Seq<u8>> {
    match existing {
        Some(c) => Some(c@),
        None => None,
    }
}

/// Decides from ledger entries: skip exactly where the optimized form
/// exists (its entry is given), the source's entry is in the previous
/// intermediate ledger and the optimized form's entry is in the final ledger.
pub fn decide_by_entries(
    source_entry: &str,
    output_entry: Option<&str>,
    previous_intermediate: &Ledger,
    current_final: &Ledger,
) -> (r: Decision)
    ensures
        (r == Decision::Skip) == match output_entry {
            None => false,
            Some(e) => previous_intermediate@.contains(source_entry@) && current_final@.contains(e@),
        },
{
    match output_entry {
        None => Decision::Optimize,
        Some(e) => {
            if previous_intermediate.contains(source_entry) && current_final.contains(e) {
                Decision::Skip
            } else {
                Decision::Optimize
            }
        },
    }
}

/// Decides whether the artifact `source`, whose optimized form goes to
/// `output_path`, must be optimized again; `existing` is the content of the
/// optimized form where it exists.
pub fn decide(
    source: &Artifact,
    output_path: &ArtifactPath,
    existing: Option<&Vec<u8>>,
    previous_intermediate: &Ledger,
    current_final: &Ledger,
) -> (r: Decision)
    requires
        source.path@.len() > 0,
        output_path@.len() > 0,
    ensures
        (r == Decision::Skip) == should_skip(
            source@,
            output_path@.last(),
            content_of(existing),
            previous_intermediate@,
            current_final@,
        ),
{
    let line = checksum(&source.path, source.contents.as_slice());
    let entry = without_newline(&line);
    assert(entry@ =~= checksum_entry(source.path@.last(), source.contents@));
    match existing {
        None => decide_by_entries(entry.as_str(), None, previous_intermediate, current_final),
        Some(contents) => {
            let final_line = checksum(output_path, contents.as_slice());
            let final_entry = without_newline(&final_line);
            assert(final_entry@ =~= checksum_entry(output_path@.last(), contents@));
            decide_by_entries(
                entry.as_str(),
                Some(final_entry.as_str()),
                previous_intermediate,
                current_final,
            )
        },
    }
}

/// A line without its last character, the newline.
fn without_newline(line: &String) -> (r: String)
    requires
        line@.len() > 0,
    ensures
        r@ == line@.drop_last(),
{
    let cs = crate::text::chars_of(line.as_str());
    let r = crate::text::string_of(&cs, 0, cs.len() - 1);
    assert(cs@.subrange(0, cs@.len() - 1) =~= line@.drop_last());
    r
}

/// One artifact's part of a run: where it comes from, where its optimized
/// form goes, its stem (for messages) and what is to be done.
pub struct OptimizationJob {
    pub source: ArtifactPath,
    pub output: ArtifactPath,
    pub stem: String,
    pub decision: Decision,
}

/// The decision for an artifact whose output path can be formed.
pub open spec fn planned_decision(
    source: (Seq<Seq<char>>, Seq<u8>),
    output_dir: Seq<Seq<char>>,
    arch: Seq<char>,
    present: Seq<(Seq<Seq<char>>, Seq<u8>)>,
    previous_intermediate: Seq<Seq<char>>,
    current_final: Seq<Seq<char>>,
) -> Decision {
    let out = output_path_of(source.0, output_dir, arch)->Ok_0;
    if should_skip(
        source,
        out.last(),
        stored(present, out.last()),
        previous_intermediate,
        current_final,
    ) {
        Decision::Skip
    } else {
        Decision::Optimize
    }
}

/// The job for one artifact, as `incremental_optimizations` forms it.
pub open spec fn is_job_for(
    job: OptimizationJob,
    source: (Seq<Seq<char>>, Seq<u8>),
    output_dir: Seq<Seq<char>>,
    arch: Seq<char>,
    present: Seq<(Seq<Seq<char>>, Seq<u8>)>,
    previous_intermediate: Seq<Seq<char>>,
    current_final: Seq<Seq<char>>,
) -> bool {
    &&& output_path_of(source.0, output_dir, arch) is Ok
    &&& job.source@ == source.0
    &&& job.output@ == output_path_of(source.0, output_dir, arch)->Ok_0
    &&& job.stem@ == stem_and_extension(file_name_of(source.0)->Some_0).0
    &&& job.decision == planned_decision(
        source,
        output_dir,
        arch,
        present,
        previous_intermediate,
        current_final,
    )
}

/// Plans the optimization stage. For each intermediate artifact, in order:
/// its output path in `output_dir`, and whether it can be skipped, judged
/// against `present` (the files now in the output directory), the previous
/// intermediate ledger's text and the final ledger's text. Fails with the
/// naming error of the first artifact whose output path cannot be formed.
pub fn incremental_optimizations(
    output_dir: &ArtifactPath,
    arch: &str,
    intermediate_wasm: &Vec<Artifact>,
    present: &Vec<Artifact>,
    prev_intermediate_checksums: &str,
    checksums: &str,
) -> (r: Result<Vec<OptimizationJob>, NamingError>)
    ensures
        r is Ok <==> forall|i: int|
            0 <= i < intermediate_wasm@.len() ==> output_path_of(
                (#[trigger] intermediate_wasm@[i]).path@,
                output_dir@,
                arch@,
            ) is Ok,
        r matches Err(e) ==> exists|i: int|
            0 <= i < intermediate_wasm@.len() && output_path_of(
                (#[trigger] intermediate_wasm@[i]).path@,
                output_dir@,
                arch@,
            ) == Err::<Seq<Seq<char>>, NamingError>(e) && forall|j: int|
                0 <= j < i ==> output_path_of(intermediate_wasm@[j].path@, output_dir@, arch@) is Ok,
        r matches Ok(jobs) ==> {
            &&& jobs@.len() == intermediate_wasm@.len()
            &&& forall|i: int|
                0 <= i < jobs@.len() ==> is_job_for(
                    #[trigger] jobs@[i],
                    intermediate_wasm@[i]@,
                    output_dir@,
                    arch@,
                    present@.map_values(|a: Artifact| a@),
                    lines_of(prev_intermediate_checksums@),
                    lines_of(checksums@),
                )
        },
{
    let previous = Ledger::parse(prev_intermediate_checksums);
    let current = Ledger::parse(checksums);
    let mut jobs: Vec<OptimizationJob> = Vec::new();
    let mut i: usize = 0;
    while i < intermediate_wasm.len()
        invariant
            i <= intermediate_wasm@.len(),
            previous@ == lines_of(prev_intermediate_checksums@),
            current@ == lines_of(checksums@),
            jobs@.len() == i,
            forall|j: int|
                0 <= j < i ==> is_job_for(
                    #[trigger] jobs@[j],
                    intermediate_wasm@[j]@,
                    output_dir@,
                    arch@,
                    present@.map_values(|a: Artifact| a@),
                    lines_of(prev_intermediate_checksums@),
                    lines_of(checksums@),
                ),
        decreases intermediate_wasm@.len() - i,
    {
        let source = &intermediate_wasm[i];
        let output = match optimized_output_path(&source.path, output_dir, arch) {
            Ok(p) => p,
            Err(e) => {
                proof {
                    assert forall|j: int| 0 <= j < i implies output_path_of(
                        intermediate_wasm@[j].path@,
                        output_dir@,
                        arch@,
                    ) is Ok by {
                        assert(is_job_for(
                            jobs@[j],
                            intermediate_wasm@[j]@,
                            output_dir@,
                            arch@,
                            present@.map_values(|a: Artifact| a@),
                            lines_of(prev_intermediate_checksums@),
                            lines_of(checksums@),
                        ));
                    }
                }
                return Err(e);
            },
        };
        let name = match source.path.file_name() {
            Some(n) => n,
            None => {
                return Err(NamingError::MissingFileName);
            },
        };
        let (stem, _) = split_file_name(&name);
        assert(output@.len() == output.components@.len());
        assert(output@.len() > 0);
        let out_name = output.components[output.components.len() - 1].clone();
        assert(out_name@ == output@.last());
        let decision = decide(
            source,
            &output,
            find_stored(present, &out_name),
            &previous,
            &current,
        );
        let job = OptimizationJob { source: source.path.duplicate(), output, stem, decision };
        jobs.push(job);
        i = i + 1;
    }
    assert forall|i: int| 0 <= i < intermediate_wasm@.len() implies output_path_of(
        (#[trigger] intermediate_wasm@[i]).path@,
        output_dir@,
        arch@,
    ) is Ok by {
        assert(is_job_for(
            jobs@[i],
            intermediate_wasm@[i]@,
            output_dir@,
            arch@,
            present@.map_values(|a: Artifact| a@),
            lines_of(prev_intermediate_checksums@),
            lines_of(checksums@),
        ));
    }
    Ok(jobs)
}

/// Whether a text holds no `.`.
pub open spec fn dot_free(s: Seq<char>) -> bool {
    forall|i: int| 0 <= i < s.len() ==> s[i] != '.'
}

/// A file name with an extension is its stem, a `.` and the extension, and
/// the extension holds no `.`.
pub proof fn lemma_name_parts(name: Seq<char>)
    requires
        stem_and_extension(name).1 is Some,
    ensures
        name == stem_and_extension(name).0 + seq!['.'] + stem_and_extension(name).1->Some_0,
        dot_free(stem_and_extension(name).1->Some_0),
{
    lemma_last_dot_bounds(name);
    let d = last_dot(name);
    let ext = name.subrange(d + 1, name.len() as int);
    assert(name =~= name.subrange(0, d) + seq!['.'] + ext);
    assert forall|i: int| 0 <= i < ext.len() implies ext[i] != '.' by {
        assert(ext[i] == name[d + 1 + i]);
    }
}

/// Text ending in `.` and a dot-free part splits there in one way only.
proof fn lemma_split_at_last_dot(a1: Seq<char>, e1: Seq<char>, a2: Seq<char>, e2: Seq<char>)
    requires
        dot_free(e1),
        dot_free(e2),
        a1 + seq!['.'] + e1 == a2 + seq!['.'] + e2,
    ensures
        a1 == a2,
        e1 == e2,
{
    let t1 = a1 + seq!['.'] + e1;
    let t2 = a2 + seq!['.'] + e2;
    assert(t1.len() == a1.len() + 1 + e1.len());
    assert(t2.len() == a2.len() + 1 + e2.len());
    assert(t1.len() == t2.len());
    if e1.len() < e2.len() {
        let k = a1.len() as int;
        assert(t1[k] == '.');
        assert(t2[k] == e2[k - a2.len() - 1]);
    } else if e2.len() < e1.len() {
        let k = a2.len() as int;
        assert(t2[k] == '.');
        assert(t1[k] == e1[k - a1.len() - 1]);
    }
    assert(a1.len() == a2.len());
    assert(a1 =~= t1.subrange(0, a1.len() as int));
    assert(a2 =~= t2.subrange(0, a2.len() as int));
    assert(e1 =~= t1.subrange(a1.len() as int + 1, t1.len() as int));
    assert(e2 =~= t2.subrange(a2.len() as int + 1, t2.len() as int));
}

/// Naming is deterministic and injective for one directory and one
/// architecture: two artifacts whose output paths can be formed get the same
/// output path exactly when they have the same file name. So artifacts with
/// different stems never share an output path.
pub proof fn lemma_output_paths_injective(
    left: Seq<Seq<char>>,
    right: Seq<Seq<char>>,
    output_dir: Seq<Seq<char>>,
    arch: Seq<char>,
)
    requires
        output_path_of(left, output_dir, arch) is Ok,
        output_path_of(right, output_dir, arch) is Ok,
    ensures
        (output_path_of(left, output_dir, arch)->Ok_0 == output_path_of(right, output_dir, arch)->Ok_0)
            <==> (file_name_of(left) == file_name_of(right)),
        stem_and_extension(file_name_of(left)->Some_0).0 != stem_and_extension(
            file_name_of(right)->Some_0,
        ).0 ==> output_path_of(left, output_dir, arch)->Ok_0 != output_path_of(
            right,
            output_dir,
            arch,
        )->Ok_0,
{
    let n1 = file_name_of(left)->Some_0;
    let n2 = file_name_of(right)->Some_0;
    let (s1, x1) = stem_and_extension(n1);
    let (s2, x2) = stem_and_extension(n2);
    let e1 = x1->Some_0;
    let e2 = x2->Some_0;
    let o1 = output_path_of(left, output_dir, arch)->Ok_0;
    let o2 = output_path_of(right, output_dir, arch)->Ok_0;
    lemma_name_parts(n1);
    lemma_name_parts(n2);
    if o1 == o2 {
        assert(o1.last() == o2.last());
        let tail = seq!['-'] + arch;
        assert(suffixed_name(s1, arch, e1) =~= (s1 + tail) + seq!['.'] + e1);
        assert(suffixed_name(s2, arch, e2) =~= (s2 + tail) + seq!['.'] + e2);
        lemma_split_at_last_dot(s1 + tail, e1, s2 + tail, e2);
        assert(s1 =~= (s1 + tail).subrange(0, s1.len() as int));
        assert(s2 =~= (s2 + tail).subrange(0, s2.len() as int));
    }
}

} // verus!
