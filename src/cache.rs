//! What the ledgers guarantee from one run to the next.
use vstd::prelude::*;

use crate::hashing::{checksum_entry, digest_text, lemma_hex_chars, sha256_of};
use crate::ledger::{entries_of, lemma_lines_of_render, lines_of, render, single_line};
use crate::optimization::{
    lemma_name_parts, lemma_output_paths_injective, output_path_of, planned_decision, stored,
    suffixed_name, Decision,
};
use crate::paths::{file_name_of, stem_and_extension};

verus! {

/// The file name under which the output of `source` is stored.
pub open spec fn output_name(
    source: Seq<Seq<char>>,
    output_dir: Seq<Seq<char>>,
    arch: Seq<char>,
) -> Seq<char> {
    output_path_of(source, output_dir, arch)->Ok_0.last()
}

/// Artifacts that a run can name: each output path can be formed, and no
/// file name, nor the architecture, holds a newline.
pub open spec fn nameable(
    artifacts: Seq<(Seq<Seq<char>>, Seq<u8>)>,
    output_dir: Seq<Seq<char>>,
    arch: Seq<char>,
) -> bool {
    &&& single_line(arch)
    &&& forall|i: int|
        0 <= i < artifacts.len() ==> output_path_of((#[trigger] artifacts[i]).0, output_dir, arch)
            is Ok && single_line(artifacts[i].0.last())
}

/// No two artifacts share a file name.
pub open spec fn distinct_names(artifacts: Seq<(Seq<Seq<char>>, Seq<u8>)>) -> bool {
    forall|i: int, j: int|
        0 <= i < artifacts.len() && 0 <= j < artifacts.len() && i != j ==> (#[trigger] artifacts[i]).0.last()
            != (#[trigger] artifacts[j]).0.last()
}

/// The optimized artifacts of a run: each output path with the content left
/// there.
pub open spec fn outputs_of(
    artifacts: Seq<(Seq<Seq<char>>, Seq<u8>)>,
    output_dir: Seq<Seq<char>>,
    arch: Seq<char>,
    contents: Seq<Seq<u8>>,
) -> Seq<(Seq<Seq<char>>, Seq<u8>)> {
    Seq::new(
        artifacts.len(),
        |i: int| (output_path_of(artifacts[i].0, output_dir, arch)->Ok_0, contents[i]),
    )
}

/// The output directory holds `contents[i]` under the output name of each
/// artifact.
pub open spec fn holds_outputs(
    present: Seq<(Seq<Seq<char>>, Seq<u8>)>,
    artifacts: Seq<(Seq<Seq<char>>, Seq<u8>)>,
    output_dir: Seq<Seq<char>>,
    arch: Seq<char>,
    contents: Seq<Seq<u8>>,
) -> bool {
    forall|i: int|
        0 <= i < artifacts.len() ==> stored(present, output_name((#[trigger] artifacts[i]).0, output_dir, arch))
            == Some(contents[i])
}

/// A ledger entry holds no newline where the file name holds none.
pub proof fn lemma_entry_single_line(name: Seq<char>, data: Seq<u8>)
    requires
        single_line(name),
    ensures
        single_line(checksum_entry(name, data)),
{
    lemma_hex_chars(sha256_of(data));
    let h = digest_text(data);
    let e = checksum_entry(name, data);
    assert forall|i: int| 0 <= i < e.len() implies e[i] != '\n' by {
        if i < h.len() {
            assert(e[i] == h[i]);
        } else if i >= h.len() + 2 {
            assert(e[i] == name[i - h.len() - 2]);
        }
    }
}

/// Two equal ledger entries name the same file with the same digest.
pub proof fn lemma_entry_injective(n1: Seq<char>, d1: Seq<u8>, n2: Seq<char>, d2: Seq<u8>)
    requires
        checksum_entry(n1, d1) == checksum_entry(n2, d2),
    ensures
        n1 == n2,
        digest_text(d1) == digest_text(d2),
{
    lemma_hex_chars(sha256_of(d1));
    lemma_hex_chars(sha256_of(d2));
    let h1 = digest_text(d1);
    let h2 = digest_text(d2);
    let t1 = checksum_entry(n1, d1);
    let t2 = checksum_entry(n2, d2);
    assert(t1.len() == h1.len() + 2 + n1.len());
    assert(t2.len() == h2.len() + 2 + n2.len());
    if h1.len() < h2.len() {
        assert(t1[h1.len() as int] == ' ');
        assert(t2[h1.len() as int] == h2[h1.len() as int]);
    } else if h2.len() < h1.len() {
        assert(t2[h2.len() as int] == ' ');
        assert(t1[h2.len() as int] == h1[h2.len() as int]);
    }
    assert(h1 =~= t1.subrange(0, h1.len() as int));
    assert(h2 =~= t2.subrange(0, h2.len() as int));
    assert(n1 =~= t1.subrange(h1.len() as int + 2, t1.len() as int));
    assert(n2 =~= t2.subrange(h2.len() as int + 2, t2.len() as int));
}

/// The output name of a nameable artifact holds no newline.
proof fn lemma_output_name_single_line(
    source: Seq<Seq<char>>,
    output_dir: Seq<Seq<char>>,
    arch: Seq<char>,
)
    requires
        output_path_of(source, output_dir, arch) is Ok,
        single_line(source.last()),
        single_line(arch),
    ensures
        single_line(output_name(source, output_dir, arch)),
{
    let name = file_name_of(source)->Some_0;
    let (stem, ext) = stem_and_extension(name);
    lemma_name_parts(name);
    let e = ext->Some_0;
    let o = suffixed_name(stem, arch, e);
    assert(output_name(source, output_dir, arch) == o);
    assert forall|i: int| 0 <= i < o.len() implies o[i] != '\n' by {
        if i < stem.len() {
            assert(o[i] == name[i]);
        } else if stem.len() < i < stem.len() + 1 + arch.len() {
            assert(o[i] == arch[i - stem.len() - 1]);
        } else if i > stem.len() + 1 + arch.len() {
            let j = i - stem.len() - 2 - arch.len();
            assert(o[i] == e[j]);
            assert(name[stem.len() + 1 + j] == e[j]);
        }
    }
}

/// Entries of nameable artifacts, and of their outputs, hold no newline, so
/// the rendered ledgers split back into them.
proof fn lemma_ledgers_round_trip(
    artifacts: Seq<(Seq<Seq<char>>, Seq<u8>)>,
    output_dir: Seq<Seq<char>>,
    arch: Seq<char>,
    contents: Seq<Seq<u8>>,
)
    requires
        nameable(artifacts, output_dir, arch),
        contents.len() == artifacts.len(),
    ensures
        lines_of(render(entries_of(artifacts))) == entries_of(artifacts),
        lines_of(render(entries_of(outputs_of(artifacts, output_dir, arch, contents))))
            == entries_of(outputs_of(artifacts, output_dir, arch, contents)),
{
    let outs = outputs_of(artifacts, output_dir, arch, contents);
    assert forall|i: int| 0 <= i < artifacts.len() implies single_line(
        #[trigger] entries_of(artifacts)[i],
    ) by {
        lemma_entry_single_line(artifacts[i].0.last(), artifacts[i].1);
    }
    assert forall|i: int| 0 <= i < outs.len() implies single_line(#[trigger] entries_of(outs)[i]) by {
        lemma_output_name_single_line(artifacts[i].0, output_dir, arch);
        lemma_entry_single_line(outs[i].0.last(), outs[i].1);
    }
    lemma_lines_of_render(entries_of(artifacts));
    lemma_lines_of_render(entries_of(outs));
}

/// Idempotence: after a run has written both ledgers, a second run over the
/// same intermediate artifacts, with the optimized artifacts left as that run
/// left them, skips every artifact, so no optimized artifact is rewritten.
pub proof fn lemma_rerun_skips_all(
    artifacts: Seq<(Seq<Seq<char>>, Seq<u8>)>,
    output_dir: Seq<Seq<char>>,
    arch: Seq<char>,
    contents: Seq<Seq<u8>>,
    present: Seq<(Seq<Seq<char>>, Seq<u8>)>,
)
    requires
        nameable(artifacts, output_dir, arch),
        contents.len() == artifacts.len(),
        holds_outputs(present, artifacts, output_dir, arch, contents),
    ensures
        forall|i: int|
            0 <= i < artifacts.len() ==> planned_decision(
                #[trigger] artifacts[i],
                output_dir,
                arch,
                present,
                lines_of(render(entries_of(artifacts))),
                lines_of(render(entries_of(outputs_of(artifacts, output_dir, arch, contents)))),
            ) == Decision::Skip,
{
    let outs = outputs_of(artifacts, output_dir, arch, contents);
    lemma_ledgers_round_trip(artifacts, output_dir, arch, contents);
    assert forall|i: int| 0 <= i < artifacts.len() implies planned_decision(
        #[trigger] artifacts[i],
        output_dir,
        arch,
        present,
        lines_of(render(entries_of(artifacts))),
        lines_of(render(entries_of(outs))),
    ) == Decision::Skip by {
        assert(entries_of(artifacts)[i] == checksum_entry(artifacts[i].0.last(), artifacts[i].1));
        assert(entries_of(outs)[i] == checksum_entry(
            output_name(artifacts[i].0, output_dir, arch),
            contents[i],
        ));
        assert(stored(present, output_name(artifacts[i].0, output_dir, arch)) == Some(contents[i]));
    }
}

/// Change detection: where one intermediate artifact was rebuilt with a new
/// digest and nothing else changed, the next run optimizes that artifact
/// again and skips every other one.
pub proof fn lemma_change_is_detected(
    artifacts: Seq<(Seq<Seq<char>>, Seq<u8>)>,
    output_dir: Seq<Seq<char>>,
    arch: Seq<char>,
    contents: Seq<Seq<u8>>,
    present: Seq<(Seq<Seq<char>>, Seq<u8>)>,
    k: int,
    rebuilt: Seq<u8>,
)
    requires
        nameable(artifacts, output_dir, arch),
        distinct_names(artifacts),
        contents.len() == artifacts.len(),
        holds_outputs(present, artifacts, output_dir, arch, contents),
        0 <= k < artifacts.len(),
        digest_text(rebuilt) != digest_text(artifacts[k].1),
    ensures
        forall|i: int|
            0 <= i < artifacts.len() ==> planned_decision(
                #[trigger] artifacts.update(k, (artifacts[k].0, rebuilt))[i],
                output_dir,
                arch,
                present,
                lines_of(render(entries_of(artifacts))),
                lines_of(render(entries_of(outputs_of(artifacts, output_dir, arch, contents)))),
            ) == if i == k {
                Decision::Optimize
            } else {
                Decision::Skip
            },
{
    let changed = artifacts.update(k, (artifacts[k].0, rebuilt));
    let outs = outputs_of(artifacts, output_dir, arch, contents);
    lemma_rerun_skips_all(artifacts, output_dir, arch, contents, present);
    lemma_ledgers_round_trip(artifacts, output_dir, arch, contents);
    let entry = checksum_entry(artifacts[k].0.last(), rebuilt);
    assert(!entries_of(artifacts).contains(entry)) by {
        if entries_of(artifacts).contains(entry) {
            let j = choose|j: int| 0 <= j < entries_of(artifacts).len() && entries_of(artifacts)[j] == entry;
            lemma_entry_injective(artifacts[j].0.last(), artifacts[j].1, artifacts[k].0.last(), rebuilt);
        }
    }
    assert forall|i: int| 0 <= i < artifacts.len() implies planned_decision(
        #[trigger] changed[i],
        output_dir,
        arch,
        present,
        lines_of(render(entries_of(artifacts))),
        lines_of(render(entries_of(outs))),
    ) == if i == k {
        Decision::Optimize
    } else {
        Decision::Skip
    } by {
        if i != k {
            assert(changed[i] == artifacts[i]);
            assert(planned_decision(
                artifacts[i],
                output_dir,
                arch,
                present,
                lines_of(render(entries_of(artifacts))),
                lines_of(render(entries_of(outs))),
            ) == Decision::Skip);
        }
    }
}

/// Tampering detection: where the optimized form of one artifact was deleted,
/// or replaced by content with another digest, while every intermediate
/// artifact stayed as it was, the next run optimizes exactly that artifact
/// again.
pub proof fn lemma_tampering_is_detected(
    artifacts: Seq<(Seq<Seq<char>>, Seq<u8>)>,
    output_dir: Seq<Seq<char>>,
    arch: Seq<char>,
    contents: Seq<Seq<u8>>,
    present: Seq<(Seq<Seq<char>>, Seq<u8>)>,
    k: int,
)
    requires
        nameable(artifacts, output_dir, arch),
        distinct_names(artifacts),
        contents.len() == artifacts.len(),
        0 <= k < artifacts.len(),
        forall|i: int|
            0 <= i < artifacts.len() && i != k ==> stored(
                present,
                output_name((#[trigger] artifacts[i]).0, output_dir, arch),
            ) == Some(contents[i]),
        match stored(present, output_name(artifacts[k].0, output_dir, arch)) {
            None => true,
            Some(c) => digest_text(c) != digest_text(contents[k]),
        },
    ensures
        forall|i: int|
            0 <= i < artifacts.len() ==> planned_decision(
                #[trigger] artifacts[i],
                output_dir,
                arch,
                present,
                lines_of(render(entries_of(artifacts))),
                lines_of(render(entries_of(outputs_of(artifacts, output_dir, arch, contents)))),
            ) == if i == k {
                Decision::Optimize
            } else {
                Decision::Skip
            },
{
    let outs = outputs_of(artifacts, output_dir, arch, contents);
    lemma_ledgers_round_trip(artifacts, output_dir, arch, contents);
    let name_k = output_name(artifacts[k].0, output_dir, arch);
    // distinct file names give distinct output names
    assert forall|j: int| 0 <= j < artifacts.len() && j != k implies #[trigger] output_name(
        artifacts[j].0,
        output_dir,
        arch,
    ) != name_k by {
        lemma_output_paths_injective(artifacts[j].0, artifacts[k].0, output_dir, arch);
        assert(artifacts[j].0.last() != artifacts[k].0.last());
        let oj = output_path_of(artifacts[j].0, output_dir, arch)->Ok_0;
        let ok = output_path_of(artifacts[k].0, output_dir, arch)->Ok_0;
        assert(oj == output_dir.push(oj.last()));
        assert(ok == output_dir.push(ok.last()));
    }
    match stored(present, name_k) {
        None => {},
        Some(c) => {
            let entry = checksum_entry(name_k, c);
            assert(!entries_of(outs).contains(entry)) by {
                if entries_of(outs).contains(entry) {
                    let j = choose|j: int| 0 <= j < entries_of(outs).len() && entries_of(outs)[j] == entry;
                    lemma_entry_injective(outs[j].0.last(), outs[j].1, name_k, c);
                    assert(outs[j].0.last() == output_name(artifacts[j].0, output_dir, arch));
                }
            }
        },
    }
    assert forall|i: int| 0 <= i < artifacts.len() implies planned_decision(
        #[trigger] artifacts[i],
        output_dir,
        arch,
        present,
        lines_of(render(entries_of(artifacts))),
        lines_of(render(entries_of(outs))),
    ) == if i == k {
        Decision::Optimize
    } else {
        Decision::Skip
    } by {
        assert(entries_of(artifacts)[i] == checksum_entry(artifacts[i].0.last(), artifacts[i].1));
        if i != k {
            assert(entries_of(outs)[i] == checksum_entry(
                output_name(artifacts[i].0, output_dir, arch),
                contents[i],
            ));
        }
    }
}

} // verus!
