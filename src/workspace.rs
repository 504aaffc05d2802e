use vstd::prelude::*;

use crate::paths::{has_prefix, same_text, ArtifactPath};

verus! {

/// The file name of a package manifest.
pub open spec fn manifest_name() -> Seq<char> {
    "Cargo.toml"@
}

/// What the filesystem says about an absolute workspace path.
pub struct PathProbe {
    /// The path itself exists.
    pub exists: bool,
    /// The path is a directory.
    pub is_dir: bool,
    /// The path joined with `Cargo.toml` exists.
    pub contains_manifest: bool,
}

/// Why a workspace yields nothing to build.
#[derive(Debug)]
pub enum DiscoveryError {
    /// The path is neither a manifest nor a directory.
    InvalidWorkspacePath(ArtifactPath),
    /// The manifest that the path leads to does not exist.
    ManifestNotFound(ArtifactPath),
    /// No member of the workspace is a contract.
    NoContracts,
}

/// The manifest that an absolute workspace path leads to: the path itself
/// where it names `Cargo.toml`, else `Cargo.toml` inside it where it is a
/// directory.
pub open spec fn manifest_candidate(path: Seq<Seq<char>>, is_dir: bool) -> Option<Seq<Seq<char>>> {
    if path.len() > 0 && path.last() == manifest_name() {
        Some(path)
    } else if is_dir {
        Some(path.push(manifest_name()))
    } else {
        None
    }
}

/// Finds the manifest of the workspace at the absolute path `workspace_path`,
/// given what the filesystem says about that path.
pub fn find_manifest(workspace_path: &ArtifactPath, probe: &PathProbe) -> (r: Result<
    ArtifactPath,
    DiscoveryError,
>)
    ensures
        match manifest_candidate(workspace_path@, probe.is_dir) {
            None => r matches Err(DiscoveryError::InvalidWorkspacePath(p)) && p@ == workspace_path@,
            Some(m) => {
                let found = if m == workspace_path@ {
                    probe.exists
                } else {
                    probe.contains_manifest
                };
                if found {
                    r matches Ok(p) && p@ == m
                } else {
                    r matches Err(DiscoveryError::ManifestNotFound(p)) && p@ == m
                }
            },
        },
{
    proof {
        reveal_strlit("Cargo.toml");
    }
    if workspace_path.ends_with("Cargo.toml") {
        if probe.exists {
            Ok(workspace_path.duplicate())
        } else {
            Err(DiscoveryError::ManifestNotFound(workspace_path.duplicate()))
        }
    } else if probe.is_dir {
        let manifest = workspace_path.join(String::from_str("Cargo.toml"));
        assert(manifest@ != workspace_path@) by {
            assert(manifest@.len() != workspace_path@.len());
        }
        if probe.contains_manifest {
            Ok(manifest)
        } else {
            Err(DiscoveryError::ManifestNotFound(manifest))
        }
    } else {
        Err(DiscoveryError::InvalidWorkspacePath(workspace_path.duplicate()))
    }
}

/// A member of the workspace as the package manifests describe it: its
/// name, its manifest and, for each of its dependencies, the features it
/// turns on.
#[derive(Debug)]
pub struct WorkspaceMember {
    pub name: String,
    pub manifest_path: ArtifactPath,
    pub dependency_features: Vec<Vec<String>>,
}

/// A member as a value: name, manifest path, features of each dependency.
pub type MemberView = (Seq<char>, Seq<Seq<char>>, Seq<Seq<Seq<char>>>);

impl View for WorkspaceMember {
    type V = MemberView;

    open spec fn view(&self) -> MemberView {
        (self.name@, self.manifest_path@, self.dependency_features.deep_view())
    }
}

/// The feature that marks a dependency used as a library.
pub open spec fn library_feature() -> Seq<char> {
    "library"@
}

/// A member is built on its own where one of its dependencies turns on the
/// library feature.
pub open spec fn needs_isolation(m: MemberView) -> bool {
    exists|d: int| 0 <= d < m.2.len() && (#[trigger] m.2[d]).contains(library_feature())
}

/// The directory that holds the contracts of a virtual workspace.
pub open spec fn contracts_dir(root: Seq<Seq<char>>) -> Seq<Seq<char>> {
    root.push("contracts"@)
}

/// Which members count as contracts: in a virtual workspace those whose
/// manifest lies under `<root>/contracts`, otherwise all.
pub open spec fn contract_filter(is_virtual: bool, root: Seq<Seq<char>>) -> spec_fn(MemberView) -> bool {
    |m: MemberView| !is_virtual || has_prefix(m.1, contracts_dir(root))
}

/// The names of some members, in order.
pub open spec fn names_of(ms: Seq<MemberView>) -> Seq<Seq<char>> {
    ms.map_values(|m: MemberView| m.0)
}

/// The members that are built on their own.
pub open spec fn isolated_of(ms: Seq<MemberView>) -> Seq<MemberView> {
    ms.filter(|m: MemberView| needs_isolation(m))
}

/// The names built together: every member's name that no isolated member
/// bears.
pub open spec fn shared_of(ms: Seq<MemberView>) -> Seq<Seq<char>> {
    names_of(ms).filter(|n: Seq<char>| !names_of(isolated_of(ms)).contains(n))
}

/// Whether the list of features holds `feature`.
fn holds_feature(features: &Vec<String>, feature: &str) -> (r: bool)
    ensures
        r == features.deep_view().contains(feature@),
{
    let mut i: usize = 0;
    while i < features.len()
        invariant
            i <= features@.len(),
            forall|j: int| 0 <= j < i ==> features.deep_view()[j] != feature@,
        decreases features@.len() - i,
    {
        if same_text(&features[i], feature) {
            assert(features.deep_view()[i as int] == feature@);
            return true;
        }
        i = i + 1;
    }
    false
}

impl WorkspaceMember {
    /// Whether one of the member's dependencies turns on the library feature.
    pub fn needs_isolation(&self) -> (r: bool)
        ensures
            r == needs_isolation(self@),
    {
        proof {
            reveal_strlit("library");
        }
        let deps = &self.dependency_features;
        let mut i: usize = 0;
        while i < deps.len()
            invariant
                i <= deps@.len(),
                deps == &self.dependency_features,
                forall|j: int| 0 <= j < i ==> !(#[trigger] self@.2[j]).contains(library_feature()),
            decreases deps@.len() - i,
        {
            if holds_feature(&deps[i], "library") {
                assert(self@.2[i as int].contains(library_feature()));
                return true;
            }
            i = i + 1;
        }
        false
    }

    /// A copy of the member.
    pub fn duplicate(&self) -> (r: WorkspaceMember)
        ensures
            r@ == self@,
    {
        let dependency_features = self.dependency_features.clone();
        proof {
            assert forall|i: int| 0 <= i < self.dependency_features@.len() implies
                #[trigger] dependency_features@[i].deep_view() == self.dependency_features@[i].deep_view() by {
                let a = self.dependency_features@[i];
                let b = dependency_features@[i];
                assert(cloned(a, b));
                assert forall|j: int| 0 <= j < a@.len() implies b@[j]@ == a@[j]@ by {
                    if a != b {
                        assert(cloned(a@[j], b@[j]));
                    }
                }
                assert(b.deep_view() =~= a.deep_view());
            }
            assert(dependency_features.deep_view() =~= self.dependency_features.deep_view());
        }
        WorkspaceMember {
            name: self.name.clone(),
            manifest_path: self.manifest_path.duplicate(),
            dependency_features,
        }
    }
}

/// The values of some members, in order.
pub open spec fn member_views(ms: Seq<WorkspaceMember>) -> Seq<MemberView> {
    ms.map_values(|m: WorkspaceMember| m@)
}

/// The members of a workspace that are contracts: in a virtual workspace
/// those under `<root>/contracts`, otherwise all. Fails where there is none.
pub fn contract_members(is_virtual: bool, root: &ArtifactPath, members: &Vec<WorkspaceMember>) -> (r:
    Result<Vec<WorkspaceMember>, DiscoveryError>)
    ensures
        r is Err <==> member_views(members@).filter(contract_filter(is_virtual, root@)).len() == 0,
        r matches Err(e) ==> e is NoContracts,
        r matches Ok(v) ==> member_views(v@) == member_views(members@).filter(
            contract_filter(is_virtual, root@),
        ),
{
    let ghost pred = contract_filter(is_virtual, root@);
    let ghost views = member_views(members@);
    let contracts_path = root.join(String::from_str("contracts"));
    proof {
        reveal_strlit("contracts");
    }
    let mut chosen: Vec<WorkspaceMember> = Vec::new();
    let mut i: usize = 0;
    while i < members.len()
        invariant
            i <= members@.len(),
            views == member_views(members@),
            contracts_path@ == contracts_dir(root@),
            pred == contract_filter(is_virtual, root@),
            member_views(chosen@) == views.subrange(0, i as int).filter(pred),
        decreases members@.len() - i,
    {
        proof {
            reveal(Seq::filter);
            assert(views.subrange(0, i + 1).drop_last() =~= views.subrange(0, i as int));
        }
        let m = &members[i];
        let keep = !is_virtual || m.manifest_path.starts_with(&contracts_path);
        assert(keep == pred(views[i as int]));
        if keep {
            let ghost before = chosen@;
            chosen.push(m.duplicate());
            assert(member_views(chosen@) =~= member_views(before).push(views[i as int]));
        }
        i = i + 1;
    }
    assert(views.subrange(0, i as int) =~= views);
    if chosen.len() == 0 {
        Err(DiscoveryError::NoContracts)
    } else {
        Ok(chosen)
    }
}

/// The members of a workspace split into those built together and those
/// built on their own.
pub struct Partition {
    /// Names of the members built together, in one invocation.
    pub shared: Vec<String>,
    /// Members built each in a workspace of its own, in order.
    pub isolated: Vec<WorkspaceMember>,
}

/// Splits contracts into the shared group and the isolated ones: a member
/// is isolated where one of its dependencies turns on the library feature;
/// every name that no isolated member bears is built together.
pub fn partition(contracts: &Vec<WorkspaceMember>) -> (r: Partition)
    ensures
        member_views(r.isolated@) == isolated_of(member_views(contracts@)),
        r.shared.deep_view() == shared_of(member_views(contracts@)),
{
    let ghost views = member_views(contracts@);
    let ghost iso_pred = |m: MemberView| needs_isolation(m);
    let mut isolated: Vec<WorkspaceMember> = Vec::new();
    let mut isolated_names: Vec<String> = Vec::new();
    let mut i: usize = 0;
    while i < contracts.len()
        invariant
            i <= contracts@.len(),
            views == member_views(contracts@),
            iso_pred == (|m: MemberView| needs_isolation(m)),
            member_views(isolated@) == views.subrange(0, i as int).filter(iso_pred),
            isolated_names.deep_view() == names_of(member_views(isolated@)),
        decreases contracts@.len() - i,
    {
        proof {
            reveal(Seq::filter);
            assert(views.subrange(0, i + 1).drop_last() =~= views.subrange(0, i as int));
        }
        let m = &contracts[i];
        if m.needs_isolation() {
            let ghost before = isolated@;
            let ghost before_names = isolated_names.deep_view();
            isolated.push(m.duplicate());
            isolated_names.push(m.name.clone());
            assert(member_views(isolated@) =~= member_views(before).push(views[i as int]));
            assert(isolated_names.deep_view() =~= before_names.push(m.name@));
            assert(names_of(member_views(isolated@)) =~= names_of(member_views(before)).push(m.name@));
        }
        i = i + 1;
    }
    assert(views.subrange(0, i as int) =~= views);
    let ghost names = names_of(views);
    let ghost shared_pred = |n: Seq<char>| !names_of(isolated_of(views)).contains(n);
    let mut shared: Vec<String> = Vec::new();
    let mut j: usize = 0;
    while j < contracts.len()
        invariant
            j <= contracts@.len(),
            views == member_views(contracts@),
            names == names_of(views),
            isolated_names.deep_view() == names_of(isolated_of(views)),
            shared_pred == (|n: Seq<char>| !names_of(isolated_of(views)).contains(n)),
            shared.deep_view() == names.subrange(0, j as int).filter(shared_pred),
        decreases contracts@.len() - j,
    {
        proof {
            reveal(Seq::filter);
            assert(names.subrange(0, j + 1).drop_last() =~= names.subrange(0, j as int));
        }
        let name = &contracts[j].name;
        if !holds_feature(&isolated_names, name.as_str()) {
            let ghost before = shared.deep_view();
            shared.push(name.clone());
            assert(shared.deep_view() =~= before.push(names[j as int]));
        }
        j = j + 1;
    }
    assert(names.subrange(0, j as int) =~= names);
    Partition { shared, isolated }
}

/// A member that needs a library build is never in the shared group.
pub proof fn lemma_library_members_never_shared(ms: Seq<MemberView>, i: int)
    requires
        0 <= i < ms.len(),
        needs_isolation(ms[i]),
    ensures
        isolated_of(ms).contains(ms[i]),
        !shared_of(ms).contains(ms[i].0),
{
    let iso = isolated_of(ms);
    ms.lemma_filter_contains(|m: MemberView| needs_isolation(m), i);
    let k = choose|k: int| 0 <= k < iso.len() && iso[k] == ms[i];
    assert(names_of(iso)[k] == ms[i].0);
    assert(names_of(iso).contains(ms[i].0));
    let pred = |n: Seq<char>| !names_of(iso).contains(n);
    if shared_of(ms).contains(ms[i].0) {
        let j = choose|j: int| 0 <= j < shared_of(ms).len() && shared_of(ms)[j] == ms[i].0;
        names_of(ms).lemma_filter_pred(pred, j);
    }
}

/// Partitioning is a total, disjoint classification: where member names are
/// unique, every member is either isolated (exactly where it needs a library
/// build) or named in the shared group, and never both.
pub proof fn lemma_partition_total_and_disjoint(ms: Seq<MemberView>)
    requires
        forall|i: int, j: int|
            0 <= i < ms.len() && 0 <= j < ms.len() && i != j ==> (#[trigger] ms[i]).0 != (#[trigger] ms[j]).0,
    ensures
        forall|i: int|
            0 <= i < ms.len() ==> {
                &&& isolated_of(ms).contains(#[trigger] ms[i]) <==> needs_isolation(ms[i])
                &&& shared_of(ms).contains(ms[i].0) <==> !needs_isolation(ms[i])
            },
{
    let iso = isolated_of(ms);
    let iso_pred = |m: MemberView| needs_isolation(m);
    let pred = |n: Seq<char>| !names_of(iso).contains(n);
    assert forall|i: int| 0 <= i < ms.len() implies {
        &&& isolated_of(ms).contains(#[trigger] ms[i]) <==> needs_isolation(ms[i])
        &&& shared_of(ms).contains(ms[i].0) <==> !needs_isolation(ms[i])
    } by {
        if needs_isolation(ms[i]) {
            lemma_library_members_never_shared(ms, i);
        } else {
            if iso.contains(ms[i]) {
                let k = choose|k: int| 0 <= k < iso.len() && iso[k] == ms[i];
                ms.lemma_filter_pred(iso_pred, k);
            }
            // no isolated member bears this name
            if names_of(iso).contains(ms[i].0) {
                let k = choose|k: int| 0 <= k < names_of(iso).len() && names_of(iso)[k] == ms[i].0;
                ms.lemma_filter_pred(iso_pred, k);
                ms.lemma_filter_contains_rev(iso_pred, iso[k]);
                let j = choose|j: int| 0 <= j < ms.len() && ms[j] == iso[k];
                assert(ms[j].0 == ms[i].0);
            }
            assert(names_of(ms)[i] == ms[i].0);
            names_of(ms).lemma_filter_contains(pred, i);
        }
    }
}

} // verus!
