use vstd::prelude::*;

use crate::paths::ArtifactPath;
use crate::text::chars_of;

verus! {

/// Whether a character separates features in a feature list.
pub open spec fn is_feature_separator(c: char) -> bool {
    c == ',' || c == ' '
}

/// The pieces of a feature list ended so far, and the piece it has begun.
pub open spec fn feature_pieces(s: Seq<char>) -> (Seq<Seq<char>>, Seq<char>)
    decreases s.len(),
{
    if s.len() == 0 {
        (Seq::empty(), Seq::empty())
    } else {
        let (done, current) = feature_pieces(s.drop_last());
        if is_feature_separator(s.last()) {
            (done.push(current), Seq::empty())
        } else {
            (done, current.push(s.last()))
        }
    }
}

/// A feature list split at every comma and every space; empty pieces stay.
pub open spec fn features_of(s: Seq<char>) -> Seq<Seq<char>> {
    feature_pieces(s).0.push(feature_pieces(s).1)
}

/// Splits a space or comma separated list of features.
pub fn parse_features(list: &str) -> (r: Vec<String>)
    ensures
        r.deep_view() == features_of(list@),
{
    let cs = chars_of(list);
    let mut pieces: Vec<String> = Vec::new();
    let mut current = String::new();
    let mut i: usize = 0;
    while i < cs.len()
        invariant
            i <= cs@.len(),
            cs@ == list@,
            (pieces.deep_view(), current@) == feature_pieces(cs@.subrange(0, i as int)),
        decreases cs@.len() - i,
    {
        assert(cs@.subrange(0, i + 1).drop_last() =~= cs@.subrange(0, i as int));
        let c = cs[i];
        if c == ',' || c == ' ' {
            let ghost before = pieces.deep_view();
            let ended = current;
            let ghost ended_view = ended@;
            pieces.push(ended);
            assert(pieces.deep_view() =~= before.push(ended_view));
            current = String::new();
        } else {
            current.push(c);
        }
        i = i + 1;
    }
    assert(cs@.subrange(0, i as int) =~= list@);
    let ghost before = pieces.deep_view();
    let ghost last = current@;
    pieces.push(current);
    assert(pieces.deep_view() =~= before.push(last));
    pieces
}

/// What a run is asked to do: the workspace and the feature selection.
#[derive(Debug)]
pub struct RunContext {
    pub workspace_path: ArtifactPath,
    pub features: Vec<String>,
    pub all_features: bool,
    pub no_default_features: bool,
}

impl RunContext {
    /// The context for a workspace path and the feature flags as given: no
    /// feature list means no feature.
    pub fn new(
        workspace_path: ArtifactPath,
        features: Option<&str>,
        all_features: bool,
        no_default_features: bool,
    ) -> (r: RunContext)
        ensures
            r.workspace_path@ == workspace_path@,
            r.features.deep_view() == match features {
                Some(list) => features_of(list@),
                None => Seq::empty(),
            },
            r.all_features == all_features,
            r.no_default_features == no_default_features,
    {
        let features = match features {
            Some(list) => parse_features(list),
            None => {
                let v: Vec<String> = Vec::new();
                assert(v.deep_view() =~= Seq::<Seq<char>>::empty());
                v
            },
        };
        RunContext { workspace_path, features, all_features, no_default_features }
    }
}

} // verus!
