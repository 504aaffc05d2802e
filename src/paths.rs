use vstd::prelude::*;

use crate::text::{chars_of, opt_text, string_of};

verus! {

/// A filesystem path held as its sequence of components, as `Path::iter`
/// yields them: an absolute path starts with the root component `"/"`, a
/// leading `"."` stands for the current directory and `".."` for a parent.
#[derive(Debug)]
pub struct ArtifactPath {
    pub components: Vec<String>,
}

impl View for ArtifactPath {
    type V = Seq<Seq<char>>;

    open spec fn view(&self) -> Seq<Seq<char>> {
        self.components@.map_values(|c: String| c@)
    }
}

/// Whether a component is the root, the current or the parent directory.
pub open spec fn is_special_component(c: Seq<char>) -> bool {
    c == seq!['/'] || c == seq!['.'] || c == seq!['.', '.']
}

/// The file name of a path: its last component, unless that is the root, `.`
/// or `..`.
pub open spec fn file_name_of(p: Seq<Seq<char>>) -> Option<Seq<char>> {
    if p.len() > 0 && !is_special_component(p.last()) {
        Some(p.last())
    } else {
        None
    }
}

/// The index of the last `.` in `s`, or -1 where there is none.
pub open spec fn last_dot(s: Seq<char>) -> int
    decreases s.len(),
{
    if s.len() == 0 {
        -1
    } else if s.last() == '.' {
        s.len() - 1
    } else {
        last_dot(s.drop_last())
    }
}

/// The stem and the extension of a file name: split at its last `.`, unless
/// there is none, or the only one leads the name (`.profile`), or the name
/// is `..`; then the whole name is the stem and there is no extension.
pub open spec fn stem_and_extension(name: Seq<char>) -> (Seq<char>, Option<Seq<char>>) {
    let d = last_dot(name);
    if d <= 0 || name == seq!['.', '.'] {
        (name, None)
    } else {
        (name.subrange(0, d), Some(name.subrange(d + 1, name.len() as int)))
    }
}

/// The path as text: components joined by `/`, with no second separator
/// after the root.
pub open spec fn display_of(p: Seq<Seq<char>>) -> Seq<char>
    decreases p.len(),
{
    if p.len() == 0 {
        Seq::empty()
    } else {
        let before = display_of(p.drop_last());
        if before.len() > 0 && before.last() != '/' {
            before + seq!['/'] + p.last()
        } else {
            before + p.last()
        }
    }
}

/// Whether `prefix` is a leading part of `path`, component by component.
pub open spec fn has_prefix(path: Seq<Seq<char>>, prefix: Seq<Seq<char>>) -> bool {
    prefix.len() <= path.len() && path.subrange(0, prefix.len() as int) == prefix
}

pub proof fn lemma_last_dot_bounds(s: Seq<char>)
    ensures
        -1 <= last_dot(s) < s.len(),
        last_dot(s) >= 0 ==> s[last_dot(s)] == '.',
        forall|i: int| last_dot(s) < i < s.len() ==> s[i] != '.',
    decreases s.len(),
{
    if s.len() > 0 && s.last() != '.' {
        lemma_last_dot_bounds(s.drop_last());
        assert forall|i: int| last_dot(s) < i < s.len() implies s[i] != '.' by {
            if i < s.len() - 1 {
                assert(s.drop_last()[i] == s[i]);
            }
        }
    }
}

/// Whether two strings hold the same characters.
pub(crate) fn same_text(a: &String, b: &str) -> (r: bool)
    ensures
        r == (a@ == b@),
{
    let bs = b.to_owned();
    *a == bs
}

impl ArtifactPath {
    /// The path made of the given components.
    pub fn new(components: Vec<String>) -> (r: ArtifactPath)
        ensures
            r@ == components@.map_values(|c: String| c@),
    {
        ArtifactPath { components }
    }

    /// The number of components.
    pub fn len(&self) -> (r: usize)
        ensures
            r == self@.len(),
    {
        self.components.len()
    }

    /// A copy of the path.
    pub fn duplicate(&self) -> (r: ArtifactPath)
        ensures
            r@ == self@,
    {
        let components = self.components.clone();
        proof {
            assert forall|i: int| 0 <= i < self@.len() implies components@[i]@ == self@[i] by {
                assert(cloned(self.components@[i], components@[i]));
            }
            assert(components@.map_values(|c: String| c@) =~= self@);
        }
        ArtifactPath { components }
    }

    /// This path with one more component at its end.
    pub fn join(&self, component: String) -> (r: ArtifactPath)
        ensures
            r@ == self@.push(component@),
    {
        let mut r = self.duplicate();
        r.components.push(component);
        assert(r@ =~= self@.push(component@));
        r
    }

    /// Whether the last component is `name`.
    pub fn ends_with(&self, name: &str) -> (r: bool)
        ensures
            r == (self@.len() > 0 && self@.last() == name@),
    {
        let n = self.components.len();
        if n == 0 {
            false
        } else {
            same_text(&self.components[n - 1], name)
        }
    }

    /// Whether `prefix` is a leading part of this path, component by component.
    pub fn starts_with(&self, prefix: &ArtifactPath) -> (r: bool)
        ensures
            r == has_prefix(self@, prefix@),
    {
        let n = prefix.components.len();
        if n > self.components.len() {
            return false;
        }
        let mut i: usize = 0;
        while i < n
            invariant
                i <= n == prefix@.len() <= self@.len(),
                forall|j: int| 0 <= j < i ==> self@[j] == prefix@[j],
            decreases n - i,
        {
            if !same_text(&self.components[i], prefix.components[i].as_str()) {
                assert(self@.subrange(0, n as int)[i as int] != prefix@[i as int]);
                return false;
            }
            i = i + 1;
        }
        assert(self@.subrange(0, n as int) =~= prefix@);
        true
    }

    /// The last component, where it names a file or directory.
    pub fn file_name(&self) -> (r: Option<String>)
        ensures
            r matches Some(s) ==> file_name_of(self@) == Some(s@),
            r is None ==> file_name_of(self@) is None,
    {
        let n = self.components.len();
        if n == 0 {
            return None;
        }
        let last = &self.components[n - 1];
        assert(self@.last() == last@);
        let root = same_text(last, "/");
        let current = same_text(last, ".");
        let parent = same_text(last, "..");
        proof {
            reveal_strlit("/");
            reveal_strlit(".");
            reveal_strlit("..");
            assert("/"@ =~= seq!['/']);
            assert("."@ =~= seq!['.']);
            assert(".."@ =~= seq!['.', '.']);
        }
        if root || current || parent {
            None
        } else {
            Some(last.clone())
        }
    }

    /// The path as text, components joined by `/`.
    pub fn display(&self) -> (r: String)
        ensures
            r@ == display_of(self@),
    {
        let mut r = String::new();
        let mut i: usize = 0;
        while i < self.components.len()
            invariant
                i <= self@.len(),
                r@ == display_of(self@.subrange(0, i as int)),
            decreases self@.len() - i,
        {
            proof {
                assert(self@.subrange(0, i + 1).drop_last() =~= self@.subrange(0, i as int));
            }
            if !r.as_str().is_empty() && !ends_with_separator(&r) {
                r.append("/");
                proof {
                    reveal_strlit("/");
                }
            }
            r.append(self.components[i].as_str());
            i = i + 1;
        }
        assert(self@.subrange(0, i as int) =~= self@);
        r
    }
}

/// Whether the text ends with `/`.
fn ends_with_separator(s: &String) -> (r: bool)
    ensures
        r == (s@.len() > 0 && s@.last() == '/'),
{
    let cs = chars_of(s.as_str());
    cs.len() > 0 && cs[cs.len() - 1] == '/'
}

/// Splits a file name at its last `.` (see `stem_and_extension`).
pub fn split_file_name(name: &String) -> (r: (String, Option<String>))
    ensures
        (r.0@, opt_text(r.1)) == stem_and_extension(name@),
{
    let cs = chars_of(name.as_str());
    let n = cs.len();
    let mut i: usize = n;
    while i > 0 && cs[i - 1] != '.'
        invariant
            i <= n == cs@.len(),
            cs@ == name@,
            forall|j: int| i <= j < n ==> cs@[j] != '.',
        decreases i,
    {
        i = i - 1;
    }
    proof {
        lemma_last_dot_bounds(name@);
        // the scan stopped at the last dot, or found none
        if i > 0 {
            assert(last_dot(name@) == i - 1);
        } else {
            assert(last_dot(name@) == -1);
        }
    }
    let parent = n == 2 && cs[0] == '.' && cs[1] == '.';
    if i <= 1 || parent {
        proof {
            if parent {
                assert(name@ =~= seq!['.', '.']);
            } else {
                assert(name@ != seq!['.', '.']);
            }
        }
        (name.clone(), None)
    } else {
        assert(name@ != seq!['.', '.']);
        (string_of(&cs, 0, i - 1), Some(string_of(&cs, i, n)))
    }
}

} // verus!
