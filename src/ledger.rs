use vstd::prelude::*;

use crate::hashing::{checksum, checksum_entry, checksum_line};
use crate::paths::ArtifactPath;
use crate::text::chars_of;

verus! {

/// A produced binary: where it lies and what it holds.
#[derive(Debug)]
pub struct Artifact {
    pub path: ArtifactPath,
    pub contents: Vec<u8>,
}

impl View for Artifact {
    type V = (Seq<Seq<char>>, Seq<u8>);

    open spec fn view(&self) -> (Seq<Seq<char>>, Seq<u8>) {
        (self.path@, self.contents@)
    }
}

impl Artifact {
    pub fn new(path: ArtifactPath, contents: Vec<u8>) -> (r: Artifact)
        ensures
            r@ == (path@, contents@),
    {
        Artifact { path, contents }
    }
}

/// The ledger entries of some artifacts, in order: each names the artifact
/// by its last path component.
pub open spec fn entries_of(artifacts: Seq<(Seq<Seq<char>>, Seq<u8>)>) -> Seq<Seq<char>> {
    artifacts.map_values(|a: (Seq<Seq<char>>, Seq<u8>)| checksum_entry(a.0.last(), a.1))
}

/// Ledger text: every entry followed by a newline.
pub open spec fn render(entries: Seq<Seq<char>>) -> Seq<char>
    decreases entries.len(),
{
    if entries.len() == 0 {
        Seq::empty()
    } else {
        render(entries.drop_last()) + entries.last() + seq!['\n']
    }
}

/// The lines that text has ended so far, and the line that it has begun.
pub open spec fn split_state(s: Seq<char>) -> (Seq<Seq<char>>, Seq<char>)
    decreases s.len(),
{
    if s.len() == 0 {
        (Seq::empty(), Seq::empty())
    } else {
        let (done, current) = split_state(s.drop_last());
        if s.last() == '\n' {
            (done.push(current), Seq::empty())
        } else {
            (done, current.push(s.last()))
        }
    }
}

/// The lines of a text, without their newlines; a last line without a newline
/// counts where it is not empty.
pub open spec fn lines_of(s: Seq<char>) -> Seq<Seq<char>> {
    let (done, current) = split_state(s);
    if current.len() == 0 {
        done
    } else {
        done.push(current)
    }
}

/// Whether a text holds no newline.
pub open spec fn single_line(e: Seq<char>) -> bool {
    forall|i: int| 0 <= i < e.len() ==> e[i] != '\n'
}

proof fn lemma_split_extends(x: Seq<char>, e: Seq<char>)
    requires
        single_line(e),
    ensures
        split_state(x + e) == (split_state(x).0, split_state(x).1 + e),
    decreases e.len(),
{
    if e.len() == 0 {
        assert(x + e =~= x);
        assert(split_state(x).1 + e =~= split_state(x).1);
    } else {
        let shorter = e.drop_last();
        lemma_split_extends(x, shorter);
        assert((x + e).drop_last() =~= x + shorter);
        assert((x + e).last() == e.last());
        assert(split_state(x).1 + shorter + seq![e.last()] =~= split_state(x).1 + e);
    }
}

/// Splitting a rendered ledger gives back its entries, where none holds a
/// newline.
pub proof fn lemma_lines_of_render(entries: Seq<Seq<char>>)
    requires
        forall|i: int| 0 <= i < entries.len() ==> single_line(#[trigger] entries[i]),
    ensures
        split_state(render(entries)) == (entries, Seq::<char>::empty()),
        lines_of(render(entries)) == entries,
    decreases entries.len(),
{
    if entries.len() == 0 {
        assert(entries =~= Seq::<Seq<char>>::empty());
    } else {
        let rest = entries.drop_last();
        let e = entries.last();
        assert forall|i: int| 0 <= i < rest.len() implies single_line(#[trigger] rest[i]) by {
            assert(rest[i] == entries[i]);
        }
        lemma_split_extends(render(rest), e);
        lemma_lines_of_render(rest);
        let r = render(entries);
        assert(r.drop_last() =~= render(rest) + e);
        assert(Seq::<char>::empty() + e =~= e);
        assert(rest.push(e) =~= entries);
    }
}

/// The ledger of a previous run, held as its lines, each of which may match
/// the entry of an artifact.
pub struct Ledger {
    lines: Vec<String>,
}

impl View for Ledger {
    type V = Seq<Seq<char>>;

    closed spec fn view(&self) -> Seq<Seq<char>> {
        self.lines@.map_values(|l: String| l@)
    }
}

impl Ledger {
    /// The ledger written in `text`; an empty text (a ledger that did not
    /// exist yet) gives an empty ledger.
    pub fn parse(text: &str) -> (r: Ledger)
        ensures
            r@ == lines_of(text@),
    {
        let cs = chars_of(text);
        let mut lines: Vec<String> = Vec::new();
        let mut current = String::new();
        let mut i: usize = 0;
        while i < cs.len()
            invariant
                i <= cs@.len(),
                cs@ == text@,
                (lines@.map_values(|l: String| l@), current@) == split_state(
                    cs@.subrange(0, i as int),
                ),
            decreases cs@.len() - i,
        {
            let ghost prefix = cs@.subrange(0, i + 1);
            assert(prefix.drop_last() =~= cs@.subrange(0, i as int));
            let c = cs[i];
            if c == '\n' {
                let ghost before = lines@;
                let ended = current;
                proof {
                    assert(before.push(ended).map_values(|l: String| l@) =~= before.map_values(
                        |l: String| l@,
                    ).push(ended@));
                }
                lines.push(ended);
                current = String::new();
            } else {
                current.push(c);
            }
            i = i + 1;
        }
        assert(cs@.subrange(0, i as int) =~= text@);
        if !current.as_str().is_empty() {
            let ghost before = lines@;
            proof {
                assert(before.push(current).map_values(|l: String| l@) =~= before.map_values(
                    |l: String| l@,
                ).push(current@));
            }
            lines.push(current);
        }
        Ledger { lines }
    }

    /// Whether one of the lines is `entry`.
    pub fn contains(&self, entry: &str) -> (r: bool)
        ensures
            r == self@.contains(entry@),
    {
        let wanted = entry.to_owned();
        let mut i: usize = 0;
        while i < self.lines.len()
            invariant
                i <= self.lines@.len(),
                wanted@ == entry@,
                forall|j: int| 0 <= j < i ==> self@[j] != entry@,
            decreases self.lines@.len() - i,
        {
            if self.lines[i] == wanted {
                assert(self@[i as int] == entry@);
                return true;
            }
            i = i + 1;
        }
        false
    }
}

/// The text of a ledger for the given artifacts: one checksum line each, in
/// order.
pub fn checksums_text(artifacts: &Vec<Artifact>) -> (r: String)
    requires
        forall|i: int| 0 <= i < artifacts@.len() ==> (#[trigger] artifacts@[i]).path@.len() > 0,
    ensures
        r@ == render(entries_of(artifacts@.map_values(|a: Artifact| a@))),
{
    let ghost views = artifacts@.map_values(|a: Artifact| a@);
    let mut text = String::new();
    let mut i: usize = 0;
    while i < artifacts.len()
        invariant
            i <= artifacts@.len(),
            views == artifacts@.map_values(|a: Artifact| a@),
            forall|j: int| 0 <= j < artifacts@.len() ==> (#[trigger] artifacts@[j]).path@.len() > 0,
            text@ == render(entries_of(views.subrange(0, i as int))),
        decreases artifacts@.len() - i,
    {
        let a = &artifacts[i];
        let line = checksum(&a.path, a.contents.as_slice());
        proof {
            let done = entries_of(views.subrange(0, i as int));
            let next = entries_of(views.subrange(0, i + 1));
            assert(next.drop_last() =~= done);
            assert(next.last() == checksum_entry(a.path@.last(), a.contents@));
            assert(line@ == checksum_line(a.path@.last(), a.contents@));
        }
        text.append(line.as_str());
        proof {
            let next = entries_of(views.subrange(0, i + 1));
            assert(text@ =~= render(next));
        }
        i = i + 1;
    }
    assert(views.subrange(0, i as int) =~= views);
    text
}

} // verus!
