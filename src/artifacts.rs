//! The durable record of which processing stages have completed for which
//! episode. Marks are only ever added.
use vstd::prelude::*;

verus! {

/// A processing stage of an episode.
#[derive(Debug, Clone, Copy, PartialEq, Eq, Structural)]
pub enum Stage {
    Downloaded,
    Split,
    Transcribed,
}

/// The name under which a stage is persisted.
pub open spec fn stage_name(s: Stage) -> Seq<u8> {
    match s {
        Stage::Downloaded => seq![100u8, 111, 119, 110, 108, 111, 97, 100, 101, 100],
        Stage::Split => seq![115u8, 112, 108, 105, 116],
        Stage::Transcribed => seq![116u8, 114, 97, 110, 115, 99, 114, 105, 98, 101, 100],
    }
}

impl Stage {
    /// The persisted name: `downloaded`, `split` or `transcribed`.
    pub fn name(self) -> (r: Vec<u8>)
        ensures
            r@ == stage_name(self),
    {
        let r = match self {
            Stage::Downloaded => vec![100u8, 111, 119, 110, 108, 111, 97, 100, 101, 100],
            Stage::Split => vec![115u8, 112, 108, 105, 116],
            Stage::Transcribed => vec![116u8, 114, 97, 110, 115, 99, 114, 105, 98, 101, 100],
        };
        assert(r@ =~= stage_name(self));
        r
    }

    /// The stage persisted under `name`, if any.
    pub fn from_name(name: &[u8]) -> (r: Option<Stage>)
        ensures
            match r {
                Some(s) => stage_name(s) == name@,
                None => forall|s: Stage| stage_name(s) != name@,
            },
    {
        let d = Stage::Downloaded.name();
        let s = Stage::Split.name();
        let t = Stage::Transcribed.name();
        if bytes_equal(name, d.as_slice()) {
            Some(Stage::Downloaded)
        } else if bytes_equal(name, s.as_slice()) {
            Some(Stage::Split)
        } else if bytes_equal(name, t.as_slice()) {
            Some(Stage::Transcribed)
        } else {
            proof {
                assert forall|st: Stage| stage_name(st) != name@ by {
                    match st {
                        Stage::Downloaded => {},
                        Stage::Split => {},
                        Stage::Transcribed => {},
                    }
                }
            }
            None
        }
    }
}

fn bytes_equal(a: &[u8], b: &[u8]) -> (r: bool)
    ensures
        r == (a@ == b@),
{
    if a.len() != b.len() {
        return false;
    }
    let mut i: usize = 0;
    while i < a.len()
        invariant
            a@.len() == b@.len(),
            i <= a@.len(),
            a@.subrange(0, i as int) =~= b@.subrange(0, i as int),
        decreases a@.len() - i,
    {
        if a[i] != b[i] {
            return false;
        }
        assert(a@.subrange(0, i + 1) =~= b@.subrange(0, i + 1));
        i = i + 1;
    }
    assert(a@ =~= a@.subrange(0, i as int));
    assert(b@ =~= b@.subrange(0, i as int));
    true
}

/// A record that `stage` completed for the episode keyed `key`.
#[derive(Debug)]
pub struct StageMark {
    pub key: String,
    pub stage: Stage,
}

/// The completed stages of every episode, keyed by the episode's creation
/// timestamp.
#[derive(Debug)]
pub struct ArtifactStore {
    marks: Vec<StageMark>,
}

impl View for ArtifactStore {
    type V = Set<(Seq<char>, Stage)>;

    closed spec fn view(&self) -> Set<(Seq<char>, Stage)> {
        Set::new(
            |p: (Seq<char>, Stage)|
                exists|i: int|
                    0 <= i < self.marks@.len() && (#[trigger] self.marks@[i]).key@ == p.0
                        && self.marks@[i].stage == p.1,
        )
    }
}

impl ArtifactStore {
    /// A store with no marks.
    pub fn new() -> (r: ArtifactStore)
        ensures
            r@ == Set::<(Seq<char>, Stage)>::empty(),
    {
        let r = ArtifactStore { marks: Vec::new() };
        assert(r@ =~= Set::<(Seq<char>, Stage)>::empty());
        r
    }

    /// Whether `stage` is recorded as complete for the episode `key`.
    pub fn has_stage(&self, key: &String, stage: Stage) -> (r: bool)
        ensures
            r == self@.contains((key@, stage)),
    {
        let mut i: usize = 0;
        while i < self.marks.len()
            invariant
                i <= self.marks@.len(),
                forall|j: int|
                    0 <= j < i ==> !((#[trigger] self.marks@[j]).key@ == key@ && self.marks@[j].stage
                        == stage),
            decreases self.marks@.len() - i,
        {
            let m = &self.marks[i];
            if m.stage == stage && m.key == *key {
                assert(self@.contains((key@, stage))) by {
                    assert(self.marks@[i as int].key@ == key@);
                }
                return true;
            }
            i = i + 1;
        }
        assert(!self@.contains((key@, stage)));
        false
    }

    /// Records that `stage` completed for the episode `key`. Marking what is
    /// already marked changes nothing.
    pub fn mark_stage(&mut self, key: &String, stage: Stage)
        ensures
            final(self)@ == old(self)@.insert((key@, stage)),
    {
        if self.has_stage(key, stage) {
            assert(self@ =~= self@.insert((key@, stage)));
            return;
        }
        let ghost before = self@;
        let ghost old_marks = self.marks@;
        self.marks.push(StageMark { key: key.clone(), stage });
        assert(self@ =~= before.insert((key@, stage))) by {
            assert forall|p: (Seq<char>, Stage)| self@.contains(p) implies before.insert(
                (key@, stage),
            ).contains(p) by {
                let i = choose|i: int|
                    0 <= i < self.marks@.len() && (#[trigger] self.marks@[i]).key@ == p.0
                        && self.marks@[i].stage == p.1;
                if i < old_marks.len() {
                    assert(old_marks[i] == self.marks@[i]);
                }
            }
            assert forall|p: (Seq<char>, Stage)| before.insert((key@, stage)).contains(p) implies self@.contains(p) by {
                if p != (key@, stage) {
                    let i = choose|i: int|
                        0 <= i < old_marks.len() && (#[trigger] old_marks[i]).key@ == p.0
                            && old_marks[i].stage == p.1;
                    assert(self.marks@[i] == old_marks[i]);
                } else {
                    assert(self.marks@[old_marks.len() as int].key@ == key@);
                }
            }
        }
    }
}

/// Marking a stage twice leaves the store as marking it once does.
pub proof fn lemma_mark_idempotent(marks: Set<(Seq<char>, Stage)>, key: Seq<char>, stage: Stage)
    ensures
        marks.insert((key, stage)).insert((key, stage)) == marks.insert((key, stage)),
{
    assert(marks.insert((key, stage)).insert((key, stage)) =~= marks.insert((key, stage)));
}

} // verus!
