//! Which episodes of a listing still need work, given the artifact store.
use vstd::prelude::*;
use crate::artifacts::{ArtifactStore, Stage};
use vstd::utf8::encode_utf8;

verus! {

/// One recorded lecture of a series. `created_at` is the key of its
/// artifacts.
#[derive(Debug)]
pub struct Episode {
    pub id: String,
    pub created_at: String,
}

/// The episode's terminal stage has not been recorded.
pub open spec fn needs_work(marks: Set<(Seq<char>, Stage)>, terminal: Stage, e: Episode) -> bool {
    !marks.contains((e.created_at@, terminal))
}

/// The episodes of `eps` that need work, in listing order.
pub open spec fn pending(eps: Seq<Episode>, marks: Set<(Seq<char>, Stage)>, terminal: Stage) -> Seq<
    Episode,
>
    decreases eps.len(),
{
    if eps.len() == 0 {
        Seq::empty()
    } else {
        let p = pending(eps.drop_last(), marks, terminal);
        if needs_work(marks, terminal, eps.last()) {
            p.push(eps.last())
        } else {
            p
        }
    }
}

/// The episodes of the listing whose `terminal` stage is not recorded in
/// `store`, in listing order.
pub fn pending_episodes(episodes: &Vec<Episode>, store: &ArtifactStore, terminal: Stage) -> (r: Vec<
    Episode,
>)
    ensures
        r@ == pending(episodes@, store@, terminal),
{
    let mut out: Vec<Episode> = Vec::new();
    let mut i: usize = 0;
    assert(episodes@.subrange(0, 0) =~= Seq::<Episode>::empty());
    while i < episodes.len()
        invariant
            i <= episodes@.len(),
            out@ == pending(episodes@.subrange(0, i as int), store@, terminal),
        decreases episodes@.len() - i,
    {
        let e = &episodes[i];
        assert(episodes@.subrange(0, i + 1).drop_last() =~= episodes@.subrange(0, i as int));
        assert(episodes@.subrange(0, i + 1).last() == *e);
        if !store.has_stage(&e.created_at, terminal) {
            out.push(Episode { id: e.id.clone(), created_at: e.created_at.clone() });
        }
        i = i + 1;
    }
    assert(episodes@.subrange(0, i as int) =~= episodes@);
    out
}

/// The work list depends on the listing and the recorded marks alone: two
/// runs over the same listing and equal stores plan the same episodes.
pub proof fn lemma_plan_repeatable(
    eps: Seq<Episode>,
    first: ArtifactStore,
    second: ArtifactStore,
    terminal: Stage,
)
    requires
        first@ == second@,
    ensures
        pending(eps, first@, terminal) == pending(eps, second@, terminal),
{
}

/// Every planned episode is one of the listing, and needs work.
pub proof fn lemma_pending_needs_work(
    eps: Seq<Episode>,
    marks: Set<(Seq<char>, Stage)>,
    terminal: Stage,
)
    ensures
        forall|k: int|
            0 <= k < pending(eps, marks, terminal).len() ==> {
                &&& needs_work(marks, terminal, #[trigger] pending(eps, marks, terminal)[k])
                &&& eps.contains(pending(eps, marks, terminal)[k])
            },
    decreases eps.len(),
{
    if eps.len() > 0 {
        lemma_pending_needs_work(eps.drop_last(), marks, terminal);
        let p = pending(eps.drop_last(), marks, terminal);
        assert forall|k: int| 0 <= k < p.len() implies eps.contains(#[trigger] p[k]) by {
            let m = choose|m: int| 0 <= m < eps.drop_last().len() && eps.drop_last()[m] == p[k];
            assert(eps[m] == p[k]);
        }
        assert(eps[eps.len() - 1] == eps.last());
    }
}

/// Once the terminal stage of an episode is marked, no later plan over the
/// same listing holds an episode with its key.
pub proof fn lemma_marked_episode_excluded(
    eps: Seq<Episode>,
    marks: Set<(Seq<char>, Stage)>,
    key: Seq<char>,
    terminal: Stage,
)
    ensures
        forall|k: int|
            0 <= k < pending(eps, marks.insert((key, terminal)), terminal).len() ==> (
            #[trigger] pending(eps, marks.insert((key, terminal)), terminal)[k]).created_at@ != key,
{
    lemma_pending_needs_work(eps, marks.insert((key, terminal)), terminal);
}

/// `a` comes strictly before `b` in lexicographic byte order. For timestamps
/// written in one fixed ISO-8601 form this is chronological order.
pub open spec fn bytes_before(a: Seq<u8>, b: Seq<u8>) -> bool
    decreases a.len(),
{
    if a.len() == 0 {
        b.len() > 0
    } else if b.len() == 0 {
        false
    } else if a[0] != b[0] {
        a[0] < b[0]
    } else {
        bytes_before(a.drop_first(), b.drop_first())
    }
}

/// Whether `a` comes strictly before `b` in lexicographic byte order.
pub fn is_before(a: &[u8], b: &[u8]) -> (r: bool)
    ensures
        r == bytes_before(a@, b@),
{
    let mut i: usize = 0;
    assert(a@.subrange(0, a@.len() as int) =~= a@);
    assert(b@.subrange(0, b@.len() as int) =~= b@);
    while i < a.len() && i < b.len() && a[i] == b[i]
        invariant
            i <= a@.len(),
            i <= b@.len(),
            bytes_before(a@, b@) == bytes_before(
                a@.subrange(i as int, a@.len() as int),
                b@.subrange(i as int, b@.len() as int),
            ),
        decreases a@.len() - i,
    {
        let ghost ra = a@.subrange(i as int, a@.len() as int);
        let ghost rb = b@.subrange(i as int, b@.len() as int);
        assert(ra.drop_first() =~= a@.subrange(i + 1, a@.len() as int));
        assert(rb.drop_first() =~= b@.subrange(i + 1, b@.len() as int));
        i = i + 1;
    }
    let ghost ra = a@.subrange(i as int, a@.len() as int);
    let ghost rb = b@.subrange(i as int, b@.len() as int);
    if i == a.len() {
        i < b.len()
    } else if i == b.len() {
        false
    } else {
        assert(ra[0] == a@[i as int] && rb[0] == b@[i as int]);
        a[i] < b[i]
    }
}

/// The episodes of `eps` created strictly after `cutoff`, in listing order.
pub open spec fn created_after(eps: Seq<Episode>, cutoff: Seq<u8>) -> Seq<Episode>
    decreases eps.len(),
{
    if eps.len() == 0 {
        Seq::empty()
    } else {
        let p = created_after(eps.drop_last(), cutoff);
        if bytes_before(cutoff, encode_utf8(eps.last().created_at@)) {
            p.push(eps.last())
        } else {
            p
        }
    }
}

/// The episodes of the listing created strictly after `cutoff`, in listing
/// order; timestamps compare as text.
pub fn episodes_after(episodes: &Vec<Episode>, cutoff: &String) -> (r: Vec<Episode>)
    ensures
        r@ == created_after(episodes@, encode_utf8(cutoff@)),
{
    let c = cutoff.as_str().as_bytes();
    let mut out: Vec<Episode> = Vec::new();
    let mut i: usize = 0;
    assert(episodes@.subrange(0, 0) =~= Seq::<Episode>::empty());
    while i < episodes.len()
        invariant
            i <= episodes@.len(),
            c@ == encode_utf8(cutoff@),
            out@ == created_after(episodes@.subrange(0, i as int), c@),
        decreases episodes@.len() - i,
    {
        let e = &episodes[i];
        assert(episodes@.subrange(0, i + 1).drop_last() =~= episodes@.subrange(0, i as int));
        assert(episodes@.subrange(0, i + 1).last() == *e);
        if is_before(c, e.created_at.as_str().as_bytes()) {
            out.push(Episode { id: e.id.clone(), created_at: e.created_at.clone() });
        }
        i = i + 1;
    }
    assert(episodes@.subrange(0, i as int) =~= episodes@);
    out
}

} // verus!
