//! A lazy, order-preserving walk of commit ancestors: breadth-first from
//! one tip, deduplicating ids so that every reachable commit is yielded
//! exactly once, and propagating per-step failures without terminating
//! the traversal.
//!
//! The walk is split from the object database that feeds it: each step
//! first names the id to resolve, then takes what the database reported
//! for it and yields the popped id or that step's error. The caller runs
//! the loop and performs the lookups and decodes.

use vstd::prelude::*;
use crate::hash::ObjectId;

verus! {

/// The error yielded for one traversal step.
#[derive(Debug)]
pub enum Error {
    NotFound { oid: ObjectId },
    Locate { message: String },
    Decode { message: String },
}

/// What the object database reported for the id just popped: absent,
/// failed to locate or decode, or decoded — a commit contributing its
/// parents in declaration order, or another object kind contributing
/// none.
#[derive(Debug)]
pub enum Outcome {
    Missing,
    LocateFailed { message: String },
    DecodeFailed { message: String },
    NotCommit,
    Commit { parents: Vec<ObjectId> },
}

/// Every parent carried by the outcome is a well-formed id.
pub open spec fn outcome_wf(o: Outcome) -> bool {
    match o {
        Outcome::Commit { parents } => forall|i: int|
            0 <= i < parents@.len() ==> (#[trigger] parents@[i]).wf(),
        _ => true,
    }
}

/// Appends each parent that is not yet present, keeping declaration
/// order; parents already enqueued (or already yielded) are dropped.
pub open spec fn enqueue(front: Seq<Seq<u8>>, parents: Seq<Seq<u8>>) -> Seq<Seq<u8>>
    decreases parents.len(),
{
    if parents.len() == 0 {
        front
    } else {
        let f1 = if front.contains(parents[0]) {
            front
        } else {
            front.push(parents[0])
        };
        enqueue(f1, parents.drop_first())
    }
}

/// An iterator over the ancestors of a single starting point.
///
/// The frontier keeps every id ever enqueued; the ids before `head` have
/// been yielded, the ids from `head` on are pending. An id enters the
/// frontier at most once, so each id is yielded at most once; the tip
/// counts as seen from the start.
pub struct Iter {
    frontier: Vec<ObjectId>,
    head: usize,
}

impl Iter {
    /// Every id ever enqueued, oldest first.
    pub closed spec fn ids(self) -> Seq<Seq<u8>> {
        self.frontier.deep_view()
    }

    /// The ids already yielded, in yield order.
    pub closed spec fn visited(self) -> Seq<Seq<u8>> {
        self.ids().take(self.head as int)
    }

    /// The ids awaiting resolution, in yield order.
    pub closed spec fn pending(self) -> Seq<Seq<u8>> {
        self.ids().skip(self.head as int)
    }

    /// The yielded ids stand before the pending ones, every id is
    /// well-formed, and no id occurs twice.
    pub closed spec fn wf(self) -> bool {
        &&& self.head <= self.frontier@.len()
        &&& forall|i: int| 0 <= i < self.frontier@.len() ==> (#[trigger] self.frontier@[i]).wf()
        &&& forall|i: int, j: int|
            0 <= i < j < self.ids().len() ==> self.ids()[i] != self.ids()[j]
    }

    /// Creates a traversal seeded with one tip.
    pub fn new(tip: ObjectId) -> (r: Iter)
        requires
            tip.wf(),
        ensures
            r.wf(),
            r.ids() == seq![tip@],
            r.visited() == Seq::<Seq<u8>>::empty(),
    {
        let mut frontier: Vec<ObjectId> = Vec::new();
        frontier.push(tip);
        let it = Iter { frontier, head: 0 };
        proof {
            assert(it.ids() =~= seq![tip@]);
            assert(it.visited() =~= Seq::<Seq<u8>>::empty());
        }
        it
    }

    /// The id the next step must resolve, if the traversal is not yet
    /// terminal.
    pub fn next_to_visit(&self) -> (r: Option<ObjectId>)
        requires
            self.wf(),
        ensures
            match r {
                Some(oid) => self.pending().len() > 0 && oid@ == self.pending()[0] && oid.wf(),
                None => self.pending().len() == 0,
            },
    {
        if self.head < self.frontier.len() {
            let oid = self.frontier[self.head].duplicate();
            proof {
                assert(oid@ =~= self.ids()[self.head as int]);
            }
            Some(oid)
        } else {
            None
        }
    }

    /// True once the frontier is exhausted: the traversal is terminal.
    pub fn done(&self) -> (r: bool)
        requires
            self.wf(),
        ensures
            r <==> self.pending().len() == 0,
    {
        self.head >= self.frontier.len()
    }

    /// Whether some id of the frontier holds exactly the given bytes.
    fn frontier_contains(frontier: &Vec<ObjectId>, id: &ObjectId) -> (r: bool)
        ensures
            r <==> frontier.deep_view().contains(id@),
    {
        let mut i: usize = 0;
        while i < frontier.len()
            invariant
                i <= frontier@.len(),
                forall|k: int| 0 <= k < i ==> frontier.deep_view()[k] != id@,
            decreases frontier@.len() - i,
        {
            if frontier[i] == *id {
                proof {
                    assert(frontier.deep_view()[i as int] == id@);
                }
                return true;
            }
            i += 1;
        }
        false
    }

    /// One traversal step: pops the front id, takes what the database
    /// reported for it, enqueues the parents not yet seen in declaration
    /// order, and yields the popped id — or that step's error, leaving
    /// the remaining state consistent so the caller may keep pulling.
    pub fn advance(&mut self, outcome: Outcome) -> (r: Result<ObjectId, Error>)
        requires
            old(self).wf(),
            old(self).pending().len() > 0,
            outcome_wf(outcome),
        ensures
            final(self).wf(),
            final(self).visited() == old(self).visited().push(old(self).pending()[0]),
            (outcome matches Outcome::Commit { parents } ==> final(self).ids() == enqueue(
                old(self).ids(),
                parents.deep_view(),
            )),
            (!(outcome is Commit) ==> final(self).ids() == old(self).ids()),
            match r {
                Ok(oid) => oid@ == old(self).pending()[0] && (outcome is NotCommit
                    || outcome is Commit),
                Err(e) => match e {
                    Error::NotFound { oid } => oid@ == old(self).pending()[0]
                        && outcome is Missing,
                    Error::Locate { message } => outcome matches Outcome::LocateFailed {
                        message: m,
                    } && message == m,
                    Error::Decode { message } => outcome matches Outcome::DecodeFailed {
                        message: m,
                    } && message == m,
                },
            },
    {
        let oid = self.frontier[self.head].duplicate();
        proof {
            assert(oid@ =~= old(self).ids()[old(self).head as int]);
        }
        let flen = self.frontier.len();
        proof {
            assert(self.head < flen);
        }
        self.head = self.head + 1;
        proof {
            assert(self.visited() =~= old(self).visited().push(
                old(self).ids()[old(self).head as int],
            ));
        }
        match outcome {
            Outcome::Missing => Err(Error::NotFound { oid }),
            Outcome::LocateFailed { message } => Err(Error::Locate { message }),
            Outcome::DecodeFailed { message } => Err(Error::Decode { message }),
            Outcome::NotCommit => Ok(oid),
            Outcome::Commit { parents } => {
                let ghost front0 = self.ids();
                let ghost pseq = parents.deep_view();
                let ghost visited0 = self.visited();
                proof {
                    assert(pseq.skip(0) =~= pseq);
                }
                let mut j: usize = 0;
                while j < parents.len()
                    invariant
                        j <= parents@.len(),
                        pseq == parents.deep_view(),
                        forall|k: int| 0 <= k < parents@.len() ==> (#[trigger] parents@[k]).wf(),
                        self.head <= self.frontier@.len(),
                        self.head == old(self).head + 1,
                        forall|i: int|
                            0 <= i < self.frontier@.len() ==> (#[trigger] self.frontier@[i]).wf(),
                        forall|i: int, j2: int|
                            0 <= i < j2 < self.ids().len() ==> self.ids()[i] != self.ids()[j2],
                        front0.len() <= self.ids().len(),
                        self.ids().take(front0.len() as int) == front0,
                        self.visited() == visited0,
                        enqueue(front0, pseq) == enqueue(self.ids(), pseq.skip(j as int)),
                    decreases parents@.len() - j,
                {
                    let parent = &parents[j];
                    proof {
                        assert(pseq[j as int] =~= parent@);
                        assert(pseq.skip(j as int)[0] == pseq[j as int]);
                        assert(pseq.skip(j as int).drop_first() =~= pseq.skip(j as int + 1));
                    }
                    let ghost cur = self.ids();
                    if !Self::frontier_contains(&self.frontier, parent) {
                        let p2 = parent.duplicate();
                        self.frontier.push(p2);
                        proof {
                            assert(self.ids() =~~= cur.push(parent@));
                            assert(self.ids().take(front0.len() as int) =~= front0);
                            assert(self.visited() =~= visited0);
                        }
                    }
                    j += 1;
                }
                proof {
                    assert(pseq.skip(parents@.len() as int).len() == 0);
                    assert(self.ids() == enqueue(front0, pseq));
                }
                Ok(oid)
            },
        }
    }
}

/// Law: the anchored id sequence is exactly the yielded ids followed by
/// the pending ones; with `new` and `advance`'s clauses over `ids()`
/// this determines a whole traversal's yield order from outside.
pub proof fn lemma_ids_partition(it: Iter)
    requires
        it.wf(),
    ensures
        it.ids() == it.visited() + it.pending(),
        it.visited().len() + it.pending().len() == it.ids().len(),
{
    assert(it.ids() =~= it.visited() + it.pending());
}

/// Law: the ids a traversal has yielded are pairwise distinct — every
/// reachable id is yielded at most once, whatever the merge topology.
pub proof fn lemma_visited_distinct(it: Iter)
    requires
        it.wf(),
    ensures
        forall|i: int, j: int|
            0 <= i < j < it.visited().len() ==> it.visited()[i] != it.visited()[j],
{
}

} // verus!
