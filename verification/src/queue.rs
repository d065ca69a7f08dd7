//! The queue of jobs waiting to run, ordered by priority (highest first) and then by
//! submission time (earliest first).
use vstd::prelude::*;
use crate::models::{Job, JobId, Timestamp};
use std::collections::VecDeque;
use crate::order::{Ranked, rank_lt, is_ranked, ranked_insert, insertion_index, lemma_insertion_index, lemma_insertion_index_unique, first_match, lemma_first_match, lemma_first_match_at, lemma_first_match_none, lemma_ranked_insert_contents, lemma_ranked_insert_keeps_order, lemma_rank_class_insert, rank_class};

verus! {

broadcast use vstd::seq_lib::group_to_multiset_ensures;

impl Ranked for Job {
    /// Higher priority first, then earlier submission.
    open spec fn rank(&self) -> (int, int) {
        (-(self.spec.priority as int), self.submitted_at.ord_key())
    }

    fn ranks_before(&self, other: &Job) -> (r: bool) {
        self.spec.priority > other.spec.priority || (self.spec.priority == other.spec.priority
            && self.submitted_at.is_before(&other.submitted_at))
    }
}

/// The job carries the given id.
pub open spec fn has_id(id: Seq<char>) -> spec_fn(Job) -> bool {
    |j: Job| j.id@ == id
}

/// Jobs waiting to be scheduled.
pub struct JobQueue {
    jobs: VecDeque<Job>,
}

impl View for JobQueue {
    type V = Seq<Job>;

    closed spec fn view(&self) -> Seq<Job> {
        self.jobs@
    }
}

impl JobQueue {
    /// An empty queue.
    pub fn new() -> (q: JobQueue)
        ensures
            q@ == Seq::<Job>::empty(),
    {
        JobQueue { jobs: VecDeque::new() }
    }

    /// Inserts a job in priority order: before the first job of lower priority, or of the
    /// same priority but later submission. Returns where it now stands.
    pub fn push(&mut self, job: Job) -> (pos: usize)
        ensures
            final(self)@ == ranked_insert(old(self)@, job),
            final(self)@ == old(self)@.insert(pos as int, job),
            is_ranked(old(self)@) ==> is_ranked(final(self)@),
            final(self)@.to_multiset() == old(self)@.to_multiset().insert(job),
    {
        let n = self.jobs.len();
        let mut i: usize = 0;
        while i < n
            invariant
                n == self.jobs@.len(),
                self.jobs@ == old(self)@,
                i <= n,
                forall|k: int| 0 <= k < i ==> !rank_lt(job.rank(), #[trigger] self.jobs@[k].rank()),
            ensures
                i <= n,
                self.jobs@ == old(self)@,
                forall|k: int| 0 <= k < i ==> !rank_lt(job.rank(), #[trigger] self.jobs@[k].rank()),
                i < n ==> rank_lt(job.rank(), self.jobs@[i as int].rank()),
            decreases n - i,
        {
            if job.ranks_before(&self.jobs[i]) {
                break;
            }
            i = i + 1;
        }
        proof {
            lemma_insertion_index(old(self)@, job);
            lemma_insertion_index_unique(old(self)@, job, i as int);
        }
        self.jobs.insert(i, job);
        let pos = i;
        proof {
            let ghost before = old(self)@;
            lemma_ranked_insert_contents(before, job);
            if is_ranked(before) {
                lemma_ranked_insert_keeps_order(before, job);
            }
        }
        pos
    }

    /// Removes and returns the next job to schedule: highest priority, earliest submission.
    pub fn pop(&mut self) -> (r: Option<Job>)
        ensures
            old(self)@.len() == 0 ==> r is None && final(self)@ == old(self)@,
            old(self)@.len() > 0 ==> r == Some(old(self)@[0]) && final(self)@ == old(self)@.drop_first(),
            is_ranked(old(self)@) ==> is_ranked(final(self)@),
            is_ranked(old(self)@) && r is Some ==> forall|i: int|
                0 <= i < final(self)@.len() ==> !rank_lt(#[trigger] final(self)@[i].rank(), r->0.rank()),
    {
        let r = self.jobs.pop_front();
        proof {
            let ghost before = old(self)@;
            if before.len() > 0 {
                assert(self.jobs@ =~= before.drop_first());
                assert forall|i: int| 0 <= i < self.jobs@.len() implies #[trigger] self.jobs@[i] == before[i + 1] by {}
            }
        }
        r
    }

    /// The next job to schedule, left in place.
    pub fn peek(&self) -> (r: Option<&Job>)
        ensures
            self@.len() == 0 ==> r is None,
            self@.len() > 0 ==> r == Some(&self@[0]),
    {
        if self.jobs.len() == 0 {
            None
        } else {
            Some(&self.jobs[0])
        }
    }

    /// Index of the first job with the given id.
    pub fn position(&self, job_id: &JobId) -> (r: Option<usize>)
        ensures
            r matches Some(i) ==> first_match(self@, has_id(job_id@)) == Some(i as int),
            r is None ==> first_match(self@, has_id(job_id@)) is None,
    {
        let n = self.jobs.len();
        let mut i: usize = 0;
        while i < n
            invariant
                n == self.jobs@.len(),
                i <= n,
                forall|k: int| 0 <= k < i ==> !has_id(job_id@)(#[trigger] self.jobs@[k]),
            decreases n - i,
        {
            if self.jobs[i].id == *job_id {
                proof {
                    lemma_first_match_at(self.jobs@, has_id(job_id@), i as int);
                }
                return Some(i);
            }
            i = i + 1;
        }
        proof {
            lemma_first_match_none(self.jobs@, has_id(job_id@));
        }
        None
    }

    /// Removes the first job with the given id and returns it.
    pub fn remove(&mut self, job_id: &JobId) -> (r: Option<Job>)
        ensures
            match first_match(old(self)@, has_id(job_id@)) {
                Some(i) => r == Some(old(self)@[i]) && final(self)@ == old(self)@.remove(i),
                None => r is None && final(self)@ == old(self)@,
            },
            is_ranked(old(self)@) ==> is_ranked(final(self)@),
    {
        match self.position(job_id) {
            Some(i) => {
                proof {
                    lemma_first_match(self.jobs@, has_id(job_id@));
                }
                let removed = self.jobs.remove(i);
                let j = match removed {
                    Some(j) => j,
                    None => {
                        return None;
                    },
                };
                proof {
                    let ghost before = old(self)@;
                    assert forall|a: int, b: int| 0 <= a < b < self.jobs@.len() && is_ranked(before) implies
                        !rank_lt(#[trigger] self.jobs@[b].rank(), #[trigger] self.jobs@[a].rank()) by {
                        let a0 = if a < i { a } else { a + 1 };
                        let b0 = if b < i { b } else { b + 1 };
                        assert(self.jobs@[a] == before[a0]);
                        assert(self.jobs@[b] == before[b0]);
                    }
                }
                Some(j)
            },
            None => None,
        }
    }

    /// Number of queued jobs.
    pub fn len(&self) -> (r: usize)
        ensures
            r == self@.len(),
    {
        self.jobs.len()
    }

    /// The queued jobs in scheduling order.
    pub fn iter(&self) -> (r: &VecDeque<Job>)
        ensures
            r@ == self@,
    {
        &self.jobs
    }
}

/// Law: jobs of equal priority and equal submission time leave the queue in the order
/// they were pushed, and pushing leaves every other rank's jobs as they were.
pub proof fn law_queue_fifo_within_rank(queue: Seq<Job>, job: Job, priority: i32, submitted: Timestamp)
    requires
        is_ranked(queue),
    ensures
        rank_class(ranked_insert(queue, job), (-(priority as int), submitted.ord_key())) == if job.spec.priority
            == priority && job.submitted_at.ord_key() == submitted.ord_key() {
            rank_class(queue, (-(priority as int), submitted.ord_key())).push(job)
        } else {
            rank_class(queue, (-(priority as int), submitted.ord_key()))
        },
{
    lemma_rank_class_insert(queue, job, (-(priority as int), submitted.ord_key()));
}

/// Law: the job at the head of an ordered queue has the highest priority, and no queued
/// job of that priority was submitted before it.
pub proof fn law_queue_head_is_next(queue: Seq<Job>)
    requires
        is_ranked(queue),
        queue.len() > 0,
    ensures
        forall|i: int| 0 <= i < queue.len() ==> (#[trigger] queue[i]).spec.priority < queue[0].spec.priority || (
        queue[i].spec.priority == queue[0].spec.priority && queue[0].submitted_at.ord_key()
            <= queue[i].submitted_at.ord_key()),
{
    assert forall|i: int| 0 <= i < queue.len() implies (#[trigger] queue[i]).spec.priority < queue[0].spec.priority || (
    queue[i].spec.priority == queue[0].spec.priority && queue[0].submitted_at.ord_key()
        <= queue[i].submitted_at.ord_key()) by {
        if i > 0 {
            assert(!rank_lt(queue[i].rank(), queue[0].rank()));
        }
    }
}

} // verus!
