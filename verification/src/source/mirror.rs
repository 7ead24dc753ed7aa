//! A source that fails over across several equivalent sources (mirrors of one resource).

use crate::error;
use crate::error::Error;
use vstd::prelude::*;

verus! {

/// Several sources for the same resource, tried in order until one answers. Every operation starts at the
/// primary and falls through to each mirror on error, so a dead or throttled host is skipped without failing
/// the download. Because a dropped chunk is retried, a mid-stream failure on one mirror is re-attempted from
/// where it stopped, possibly against another.
pub struct Mirrors<S> {
    sources: Vec<S>,
}

impl<S> Mirrors<S> {
    /// The sources, the primary first.
    pub closed spec fn sources(self) -> Seq<S> {
        self.sources@
    }

    /// Build a set from the primary source and zero or more mirrors, tried in that order.
    pub fn new(primary: S, mirrors: Vec<S>) -> (m: Mirrors<S>)
        ensures
            m.sources() == seq![primary] + mirrors@,
    {
        let mut sources: Vec<S> = Vec::new();
        let mut rest = mirrors;
        sources.push(primary);
        sources.append(&mut rest);
        assert(sources@ =~= seq![primary] + mirrors@);
        Mirrors { sources }
    }

    /// The number of sources.
    pub fn count(&self) -> (n: usize)
        ensures
            n == self.sources().len(),
    {
        self.sources.len()
    }

    /// The `i`-th source, counted from the primary.
    pub fn source(&self, i: usize) -> (s: &S)
        requires
            i < self.sources().len(),
        ensures
            *s == self.sources()[i as int],
    {
        &self.sources[i]
    }

    /// Start an operation at the primary.
    pub fn begin(&self) -> (f: Failover)
        ensures
            f.count() == self.sources().len(),
            f.tried() == 0,
            f.last() is None,
            f.wf(),
    {
        Failover { count: self.sources.len(), tried: 0, last: None }
    }
}

/// One operation over a set of mirrors: which source to try next, until one answers.
#[derive(Debug)]
pub struct Failover {
    count: usize,
    tried: usize,
    last: Option<Error>,
}

impl Failover {
    /// The number of sources.
    pub closed spec fn count(self) -> nat {
        self.count as nat
    }

    /// How many have failed.
    pub closed spec fn tried(self) -> nat {
        self.tried as nat
    }

    /// The last failure.
    pub closed spec fn last(self) -> Option<Error> {
        self.last
    }

    /// No more have failed than there are, and there is a last failure once one has.
    pub open spec fn wf(self) -> bool {
        self.tried() <= self.count() && (self.tried() > 0 <==> self.last() is Some)
    }

    /// The source to try: the one after those that failed, as long as there is one.
    pub fn next(&self) -> (i: Option<usize>)
        ensures
            match i {
                Some(i) => self.tried() < self.count() && i == self.tried(),
                None => self.tried() >= self.count(),
            },
    {
        if self.tried < self.count {
            Some(self.tried)
        } else {
            None
        }
    }

    /// The source that was tried failed.
    pub fn failed(&mut self, error: Error)
        requires
            old(self).wf(),
            old(self).tried() < old(self).count(),
        ensures
            final(self).wf(),
            final(self).count() == old(self).count(),
            final(self).tried() == old(self).tried() + 1,
            final(self).last() == Some(error),
    {
        self.tried = self.tried + 1;
        self.last = Some(error);
    }

    /// The error to fail with once every source failed: the last one's.
    pub fn give_up(self) -> (e: Error)
        ensures
            match self.last() {
                Some(last) => e == last,
                None => error::is_detail(e, "no sources to fetch from"@),
            },
    {
        match self.last {
            Some(error) => error,
            None => no_sources(),
        }
    }
}

/// The error for an empty mirror set. [`Mirrors::new`] always keeps the primary, so it never comes up.
fn no_sources() -> (e: Error)
    ensures
        error::is_detail(e, "no sources to fetch from"@),
{
    Error::detail("no sources to fetch from")
}

/// What a set of mirrors answers, given what each source would: the first answer, or the last failure.
pub open spec fn answer<T>(outcomes: Seq<Result<T, Error>>) -> Option<Result<T, Error>>
    decreases outcomes.len(),
{
    if outcomes.len() == 0 {
        None
    } else if outcomes[0] is Ok || outcomes.len() == 1 {
        Some(outcomes[0])
    } else {
        answer(outcomes.skip(1))
    }
}

/// The first source that works answers, whatever comes after it.
pub proof fn law_first_working_source_answers<T>(outcomes: Seq<Result<T, Error>>, i: int)
    requires
        0 <= i < outcomes.len(),
        outcomes[i] is Ok,
        forall|j: int| 0 <= j < i ==> (#[trigger] outcomes[j]) is Err,
    ensures
        answer(outcomes) == Some(outcomes[i]),
    decreases i,
{
    if i > 0 {
        assert(outcomes[0] is Err);
        let rest = outcomes.skip(1);
        assert forall|j: int| 0 <= j < i - 1 implies (#[trigger] rest[j]) is Err by {
            assert(rest[j] == outcomes[j + 1]);
        }
        law_first_working_source_answers(rest, i - 1);
    }
}

/// Where every source fails, the operation fails with the last one's error.
pub proof fn law_all_dead_is_the_last_error<T>(outcomes: Seq<Result<T, Error>>)
    requires
        outcomes.len() > 0,
        forall|j: int| 0 <= j < outcomes.len() ==> (#[trigger] outcomes[j]) is Err,
    ensures
        answer(outcomes) == Some(outcomes.last()),
    decreases outcomes.len(),
{
    assert(outcomes[0] is Err);
    if outcomes.len() > 1 {
        let rest = outcomes.skip(1);
        assert forall|j: int| 0 <= j < rest.len() implies (#[trigger] rest[j]) is Err by {
            assert(rest[j] == outcomes[j + 1]);
        }
        law_all_dead_is_the_last_error(rest);
    }
}

/// An operation that tries the sources in order gives the answer of the set: the source it tries next answers
/// for the set where that source works, and once all of them failed, the error it gives up with is the
/// answer.
pub proof fn law_failover_gives_the_answer<T>(f: Failover, outcomes: Seq<Result<T, Error>>)
    requires
        f.wf(),
        f.count() == outcomes.len(),
        outcomes.len() > 0,
        forall|j: int| 0 <= j < f.tried() ==> (#[trigger] outcomes[j]) is Err,
        f.tried() > 0 ==> outcomes[f.tried() - 1] == Err::<T, Error>(f.last()->0),
    ensures
        f.tried() < f.count() && outcomes[f.tried() as int] is Ok ==> answer(outcomes) == Some(
            outcomes[f.tried() as int],
        ),
        f.tried() == f.count() ==> answer(outcomes) == Some(Err::<T, Error>(f.last()->0)),
{
    if f.tried() < f.count() {
        if outcomes[f.tried() as int] is Ok {
            law_first_working_source_answers(outcomes, f.tried() as int);
        }
    } else {
        law_all_dead_is_the_last_error(outcomes);
    }
}

} // verus!
