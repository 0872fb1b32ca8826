//! The fallible-sequence abstraction: items are produced one at a time, each
//! retrieval may fail, consumption is destructive and not restartable.

use vstd::prelude::*;

verus! {

/// Holds when every result in the first `k` positions of `s` is a success.
pub open spec fn ok_prefix<T, E>(s: Seq<Result<T, E>>, k: int) -> bool {
    forall|i: int| 0 <= i < k ==> s[i] is Ok
}

/// Position of the first failed retrieval in `s`, or `s.len()` when every
/// retrieval succeeds.
pub open spec fn first_err_index<T, E>(s: Seq<Result<T, E>>) -> int
    decreases s.len(),
{
    if s.len() == 0 {
        0
    } else if s[0] is Err {
        0
    } else {
        1 + first_err_index(s.drop_first())
    }
}

/// Holds when no retrieval in `s` fails.
pub open spec fn all_ok<T, E>(s: Seq<Result<T, E>>) -> bool {
    first_err_index(s) == s.len()
}

/// `first_err_index` is a position of `s` (or its length), everything before
/// it succeeds, and the result at it (when inside `s`) is a failure.
pub proof fn lemma_first_err_index_bounds<T, E>(s: Seq<Result<T, E>>)
    ensures
        0 <= first_err_index(s) <= s.len(),
        ok_prefix(s, first_err_index(s)),
        first_err_index(s) < s.len() ==> s[first_err_index(s)] is Err,
    decreases s.len(),
{
    if s.len() > 0 && s[0] is Ok {
        lemma_first_err_index_bounds(s.drop_first());
        assert forall|i: int| 0 <= i < first_err_index(s) implies s[i] is Ok by {
            if i > 0 {
                assert(s.drop_first()[i - 1] is Ok);
            }
        }
    }
}

/// A scan that saw `k` successes and then either the end of `s` or a failure
/// has found exactly `first_err_index(s)`.
pub proof fn lemma_first_err_index_is<T, E>(s: Seq<Result<T, E>>, k: int)
    requires
        0 <= k <= s.len(),
        ok_prefix(s, k),
        k < s.len() ==> s[k] is Err,
    ensures
        first_err_index(s) == k,
    decreases s.len(),
{
    if s.len() > 0 && k > 0 {
        assert(s[0] is Ok);
        assert(ok_prefix(s.drop_first(), k - 1)) by {
            assert forall|i: int| 0 <= i < k - 1 implies s.drop_first()[i] is Ok by {
                assert(s[i + 1] is Ok);
            }
        }
        assert(k - 1 < s.drop_first().len() ==> s.drop_first()[k - 1] is Err);
        lemma_first_err_index_is(s.drop_first(), k - 1);
    }
}

/// Consuming the front of what is left after `k` retrievals leaves what is
/// left after `k + 1` retrievals.
pub proof fn lemma_skip_step<A>(s: Seq<A>, k: int)
    requires
        0 <= k < s.len(),
    ensures
        s.skip(k).drop_first() == s.skip(k + 1),
        s.skip(k)[0] == s[k],
        s.skip(k).len() == s.len() - k,
{
    assert(s.skip(k).drop_first() =~= s.skip(k + 1));
}

/// Produces results one at a time; `None` signals exhaustion. Retrieval is
/// destructive: an item handed out cannot be replayed.
pub trait FallibleSequence<T, E>: Sized {
    /// The results not yet retrieved, in retrieval order.
    spec fn remaining(&self) -> Seq<Result<T, E>>;

    /// Retrieve the next result, or `None` when the sequence is exhausted.
    fn next(&mut self) -> (r: Option<Result<T, E>>)
        ensures
            old(self).remaining().len() == 0 ==> r is None && final(self).remaining()
                == old(self).remaining(),
            old(self).remaining().len() > 0 ==> r == Some(old(self).remaining()[0])
                && final(self).remaining() == old(self).remaining().drop_first(),
    ;
}

/// An in-memory fallible sequence over a vector of prepared results.
pub struct VecSequence<T, E> {
    items: std::collections::VecDeque<Result<T, E>>,
}

impl<T, E> VecSequence<T, E> {
    /// Wrap prepared results as a sequence that hands them out in order.
    pub fn new(items: Vec<Result<T, E>>) -> (s: Self)
        ensures
            s.remaining() == items@,
    {
        let ghost model = items@;
        let mut rest = items;
        let mut queue: std::collections::VecDeque<Result<T, E>> =
            std::collections::VecDeque::new();
        loop
            invariant
                model == items@,
                rest@ + queue@ == model,
            decreases rest@.len(),
        {
            match rest.pop() {
                None => {
                    proof {
                        assert(queue@ =~= model);
                    }
                    return VecSequence { items: queue };
                },
                Some(x) => {
                    let ghost before_rest = rest@.push(x);
                    let ghost before_queue = queue@;
                    queue.push_front(x);
                    proof {
                        assert(rest@ + queue@ =~= before_rest + before_queue);
                    }
                },
            }
        }
    }

    /// How many results have not been retrieved yet.
    pub fn len(&self) -> (n: usize)
        ensures
            n == self.remaining().len(),
    {
        self.items.len()
    }
}

impl<T, E> FallibleSequence<T, E> for VecSequence<T, E> {
    closed spec fn remaining(&self) -> Seq<Result<T, E>> {
        self.items@
    }

    fn next(&mut self) -> (r: Option<Result<T, E>>) {
        let front = self.items.pop_front();
        proof {
            if old(self).remaining().len() > 0 {
                assert(old(self).remaining().drop_first() =~= self.items@);
            }
        }
        front
    }
}

/// Count the results of a sequence, stopping at the first failed retrieval.
/// On success the whole sequence has been consumed and the count is its
/// length; on failure the first error is surfaced unchanged.
pub fn try_count<T, E, S: FallibleSequence<T, E>>(seq: &mut S) -> (r: Result<usize, E>)
    requires
        old(seq).remaining().len() <= usize::MAX,
    ensures
        all_ok(old(seq).remaining()) ==> r == Ok::<usize, E>(old(seq).remaining().len() as usize)
            && final(seq).remaining().len() == 0,
        !all_ok(old(seq).remaining()) ==> {
            let orig = old(seq).remaining();
            let fe = first_err_index(orig);
            r == Err::<usize, E>(orig[fe]->Err_0) && final(seq).remaining() == orig.skip(fe + 1)
        },
{
    let ghost orig = old(seq).remaining();
    proof {
        assert(orig.skip(0) =~= orig);
    }
    let mut count: usize = 0;
    loop
        invariant
            orig == old(seq).remaining(),
            count <= orig.len() <= usize::MAX,
            ok_prefix(orig, count as int),
            seq.remaining() == orig.skip(count as int),
        decreases orig.len() - count,
    {
        match seq.next() {
            None => {
                proof {
                    lemma_first_err_index_is(orig, count as int);
                }
                return Ok(count);
            },
            Some(res) => {
                proof {
                    lemma_skip_step(orig, count as int);
                }
                match res {
                    Ok(_) => {
                        count = count + 1;
                    },
                    Err(e) => {
                        proof {
                            lemma_first_err_index_is(orig, count as int);
                        }
                        return Err(e);
                    },
                }
            },
        }
    }
}

/// Advance a sequence by exactly `n` retrieved-and-discarded results, then
/// hand out the one after them: `Ok(None)` when the sequence exhausts during
/// the discards or immediately after, the first error encountered at
/// whatever position it occurs, and otherwise the result at position `n`.
pub fn try_nth<T, E, S: FallibleSequence<T, E>>(seq: &mut S, n: usize) -> (r: Result<
    Option<T>,
    E,
>)
    ensures
        ({
            let orig = old(seq).remaining();
            let fe = first_err_index(orig);
            &&& (fe < orig.len() && fe <= n ==> r == Err::<Option<T>, E>(orig[fe]->Err_0)
                && final(seq).remaining() == orig.skip(fe + 1))
            &&& (!(fe < orig.len() && fe <= n) && orig.len() <= n ==> r == Ok::<Option<T>, E>(None)
                && final(seq).remaining().len() == 0)
            &&& (!(fe < orig.len() && fe <= n) && orig.len() > n ==> r == Ok::<Option<T>, E>(
                Some(orig[n as int]->Ok_0),
            ) && final(seq).remaining() == orig.skip(n + 1))
        }),
{
    let ghost orig = old(seq).remaining();
    proof {
        assert(orig.skip(0) =~= orig);
    }
    let mut j: usize = 0;
    while j < n
        invariant
            orig == old(seq).remaining(),
            j <= n,
            j <= orig.len(),
            ok_prefix(orig, j as int),
            seq.remaining() == orig.skip(j as int),
        decreases n - j,
    {
        match seq.next() {
            None => {
                proof {
                    lemma_first_err_index_is(orig, j as int);
                }
                return Ok(None);
            },
            Some(res) => {
                proof {
                    lemma_skip_step(orig, j as int);
                }
                match res {
                    Ok(_) => {
                        j = j + 1;
                    },
                    Err(e) => {
                        proof {
                            lemma_first_err_index_is(orig, j as int);
                        }
                        return Err(e);
                    },
                }
            },
        }
    }
    match seq.next() {
        None => {
            proof {
                lemma_first_err_index_is(orig, n as int);
            }
            Ok(None)
        },
        Some(res) => {
            proof {
                lemma_skip_step(orig, n as int);
            }
            match res {
                Ok(item) => {
                    proof {
                        lemma_first_err_index_bounds(orig);
                        assert(ok_prefix(orig, n + 1));
                        if first_err_index(orig) <= n && first_err_index(orig) < orig.len() {
                            assert(orig[first_err_index(orig)] is Err);
                            assert(orig[first_err_index(orig)] is Ok);
                        }
                    }
                    Ok(Some(item))
                },
                Err(e) => {
                    proof {
                        lemma_first_err_index_is(orig, n as int);
                    }
                    Err(e)
                },
            }
        },
    }
}

} // verus!
