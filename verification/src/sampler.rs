//! One-pass uniform sampling of a single element from a fallible sequence:
//! the classic reservoir-of-size-one traversal, its restatement over explicit
//! accumulators, and the skip-ahead variant that draws a skip distance
//! analytically instead of testing every item.

use vstd::prelude::*;

use crate::random::RandomSource;
use crate::sequence::{
    all_ok, first_err_index, lemma_first_err_index_bounds, lemma_first_err_index_is,
    lemma_skip_step, ok_prefix, FallibleSequence,
};

verus! {

/// The success-side guarantee every sampler gives for a stream `orig` with no
/// failed retrieval: an empty stream yields no item, a nonempty one yields one
/// of its items, and a one-item stream yields exactly that item regardless of
/// the random draws.
pub open spec fn picks_one_of<T, E>(orig: Seq<Result<T, E>>, r: Result<Option<T>, E>) -> bool {
    &&& (orig.len() == 0 ==> r == Ok::<Option<T>, E>(None))
    &&& (orig.len() > 0 ==> exists|i: int|
        0 <= i < orig.len() && r == Ok::<Option<T>, E>(Some(orig[i]->Ok_0)))
    &&& (orig.len() == 1 ==> r == Ok::<Option<T>, E>(Some(orig[0]->Ok_0)))
}

/// The failure-side guarantee: the first failed retrieval of `orig` is
/// surfaced unchanged, and the stream stands exactly past that failure, with
/// nothing retrieved after it.
pub open spec fn propagates_first_err<A, T, E>(
    orig: Seq<Result<T, E>>,
    r: Result<A, E>,
    rem: Seq<Result<T, E>>,
) -> bool {
    &&& r == Err::<A, E>(orig[first_err_index(orig)]->Err_0)
    &&& rem == orig.skip(first_err_index(orig) + 1)
}

/// Examine every item in order; the item at 1-based position `k` replaces the
/// retained candidate when a uniform draw over `k` outcomes lands on zero.
/// On success the whole sequence has been consumed; the first retrieval
/// failure aborts the run and is surfaced unchanged.
pub fn try_iterator_choose_one_pass<T, E, S: FallibleSequence<T, E>, R: RandomSource>(
    seq: &mut S,
    rng: &mut R,
) -> (r: Result<Option<T>, E>)
    requires
        old(seq).remaining().len() <= usize::MAX,
    ensures
        all_ok(old(seq).remaining()) ==> final(seq).remaining().len() == 0 && picks_one_of(
            old(seq).remaining(),
            r,
        ),
        !all_ok(old(seq).remaining()) ==> propagates_first_err(
            old(seq).remaining(),
            r,
            final(seq).remaining(),
        ),
        old(seq).remaining().len() == 0 ==> *final(rng) == *old(rng),
{
    let ghost orig = old(seq).remaining();
    proof {
        assert(orig.skip(0) =~= orig);
    }
    let mut chosen: Option<T> = None;
    let mut count: usize = 0;
    loop
        invariant
            orig == old(seq).remaining(),
            orig.len() == 0 ==> *rng == *old(rng),
            orig.len() <= usize::MAX,
            count <= orig.len(),
            ok_prefix(orig, count as int),
            seq.remaining() == orig.skip(count as int),
            count == 0 ==> chosen is None,
            count >= 1 ==> chosen is Some,
            chosen is Some ==> exists|i: int| 0 <= i < count && chosen == Some(orig[i]->Ok_0),
            count == 1 ==> chosen == Some(orig[0]->Ok_0),
        decreases orig.len() - count,
    {
        match seq.next() {
            None => {
                proof {
                    lemma_first_err_index_is(orig, count as int);
                }
                return Ok(chosen);
            },
            Some(res) => {
                proof {
                    lemma_skip_step(orig, count as int);
                }
                match res {
                    Ok(item) => {
                        let pick = rng.draw_uniform_range(0, count + 1);
                        if pick == 0 {
                            chosen = Some(item);
                        }
                        count = count + 1;
                    },
                    Err(e) => {
                        proof {
                            lemma_first_err_index_is(orig, count as int);
                        }
                        return Err(e);
                    },
                }
            },
        }
    }
}

/// The traversal of `try_iterator_choose_one_pass` restated over explicit
/// accumulators, one item consumed per step: `index1` is the 1-based position
/// of the next item to consider, `random_item` the candidate retained so far.
/// The accumulator form bounds the stack under arbitrarily deep traversal
/// without leaning on tail-call elimination. On success the result is either
/// one of the stream's items or the candidate handed in; started at position
/// one, a nonempty error-free stream always yields one of its own items.
pub fn try_iterator_choose_recur<T, E, S: FallibleSequence<T, E>, R: RandomSource>(
    seq: &mut S,
    rng: &mut R,
    index1: usize,
    random_item: Option<T>,
) -> (r: Result<Option<T>, E>)
    requires
        index1 >= 1,
        old(seq).remaining().len() + index1 <= usize::MAX,
    ensures
        all_ok(old(seq).remaining()) ==> {
            let orig = old(seq).remaining();
            &&& final(seq).remaining().len() == 0
            &&& r is Ok
            &&& (orig.len() == 0 ==> r == Ok::<Option<T>, E>(random_item))
            &&& (r->Ok_0 == random_item || exists|i: int|
                0 <= i < orig.len() && r == Ok::<Option<T>, E>(Some(orig[i]->Ok_0)))
            &&& (index1 == 1 && orig.len() > 0 ==> exists|i: int|
                0 <= i < orig.len() && r == Ok::<Option<T>, E>(Some(orig[i]->Ok_0)))
            &&& (index1 == 1 && orig.len() == 1 ==> r == Ok::<Option<T>, E>(
                Some(orig[0]->Ok_0),
            ))
        },
        !all_ok(old(seq).remaining()) ==> propagates_first_err(
            old(seq).remaining(),
            r,
            final(seq).remaining(),
        ),
        old(seq).remaining().len() == 0 ==> *final(rng) == *old(rng),
{
    let ghost orig = old(seq).remaining();
    proof {
        assert(orig.skip(0) =~= orig);
    }
    let mut chosen = random_item;
    let mut pos: usize = index1;
    let ghost count: int = 0;
    loop
        invariant
            orig == old(seq).remaining(),
            orig.len() == 0 ==> *rng == *old(rng),
            orig.len() + index1 <= usize::MAX,
            index1 >= 1,
            pos == index1 + count,
            0 <= count <= orig.len(),
            ok_prefix(orig, count),
            seq.remaining() == orig.skip(count),
            count == 0 ==> chosen == random_item,
            chosen == random_item || exists|i: int|
                0 <= i < count && chosen == Some(orig[i]->Ok_0),
            index1 == 1 && count >= 1 ==> chosen is Some && exists|i: int|
                0 <= i < count && chosen == Some(orig[i]->Ok_0),
            index1 == 1 && count == 1 ==> chosen == Some(orig[0]->Ok_0),
        decreases orig.len() - count,
    {
        match seq.next() {
            None => {
                proof {
                    lemma_first_err_index_is(orig, count);
                }
                return Ok(chosen);
            },
            Some(res) => {
                proof {
                    lemma_skip_step(orig, count);
                }
                match res {
                    Ok(item) => {
                        if rng.draw_uniform_range(0, pos) == 0 {
                            chosen = Some(item);
                        }
                        pos = pos + 1;
                        proof {
                            count = count + 1;
                        }
                    },
                    Err(e) => {
                        proof {
                            lemma_first_err_index_is(orig, count);
                        }
                        return Err(e);
                    },
                }
            },
        }
    }
}

/// Law: on an empty or one-item error-free stream the random draws cannot
/// matter, so any two sampling runs that give the shared success guarantee
/// agree on the result.
pub proof fn lemma_samplers_agree_on_small<T, E>(
    orig: Seq<Result<T, E>>,
    r1: Result<Option<T>, E>,
    r2: Result<Option<T>, E>,
)
    requires
        orig.len() <= 1,
        picks_one_of(orig, r1),
        picks_one_of(orig, r2),
    ensures
        r1 == r2,
{
}

/// The one-pass sampler, also reporting the 1-based positions at which the
/// retained candidate was replaced: the first considered item always starts
/// the trail, later positions strictly increase, and the item returned is the
/// one accepted at the last position of the trail.
pub fn try_iterator_choose_trail<T, E, S: FallibleSequence<T, E>, R: RandomSource>(
    seq: &mut S,
    rng: &mut R,
) -> (r: Result<(Option<T>, Vec<usize>), E>)
    requires
        old(seq).remaining().len() <= usize::MAX,
    ensures
        all_ok(old(seq).remaining()) ==> {
            let orig = old(seq).remaining();
            let trail = r->Ok_0.1@;
            &&& final(seq).remaining().len() == 0
            &&& r is Ok
            &&& picks_one_of(orig, Ok(r->Ok_0.0))
            &&& (orig.len() == 0 ==> trail.len() == 0)
            &&& (orig.len() > 0 ==> trail.len() >= 1 && trail[0] == 1)
            &&& (forall|i: int| 0 <= i < trail.len() ==> 1 <= #[trigger] trail[i] <= orig.len())
            &&& (forall|i: int, j: int| 0 <= i < j < trail.len() ==> trail[i] < trail[j])
            &&& (trail.len() >= 1 ==> r->Ok_0.0 == Some(orig[trail.last() - 1]->Ok_0))
        },
        !all_ok(old(seq).remaining()) ==> propagates_first_err(
            old(seq).remaining(),
            r,
            final(seq).remaining(),
        ),
        old(seq).remaining().len() == 0 ==> *final(rng) == *old(rng),
{
    let ghost orig = old(seq).remaining();
    proof {
        assert(orig.skip(0) =~= orig);
    }
    let mut chosen: Option<T> = None;
    let mut trail: Vec<usize> = Vec::new();
    let mut count: usize = 0;
    loop
        invariant
            orig == old(seq).remaining(),
            orig.len() == 0 ==> *rng == *old(rng),
            orig.len() <= usize::MAX,
            count <= orig.len(),
            ok_prefix(orig, count as int),
            seq.remaining() == orig.skip(count as int),
            count == 0 ==> chosen is None && trail@.len() == 0,
            count >= 1 ==> chosen is Some && trail@.len() >= 1 && trail@[0] == 1,
            chosen is Some ==> exists|i: int| 0 <= i < count && chosen == Some(orig[i]->Ok_0),
            count == 1 ==> chosen == Some(orig[0]->Ok_0),
            forall|i: int| 0 <= i < trail@.len() ==> 1 <= #[trigger] trail@[i] <= count,
            forall|i: int, j: int| 0 <= i < j < trail@.len() ==> trail@[i] < trail@[j],
            trail@.len() >= 1 ==> chosen == Some(orig[trail@.last() - 1]->Ok_0),
        decreases orig.len() - count,
    {
        match seq.next() {
            None => {
                proof {
                    lemma_first_err_index_is(orig, count as int);
                }
                return Ok((chosen, trail));
            },
            Some(res) => {
                proof {
                    lemma_skip_step(orig, count as int);
                }
                match res {
                    Ok(item) => {
                        let pick = rng.draw_uniform_range(0, count + 1);
                        if pick == 0 {
                            chosen = Some(item);
                            trail.push(count + 1);
                        }
                        count = count + 1;
                    },
                    Err(e) => {
                        proof {
                            lemma_first_err_index_is(orig, count as int);
                        }
                        return Err(e);
                    },
                }
            },
        }
    }
}

/// State of the skip-ahead traversal: `index1` is the 1-based position of the
/// most recently considered item, `offset` the drawn distance to the next one.
pub struct SkipState {
    pub index1: usize,
    pub offset: usize,
}

impl SkipState {
    /// Both fields stay at least one: the traversal always moves forward.
    pub open spec fn wf(&self) -> bool {
        self.index1 >= 1 && self.offset >= 1
    }

    /// The starting state: consider the very first item.
    pub fn new() -> (s: Self)
        ensures
            s.wf(),
            s.index1 == 1,
            s.offset == 1,
    {
        SkipState { index1: 1, offset: 1 }
    }

    /// Draw the next skip distance and move the considered position past it:
    /// the position advances by exactly the drawn distance. The distance is at
    /// least one, so the position strictly increases until it reaches the
    /// machine's limit, where it pins.
    pub fn step<R: RandomSource>(&mut self, rng: &mut R)
        requires
            old(self).wf(),
        ensures
            final(self).wf(),
            final(self).offset >= 1,
            final(self).index1 == (if old(self).index1 <= usize::MAX - final(self).offset {
                old(self).index1 + final(self).offset
            } else {
                usize::MAX as int
            }),
            final(self).index1 >= old(self).index1,
            old(self).index1 < usize::MAX ==> final(self).index1 > old(self).index1,
    {
        let off = rng.skip_distance(self.index1);
        self.offset = off;
        self.index1 = if self.index1 <= usize::MAX - off {
            self.index1 + off
        } else {
            usize::MAX
        };
    }
}

/// The skip-ahead sampler: advance the sequence by `offset - 1` discarded
/// items, unconditionally retain the item landed on, then draw the next skip
/// distance analytically. Every item is still retrieved exactly once; only
/// the landed-on items cost a random draw. The guarantees are those of
/// `try_iterator_choose_one_pass`, with no bound needed on the stream.
pub fn try_iterator_choose_skip<T, E, S: FallibleSequence<T, E>, R: RandomSource>(
    seq: &mut S,
    rng: &mut R,
) -> (r: Result<Option<T>, E>)
    ensures
        all_ok(old(seq).remaining()) ==> final(seq).remaining().len() == 0 && picks_one_of(
            old(seq).remaining(),
            r,
        ),
        !all_ok(old(seq).remaining()) ==> propagates_first_err(
            old(seq).remaining(),
            r,
            final(seq).remaining(),
        ),
        old(seq).remaining().len() == 0 ==> *final(rng) == *old(rng),
{
    let ghost orig = old(seq).remaining();
    proof {
        assert(orig.skip(0) =~= orig);
    }
    let mut state = SkipState::new();
    let mut random_item: Option<T> = None;
    let ghost consumed: int = 0;
    loop
        invariant
            orig == old(seq).remaining(),
            orig.len() == 0 ==> *rng == *old(rng),
            state.wf(),
            0 <= consumed <= orig.len(),
            ok_prefix(orig, consumed),
            seq.remaining() == orig.skip(consumed),
            consumed == 0 ==> random_item is None && state.offset == 1,
            consumed >= 1 ==> random_item is Some,
            random_item is Some ==> exists|i: int|
                0 <= i < consumed && random_item == Some(orig[i]->Ok_0),
            orig.len() == 1 && consumed >= 1 ==> random_item == Some(orig[0]->Ok_0),
        decreases orig.len() - consumed,
    {
        let ghost cur = seq.remaining();
        let ghost m = (state.offset - 1) as int;
        let step_result = crate::sequence::try_nth(seq, state.offset - 1);
        proof {
            lemma_first_err_index_bounds(cur);
        }
        match step_result {
            Ok(Some(item)) => {
                proof {
                    let fe2 = first_err_index(cur);
                    assert(fe2 > m);
                    assert(cur[m] == orig[consumed + m]);
                    assert forall|i: int| 0 <= i < consumed + m + 1 implies orig[i] is Ok by {
                        if i >= consumed {
                            assert(cur[i - consumed] is Ok);
                        }
                    }
                    assert(cur.skip(m + 1) =~= orig.skip(consumed + m + 1));
                }
                random_item = Some(item);
                proof {
                    consumed = consumed + m + 1;
                }
                state.step(rng);
            },
            Ok(None) => {
                proof {
                    let fe2 = first_err_index(cur);
                    assert(fe2 == cur.len());
                    assert forall|i: int| 0 <= i < orig.len() implies orig[i] is Ok by {
                        if i >= consumed {
                            assert(cur[i - consumed] is Ok);
                        }
                    }
                    lemma_first_err_index_is(orig, orig.len() as int);
                }
                return Ok(random_item);
            },
            Err(e) => {
                proof {
                    let fe2 = first_err_index(cur);
                    assert(cur[fe2] == orig[consumed + fe2]);
                    assert forall|i: int| 0 <= i < consumed + fe2 implies orig[i] is Ok by {
                        if i >= consumed {
                            assert(cur[i - consumed] is Ok);
                        }
                    }
                    lemma_first_err_index_is(orig, consumed + fe2);
                    assert(cur.skip(fe2 + 1) =~= orig.skip(consumed + fe2 + 1));
                }
                return Err(e);
            },
        }
    }
}

} // verus!
