//! The world: a list of what a ray can hit, and the closest hit among its
//! members, found by a walk over the members that carries the parameter of the
//! closest hit so far, so that each member is asked for a hit no further than
//! that.
//!
//! What a member answers is arithmetic on doubles and comes from the caller,
//! as `probe`: asked for a member and the end of the window, it gives the
//! parameter of the hit, as the bits of a double, and a record of the hit, or
//! nothing.

use vstd::prelude::*;
use crate::double::at_most;
use crate::double::is_nan;
use crate::double::lemma_at_most_orders;

verus! {

/// The end of the window after these answers: the parameter of the last hit
/// among them, and `t_max` where there is none.
pub open spec fn limit_after<R>(t_max: u64, answers: Seq<Option<(u64, R)>>) -> u64
    decreases answers.len(),
{
    if answers.len() == 0 {
        t_max
    } else {
        match answers.last() {
            Some(hit) => hit.0,
            None => limit_after(t_max, answers.drop_last()),
        }
    }
}

/// The last hit among the answers.
pub open spec fn last_hit<R>(answers: Seq<Option<(u64, R)>>) -> Option<(u64, R)>
    decreases answers.len(),
{
    if answers.len() == 0 {
        None
    } else {
        match answers.last() {
            Some(hit) => Some(hit),
            None => last_hit(answers.drop_last()),
        }
    }
}

/// `answers` is what the members answered in turn, each asked with the window
/// that the answers before it left.
pub open spec fn walked<T, R, F: Fn(&T, u64) -> Option<(u64, R)>>(
    probe: F,
    objects: Seq<T>,
    t_max: u64,
    answers: Seq<Option<(u64, R)>>,
) -> bool {
    &&& answers.len() == objects.len()
    &&& forall|i: int|
        0 <= i < answers.len() ==> call_ensures(
            probe,
            (&objects[i], limit_after(t_max, answers.take(i))),
            #[trigger] answers[i],
        )
}

/// Every hit among the answers lies within the window it was asked with: its
/// parameter is a number and at most the end of that window.
pub open spec fn within_windows<R>(t_max: u64, answers: Seq<Option<(u64, R)>>) -> bool {
    forall|i: int|
        0 <= i < answers.len() ==> (#[trigger] answers[i] matches Some(hit) ==> at_most(
            hit.0,
            limit_after(t_max, answers.take(i)),
        ))
}

/// The members of the world, in the order in which they are asked. The view
/// is the sequence of the members.
#[derive(Clone)]
pub struct HittableList<T> {
    pub objects: Vec<T>,
}

impl<T> View for HittableList<T> {
    type V = Seq<T>;

    open spec fn view(&self) -> Seq<T> {
        self.objects@
    }
}

impl<T> HittableList<T> {
    /// A world without members.
    pub fn new() -> (list: Self)
        ensures
            list@ == Seq::<T>::empty(),
    {
        Self { objects: Vec::new() }
    }

    /// Takes every member out.
    pub fn clear(&mut self)
        ensures
            final(self)@ == Seq::<T>::empty(),
    {
        self.objects.clear()
    }

    /// Adds a member after the others.
    pub fn add(&mut self, object: T)
        ensures
            final(self)@ == old(self)@.push(object),
    {
        self.objects.push(object);
    }

    /// Asks the members in turn, each for a hit no further than the closest
    /// so far, and returns the last hit that was found.
    pub fn hit<R, F: Fn(&T, u64) -> Option<(u64, R)>>(&self, t_max: u64, probe: &F) -> (found:
        Option<(u64, R)>)
        requires
            forall|i: int, limit: u64|
                0 <= i < self@.len() ==> call_requires(probe, (&#[trigger] self@[i], limit)),
        ensures
            exists|answers: Seq<Option<(u64, R)>>| #[trigger]
                walked(*probe, self@, t_max, answers) && found == last_hit(answers),
    {
        let mut closest_so_far = t_max;
        let mut found: Option<(u64, R)> = None;
        let ghost mut answers: Seq<Option<(u64, R)>> = Seq::empty();
        let mut i: usize = 0;
        while i < self.objects.len()
            invariant
                i <= self.objects.len(),
                answers.len() == i,
                forall|i: int, limit: u64|
                    0 <= i < self@.len() ==> call_requires(probe, (&#[trigger] self@[i], limit)),
                walked(*probe, self@.take(i as int), t_max, answers),
                closest_so_far == limit_after(t_max, answers),
                found == last_hit(answers),
            decreases self.objects.len() - i,
        {
            let answer = probe(&self.objects[i], closest_so_far);
            proof {
                let before = answers;
                answers = answers.push(answer);
                assert(answers.drop_last() =~= before);
                assert forall|k: int| 0 <= k < answers.len() implies call_ensures(
                    probe,
                    (&self@.take(i + 1)[k], limit_after(t_max, answers.take(k))),
                    #[trigger] answers[k],
                ) by {
                    if k < before.len() {
                        assert(answers.take(k) =~= before.take(k));
                        assert(answers[k] == before[k]);
                        assert(self@.take(i as int)[k] == self@[k]);
                    } else {
                        assert(answers.take(k) =~= before);
                    }
                }
            }
            match answer {
                Some(hit) => {
                    closest_so_far = hit.0;
                    found = Some(hit);
                },
                None => {},
            }
            i = i + 1;
        }
        assert(self@.take(i as int) =~= self@);
        found
    }
}

/// A world without members has no hit, whatever the ray.
pub proof fn lemma_empty_world_has_no_hit<T, R, F: Fn(&T, u64) -> Option<(u64, R)>>(
    probe: F,
    t_max: u64,
    answers: Seq<Option<(u64, R)>>,
)
    requires
        walked(probe, Seq::<T>::empty(), t_max, answers),
    ensures
        last_hit(answers) is None,
{
}

/// Where every hit lies within the window it was asked with, the end of the
/// window never moves out: after more answers it is at most what it was.
pub proof fn lemma_window_narrows<R>(t_max: u64, answers: Seq<Option<(u64, R)>>, k: int)
    requires
        !is_nan(t_max),
        within_windows(t_max, answers),
        0 <= k <= answers.len(),
    ensures
        at_most(limit_after(t_max, answers), limit_after(t_max, answers.take(k))),
    decreases answers.len(),
{
    lemma_at_most_orders(limit_after(t_max, answers), limit_after(t_max, answers), t_max);
    if k == answers.len() {
        assert(answers.take(k) =~= answers);
        lemma_limit_is_number(t_max, answers);
    } else {
        let n = answers.len() - 1;
        let front = answers.drop_last();
        assert(front =~= answers.take(n));
        assert forall|i: int| 0 <= i < front.len() implies (#[trigger] front[i] matches Some(hit)
            ==> at_most(hit.0, limit_after(t_max, front.take(i)))) by {
            assert(front.take(i) =~= answers.take(i));
            assert(front[i] == answers[i]);
        }
        lemma_window_narrows(t_max, front, k);
        assert(front.take(k) =~= answers.take(k));
        match answers.last() {
            Some(hit) => {
                assert(answers[n] == Some(hit));
                lemma_at_most_orders(
                    hit.0,
                    limit_after(t_max, front),
                    limit_after(t_max, front.take(k)),
                );
            },
            None => {},
        }
    }
}

/// Where every hit lies within its window, the end of the window is a number.
proof fn lemma_limit_is_number<R>(t_max: u64, answers: Seq<Option<(u64, R)>>)
    requires
        !is_nan(t_max),
        within_windows(t_max, answers),
    ensures
        at_most(limit_after(t_max, answers), limit_after(t_max, answers)),
    decreases answers.len(),
{
    if answers.len() == 0 {
        lemma_at_most_orders(t_max, t_max, t_max);
    } else {
        let n = answers.len() - 1;
        let front = answers.drop_last();
        match answers.last() {
            Some(hit) => {
                assert(answers[n] == Some(hit));
                lemma_at_most_orders(hit.0, limit_after(t_max, answers.take(n)), hit.0);
                lemma_at_most_orders(hit.0, hit.0, hit.0);
            },
            None => {
                assert forall|i: int| 0 <= i < front.len() implies (#[trigger] front[i] matches Some(
                    hit,
                ) ==> at_most(hit.0, limit_after(t_max, front.take(i)))) by {
                    assert(front.take(i) =~= answers.take(i));
                    assert(front[i] == answers[i]);
                }
                lemma_limit_is_number(t_max, front);
            },
        }
    }
}

/// Where every hit lies within the window it was asked with, the hit that is
/// returned is the closest: no member answered with a lesser parameter.
pub proof fn lemma_last_hit_is_closest<R>(t_max: u64, answers: Seq<Option<(u64, R)>>, k: int)
    requires
        !is_nan(t_max),
        within_windows(t_max, answers),
        0 <= k < answers.len(),
        answers[k] is Some,
    ensures
        last_hit(answers) is Some,
        (last_hit(answers)->0).0 == limit_after(t_max, answers),
        at_most((last_hit(answers)->0).0, (answers[k]->0).0),
{
    lemma_hit_is_limit(t_max, answers, k);
    lemma_window_narrows(t_max, answers, k + 1);
    let upto = answers.take(k + 1);
    assert(upto.last() == answers[k]);
}

/// Where there is a hit among the answers, the last hit is where the window
/// ends.
proof fn lemma_hit_is_limit<R>(t_max: u64, answers: Seq<Option<(u64, R)>>, k: int)
    requires
        0 <= k < answers.len(),
        answers[k] is Some,
    ensures
        last_hit(answers) is Some,
        (last_hit(answers)->0).0 == limit_after(t_max, answers),
    decreases answers.len(),
{
    if answers.last() is None {
        assert(k < answers.len() - 1);
        lemma_hit_is_limit(t_max, answers.drop_last(), k);
    }
}

} // verus!
