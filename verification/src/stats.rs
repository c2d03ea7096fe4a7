//! The mode of a list of integers: a value that occurs at least as often
//! as every other.

use vstd::prelude::*;

verus! {

/// How many times `x` occurs in `s`.
pub open spec fn count_of(s: Seq<i32>, x: i32) -> nat
    decreases s.len(),
{
    if s.len() == 0 {
        0
    } else {
        (if s[0] == x {
            1nat
        } else {
            0nat
        }) + count_of(s.drop_first(), x)
    }
}

/// Appending one value raises its own count by one and no other.
pub proof fn lemma_count_push(s: Seq<i32>, y: i32, x: i32)
    ensures
        count_of(s.push(y), x) == count_of(s, x) + (if y == x {
            1nat
        } else {
            0nat
        }),
    decreases s.len(),
{
    if s.len() == 0 {
        assert(s.push(y).drop_first() =~= s);
    } else {
        assert(s.push(y).drop_first() =~= s.drop_first().push(y));
        lemma_count_push(s.drop_first(), y, x);
    }
}

/// How many times `x` occurs in `values`.
fn count_in(values: &Vec<i32>, x: i32) -> (n: usize)
    ensures
        n == count_of(values@, x),
{
    let mut n: usize = 0;
    let mut i: usize = 0;
    proof {
        assert(values@.take(0) =~= Seq::<i32>::empty());
    }
    while i < values.len()
        invariant
            i <= values@.len(),
            n <= i,
            n == count_of(values@.take(i as int), x),
        decreases values@.len() - i,
    {
        proof {
            assert(values@.take(i + 1) =~= values@.take(i as int).push(values@[i as int]));
            lemma_count_push(values@.take(i as int), values@[i as int], x);
        }
        if values[i] == x {
            n = n + 1;
        }
        i = i + 1;
    }
    proof {
        assert(values@.take(values@.len() as int) =~= values@);
    }
    n
}

/// A value of `values` that occurs at least as often as every other, or
/// nothing when the list is empty.  Which of several equally frequent
/// values comes back is left open.
pub fn mode(values: &Vec<i32>) -> (r: Option<i32>)
    ensures
        (r is None <==> values@.len() == 0),
        (r matches Some(m) ==> values@.contains(m) && forall|x: i32|
            values@.contains(x) ==> count_of(values@, x) <= count_of(values@, m)),
{
    if values.len() == 0 {
        return None;
    }
    let mut best = values[0];
    let mut best_count = count_in(values, best);
    let mut i: usize = 1;
    while i < values.len()
        invariant
            1 <= i <= values@.len(),
            values@.contains(best),
            best_count == count_of(values@, best),
            forall|t: int| 0 <= t < i ==> count_of(values@, #[trigger] values@[t]) <= best_count,
        decreases values@.len() - i,
    {
        let candidate = values[i];
        let c = count_in(values, candidate);
        if c > best_count {
            best = candidate;
            best_count = c;
        }
        i = i + 1;
    }
    proof {
        assert forall|x: i32| values@.contains(x) implies count_of(values@, x) <= count_of(
            values@,
            best,
        ) by {
            let t = choose|t: int| 0 <= t < values@.len() && values@[t] == x;
            assert(count_of(values@, values@[t]) <= best_count);
        }
    }
    Some(best)
}

} // verus!
