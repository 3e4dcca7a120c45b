use vstd::prelude::*;

verus! {

/// The sum of the numbers of `s`.
pub open spec fn total(s: Seq<int>) -> int
    decreases s.len(),
{
    if s.len() == 0 {
        0
    } else {
        total(s.drop_last()) + s.last()
    }
}

/// The sequences of `parts`, one after the other.
pub open spec fn joined<A>(parts: Seq<Seq<A>>) -> Seq<A>
    decreases parts.len(),
{
    if parts.len() == 0 {
        Seq::empty()
    } else {
        joined(parts.drop_last()) + parts.last()
    }
}

/// The largest number of `s`, and `floor` where none is larger.
pub open spec fn highest(s: Seq<int>, floor: int) -> int
    decreases s.len(),
{
    if s.len() == 0 {
        floor
    } else {
        let rest = highest(s.drop_last(), floor);
        if s.last() > rest {
            s.last()
        } else {
            rest
        }
    }
}

/// The smallest number of `s`, and `ceiling` where none is smaller.
pub open spec fn lowest(s: Seq<int>, ceiling: int) -> int
    decreases s.len(),
{
    if s.len() == 0 {
        ceiling
    } else {
        let rest = lowest(s.drop_last(), ceiling);
        if s.last() < rest {
            s.last()
        } else {
            rest
        }
    }
}

/// The numbers of `v` as mathematical integers.
pub open spec fn indices(v: Seq<usize>) -> Seq<int> {
    Seq::new(v.len(), |k: int| v[k] as int)
}

/// Taking one more number adds it to the sum.
pub proof fn total_step(s: Seq<int>, i: int)
    requires
        0 <= i < s.len(),
    ensures
        total(s.take(i + 1)) == total(s.take(i)) + s[i],
        total(s.take(0)) == 0,
{
    assert(s.take(i + 1).drop_last() =~= s.take(i));
}

/// The sum of the whole prefix is the sum.
pub proof fn total_all(s: Seq<int>)
    ensures
        total(s.take(s.len() as int)) == total(s),
        total(s.take(0)) == 0,
{
    assert(s.take(s.len() as int) =~= s);
}

/// A sum of numbers that are not negative grows with each number taken.
pub proof fn total_grows(s: Seq<int>, i: int, j: int)
    requires
        forall|k: int| 0 <= k < s.len() ==> s[k] >= 0,
        0 <= i <= j <= s.len(),
    ensures
        0 <= total(s.take(i)) <= total(s.take(j)),
    decreases j,
{
    if j == 0 {
    } else if i == j {
        total_grows(s, i - 1, j - 1);
        total_step(s, j - 1);
    } else {
        total_grows(s, i, j - 1);
        total_step(s, j - 1);
    }
}

/// One number of a sum of numbers that are not negative is at most the sum.
pub proof fn total_covers(s: Seq<int>, k: int)
    requires
        forall|j: int| 0 <= j < s.len() ==> s[j] >= 0,
        0 <= k < s.len(),
    ensures
        s[k] <= total(s),
        total(s.take(k)) + s[k] <= total(s),
{
    total_step(s, k);
    total_grows(s, k + 1, s.len() as int);
    total_grows(s, 0, k);
    total_all(s);
}

/// Taking one more part appends it.
pub proof fn joined_step<A>(parts: Seq<Seq<A>>, i: int)
    requires
        0 <= i < parts.len(),
    ensures
        joined(parts.take(i + 1)) == joined(parts.take(i)) + parts[i],
        joined(parts.take(0)) == Seq::<A>::empty(),
{
    assert(parts.take(i + 1).drop_last() =~= parts.take(i));
}

/// Joining the whole prefix joins all.
pub proof fn joined_all<A>(parts: Seq<Seq<A>>)
    ensures
        joined(parts.take(parts.len() as int)) == joined(parts),
        joined(parts.take(0)) == Seq::<A>::empty(),
{
    assert(parts.take(parts.len() as int) =~= parts);
}

/// Where in the parts an item of what was joined comes from.
pub proof fn joined_pick<A>(parts: Seq<Seq<A>>, k: int) -> (at: (int, int))
    requires
        0 <= k < joined(parts).len(),
    ensures
        0 <= at.0 < parts.len(),
        0 <= at.1 < parts[at.0].len(),
        joined(parts)[k] == parts[at.0][at.1],
    decreases parts.len(),
{
    let front = joined(parts.drop_last());
    if k < front.len() {
        let at = joined_pick(parts.drop_last(), k);
        assert(parts.drop_last()[at.0] == parts[at.0]);
        at
    } else {
        (parts.len() - 1, k - front.len())
    }
}

/// Where in what was joined an item of a part comes to stand.
pub proof fn joined_place<A>(parts: Seq<Seq<A>>, i: int, j: int) -> (k: int)
    requires
        0 <= i < parts.len(),
        0 <= j < parts[i].len(),
    ensures
        0 <= k < joined(parts).len(),
        joined(parts)[k] == parts[i][j],
    decreases parts.len(),
{
    let front = joined(parts.drop_last());
    if i == parts.len() - 1 {
        front.len() + j
    } else {
        assert(parts.drop_last()[i] == parts[i]);
        joined_place(parts.drop_last(), i, j)
    }
}

/// The length of what was joined is the sum of the parts' lengths.
pub proof fn joined_len<A>(parts: Seq<Seq<A>>)
    ensures
        joined(parts).len() == total(Seq::new(parts.len(), |i: int| parts[i].len() as int)),
    decreases parts.len(),
{
    let lens = Seq::new(parts.len(), |i: int| parts[i].len() as int);
    if parts.len() > 0 {
        joined_len(parts.drop_last());
        assert(lens.drop_last() =~= Seq::new(
            parts.drop_last().len(),
            |i: int| parts.drop_last()[i].len() as int,
        ));
    }
}

/// Taking one more number may raise the largest.
pub proof fn highest_step(s: Seq<int>, floor: int, i: int)
    requires
        0 <= i < s.len(),
    ensures
        highest(s.take(i + 1), floor) == if s[i] > highest(s.take(i), floor) {
            s[i]
        } else {
            highest(s.take(i), floor)
        },
        highest(s.take(0), floor) == floor,
{
    assert(s.take(i + 1).drop_last() =~= s.take(i));
}

/// The largest of the whole prefix is the largest.
pub proof fn highest_all(s: Seq<int>, floor: int)
    ensures
        highest(s.take(s.len() as int), floor) == highest(s, floor),
        highest(s.take(0), floor) == floor,
{
    assert(s.take(s.len() as int) =~= s);
}

/// The largest is at least every number and the floor, and is one of them.
pub proof fn highest_bounds(s: Seq<int>, floor: int)
    ensures
        highest(s, floor) >= floor,
        forall|k: int| 0 <= k < s.len() ==> s[k] <= highest(s, floor),
        highest(s, floor) == floor || exists|k: int| 0 <= k < s.len() && s[k] == highest(s, floor),
    decreases s.len(),
{
    if s.len() > 0 {
        highest_bounds(s.drop_last(), floor);
        let rest = highest(s.drop_last(), floor);
        assert forall|k: int| 0 <= k < s.len() implies s[k] <= highest(s, floor) by {
            if k < s.len() - 1 {
                assert(s.drop_last()[k] == s[k]);
            }
        }
        if highest(s, floor) != floor {
            if s.last() > rest {
                assert(s[s.len() - 1] == highest(s, floor));
            } else {
                let k = choose|k: int| 0 <= k < s.drop_last().len() && s.drop_last()[k] == rest;
                assert(s[k] == highest(s, floor));
            }
        }
    }
}

/// The smallest is at most every number and the ceiling, and is one of them.
pub proof fn lowest_bounds(s: Seq<int>, ceiling: int)
    ensures
        lowest(s, ceiling) <= ceiling,
        forall|k: int| 0 <= k < s.len() ==> lowest(s, ceiling) <= s[k],
        lowest(s, ceiling) == ceiling || exists|k: int|
            0 <= k < s.len() && s[k] == lowest(s, ceiling),
    decreases s.len(),
{
    if s.len() > 0 {
        lowest_bounds(s.drop_last(), ceiling);
        let rest = lowest(s.drop_last(), ceiling);
        assert forall|k: int| 0 <= k < s.len() implies lowest(s, ceiling) <= s[k] by {
            if k < s.len() - 1 {
                assert(s.drop_last()[k] == s[k]);
            }
        }
        if lowest(s, ceiling) != ceiling {
            if s.last() < rest {
                assert(s[s.len() - 1] == lowest(s, ceiling));
            } else {
                let k = choose|k: int| 0 <= k < s.drop_last().len() && s.drop_last()[k] == rest;
                assert(s[k] == lowest(s, ceiling));
            }
        }
    }
}

/// The sum of numbers that are sums, place by place, is the sum of the sums.
pub proof fn total_of_sums(f: Seq<int>, g: Seq<int>, h: Seq<int>)
    requires
        f.len() == h.len(),
        g.len() == h.len(),
        forall|k: int| 0 <= k < h.len() ==> h[k] == f[k] + g[k],
    ensures
        total(h) == total(f) + total(g),
    decreases h.len(),
{
    if h.len() > 0 {
        total_of_sums(f.drop_last(), g.drop_last(), h.drop_last());
    }
}

/// Where `f` is at most `g` place by place, and `gap` below it at place `k`,
/// the sum of `f` is at least `gap` below that of `g`.
pub proof fn total_below(f: Seq<int>, g: Seq<int>, k: int, gap: int)
    requires
        f.len() == g.len(),
        forall|j: int| 0 <= j < f.len() ==> f[j] <= g[j],
        0 <= k < f.len(),
        f[k] + gap <= g[k],
    ensures
        total(f) + gap <= total(g),
    decreases f.len(),
{
    if k == f.len() - 1 {
        total_at_most(f.drop_last(), g.drop_last());
    } else {
        total_below(f.drop_last(), g.drop_last(), k, gap);
    }
}

/// Where `f` is at most `g` place by place, so are their sums.
pub proof fn total_at_most(f: Seq<int>, g: Seq<int>)
    requires
        f.len() == g.len(),
        forall|j: int| 0 <= j < f.len() ==> f[j] <= g[j],
    ensures
        total(f) <= total(g),
    decreases f.len(),
{
    if f.len() > 0 {
        total_at_most(f.drop_last(), g.drop_last());
    }
}

/// The sum of numbers that are all zero but at place `k` is the number at
/// that place.
pub proof fn total_of_one(f: Seq<int>, k: int)
    requires
        0 <= k < f.len(),
        forall|j: int| 0 <= j < f.len() && j != k ==> f[j] == 0,
    ensures
        total(f) == f[k],
    decreases f.len(),
{
    if k == f.len() - 1 {
        total_of_none(f.drop_last());
    } else {
        total_of_one(f.drop_last(), k);
    }
}

/// The sum of `n` ones is `n`.
pub proof fn total_of_ones(f: Seq<int>)
    requires
        forall|j: int| 0 <= j < f.len() ==> f[j] == 1,
    ensures
        total(f) == f.len(),
    decreases f.len(),
{
    if f.len() > 0 {
        total_of_ones(f.drop_last());
    }
}

/// The sum of zeros is zero.
pub proof fn total_of_none(f: Seq<int>)
    requires
        forall|j: int| 0 <= j < f.len() ==> f[j] == 0,
    ensures
        total(f) == 0,
    decreases f.len(),
{
    if f.len() > 0 {
        total_of_none(f.drop_last());
    }
}

} // verus!
