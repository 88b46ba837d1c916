use vstd::prelude::*;
use vstd::std_specs::cmp::PartialEqSpec;

verus! {

broadcast use vstd::arithmetic::div_mod::lemma_div_is_strictly_smaller;

/// A caller-supplied combination capability: `operation(height, lhs, rhs)`
/// merges two values at the 0-based tree level `height` (leaves are height
/// 0 inputs), letting callers mix level-dependent domain separation into
/// the combination.
pub trait XmssOperation<T> {
    /// What the combination returns at a given height on given operands.
    /// An implementation verified against the engine's contracts overrides
    /// this; the default says nothing.
    open spec fn spec_operation(&self, height: usize, lhs: T, rhs: T) -> T {
        vstd::pervasive::arbitrary()
    }

    /// Combines two values at tree level `height`; the two operand
    /// positions are not assumed interchangeable.
    fn operation(&self, height: usize, lhs: T, rhs: T) -> (r: T)
        ensures
            r == self.spec_operation(height, lhs, rhs),
    ;
}

/// One reduction level: consecutive pairs combine at `height`; a trailing
/// unpaired element is carried forward unchanged.
pub open spec fn spec_level<T, F: XmssOperation<T>>(f: &F, height: usize, s: Seq<T>) -> Seq<T> {
    let pairs = Seq::new(s.len() / 2, |i: int| f.spec_operation(height, s[2 * i], s[2 * i + 1]));
    if s.len() % 2 == 1 {
        pairs.push(s.last())
    } else {
        pairs
    }
}

/// The root of the left-to-right pairing reduction of `s`, with the first
/// level combining at `height`.
pub open spec fn spec_collapse<T, F: XmssOperation<T>>(f: &F, height: usize, s: Seq<T>) -> T
    decreases s.len(),
{
    if s.len() <= 1 {
        s[0]
    } else {
        spec_collapse(f, (height + 1) as usize, spec_level(f, height, s))
    }
}

/// The value an authentication path replays from `item`, consuming the
/// entries from index `k` on; each entry combines at the height equal to
/// its index, on the side its flag records.
pub open spec fn spec_advance_from<T, F: XmssOperation<T>>(
    f: &F,
    entries: Seq<(T, bool)>,
    k: int,
    item: T,
) -> T
    decreases entries.len() - k,
{
    if k < 0 || k >= entries.len() {
        item
    } else {
        let (other, reverse) = entries[k];
        let next = if reverse {
            f.spec_operation(k as usize, other, item)
        } else {
            f.spec_operation(k as usize, item, other)
        };
        spec_advance_from(f, entries, k + 1, next)
    }
}

/// The claimed root an authentication path replays from a leaf.
pub open spec fn spec_advance<T, F: XmssOperation<T>>(
    f: &F,
    entries: Seq<(T, bool)>,
    item: T,
) -> T {
    spec_advance_from(f, entries, 0, item)
}

/// Whether `n` is a power of two.
pub open spec fn spec_is_pow2(n: nat) -> bool
    decreases n,
{
    if n == 0 {
        false
    } else if n == 1 {
        true
    } else {
        n % 2 == 0 && spec_is_pow2(n / 2)
    }
}

/// Replaying one more entry combines the running value with that entry's
/// sibling at the height equal to its index.
proof fn lemma_advance_push<T, F: XmssOperation<T>>(
    f: &F,
    entries: Seq<(T, bool)>,
    k: int,
    item: T,
    e: (T, bool),
)
    requires
        0 <= k <= entries.len(),
    ensures
        spec_advance_from(f, entries.push(e), k, item) == (if e.1 {
            f.spec_operation(entries.len() as usize, e.0, spec_advance_from(f, entries, k, item))
        } else {
            f.spec_operation(entries.len() as usize, spec_advance_from(f, entries, k, item), e.0)
        }),
    decreases entries.len() - k,
{
    if k == entries.len() {
        assert(entries.push(e)[k] == e);
        assert(spec_advance_from(f, entries, k, item) == item);
        assert(spec_advance_from(f, entries.push(e), k + 1, if e.1 {
            f.spec_operation(k as usize, e.0, item)
        } else {
            f.spec_operation(k as usize, item, e.0)
        }) == (if e.1 {
            f.spec_operation(k as usize, e.0, item)
        } else {
            f.spec_operation(k as usize, item, e.0)
        }));
    } else {
        assert(entries.push(e)[k] == entries[k]);
        let (other, reverse) = entries[k];
        let next = if reverse {
            f.spec_operation(k as usize, other, item)
        } else {
            f.spec_operation(k as usize, item, other)
        };
        lemma_advance_push(f, entries, k + 1, next, e);
    }
}

/// Sum of a sequence of integers.
pub open spec fn spec_sum(s: Seq<int>) -> int
    decreases s.len(),
{
    if s.len() == 0 {
        0
    } else {
        spec_sum(s.drop_last()) + s.last()
    }
}

proof fn lemma_sum_add(x: Seq<int>, y: Seq<int>)
    ensures
        spec_sum(x + y) == spec_sum(x) + spec_sum(y),
    decreases y.len(),
{
    if y.len() == 0 {
        assert(x + y =~= x);
    } else {
        lemma_sum_add(x, y.drop_last());
        assert((x + y).drop_last() =~= x + y.drop_last());
    }
}

/// One summing reduction level keeps the sum of the sequence.
proof fn lemma_level_sum<F: XmssOperation<int>>(f: &F, height: usize, s: Seq<int>)
    requires
        forall|h: usize, x: int, y: int| #[trigger] f.spec_operation(h, x, y) == x + y,
    ensures
        spec_sum(spec_level(f, height, s)) == spec_sum(s),
    decreases s.len(),
{
    if s.len() == 0 {
        assert(spec_level(f, height, s) =~= Seq::<int>::empty());
    } else if s.len() == 1 {
        let q = seq![s[0]];
        assert(spec_level(f, height, s) =~= q);
        assert(q.drop_last() =~= Seq::<int>::empty());
        assert(spec_sum(Seq::<int>::empty()) == 0);
        assert(spec_sum(q) == spec_sum(q.drop_last()) + q.last());
        assert(s.drop_last() =~= Seq::<int>::empty());
    } else {
        let rest = s.skip(2);
        assert(spec_level(f, height, s) =~= seq![s[0] + s[1]] + spec_level(f, height, rest));
        lemma_level_sum(f, height, rest);
        lemma_sum_add(seq![s[0] + s[1]], spec_level(f, height, rest));
        assert(s =~= seq![s[0], s[1]] + rest);
        lemma_sum_add(seq![s[0], s[1]], rest);
        let p = seq![s[0], s[1]];
        let q = seq![s[0] + s[1]];
        assert(p.drop_last() =~= seq![s[0]]);
        assert(seq![s[0]].drop_last() =~= Seq::<int>::empty());
        assert(q.drop_last() =~= Seq::<int>::empty());
        assert(spec_sum(Seq::<int>::empty()) == 0);
        assert(spec_sum(p) == spec_sum(p.drop_last()) + p.last());
        assert(spec_sum(seq![s[0]]) == spec_sum(seq![s[0]].drop_last()) + seq![s[0]].last());
        assert(spec_sum(q) == spec_sum(q.drop_last()) + q.last());
        assert(spec_sum(p) == s[0] + s[1]);
        assert(spec_sum(q) == s[0] + s[1]);
    }
}

/// Tree reduction correctness for a summing combination: whatever the
/// heights do not change, collapsing a non-empty sequence with an
/// operation that adds its operands yields the sum of the leaves, for
/// every leaf count, powers of two or not.
pub proof fn lemma_collapse_sum<F: XmssOperation<int>>(f: &F, height: usize, s: Seq<int>)
    requires
        s.len() >= 1,
        forall|h: usize, x: int, y: int| #[trigger] f.spec_operation(h, x, y) == x + y,
    ensures
        spec_collapse(f, height, s) == spec_sum(s),
    decreases s.len(),
{
    if s.len() == 1 {
        assert(spec_sum(s) == spec_sum(s.drop_last()) + s.last());
        assert(s.drop_last() =~= Seq::<int>::empty());
    } else {
        lemma_level_sum(f, height, s);
        lemma_collapse_sum(f, (height + 1) as usize, spec_level(f, height, s));
    }
}

/// Collapsing is deterministic: the root is a function of the combination
/// operation and the ordered leaf sequence alone, so collapsing the same
/// sequence twice yields identical roots.
pub proof fn lemma_collapse_deterministic<T, F: XmssOperation<T>>(
    f: &F,
    leaves: Seq<T>,
    again: Seq<T>,
)
    requires
        leaves == again,
    ensures
        spec_collapse(f, 0, leaves) == spec_collapse(f, 0, again),
{
}

/// An authentication path: one (sibling value, side flag) pair per tree
/// level, consumed exactly once to replay a leaf-to-root combination.
pub struct XmssPath<T>(Vec<(T, bool)>);

impl<T> View for XmssPath<T> {
    type V = Seq<(T, bool)>;

    closed spec fn view(&self) -> Seq<(T, bool)> {
        self.0@
    }
}

impl<T> XmssPath<T> {
    /// Replays the path from `item` upward: at each height the running
    /// value combines with the recorded sibling, as left or right operand
    /// as the side flag records; the final running value is the claimed
    /// root, for the caller to compare against a known-good root.
    pub fn advance<F: XmssOperation<T>>(self, item: T, f: &F) -> (r: T)
        ensures
            r == spec_advance(f, self@, item),
    {
        let XmssPath(mut entries) = self;
        let ghost orig = entries@;
        let n = entries.len();
        proof {
            assert(orig.len() == n);
        }
        let mut cur = item;
        let mut i: usize = 0;
        while entries.len() > 0
            invariant
                orig.len() <= usize::MAX,
                i + entries@.len() == orig.len(),
                entries@ == orig.skip(i as int),
                spec_advance_from(f, orig, 0, item) == spec_advance_from(f, orig, i as int, cur),
            decreases entries@.len(),
        {
            let (other, reverse) = entries.remove(0);
            proof {
                assert(orig.skip(i as int)[0] == orig[i as int]);
            }
            cur = if reverse {
                f.operation(i, other, cur)
            } else {
                f.operation(i, cur, other)
            };
            i = i + 1;
            proof {
                assert(entries@ =~= orig.skip(i as int));
            }
        }
        cur
    }
}

/// A tree as the flat ordered sequence of its leaf values; no tree
/// structure is kept, combination happens bottom-up in a single pass.
#[derive(Clone)]
pub struct XmssTree<T>(pub Vec<T>);

impl<T> XmssTree<T> {
    /// Locates `item` among the leaves and extracts its authentication
    /// path: the root of the tree, together with the ordered (sibling,
    /// side) pairs met while performing the same pairing reduction as
    /// `collapse`, so that replaying the path from the leaf reproduces the
    /// root. The leaf count must be a power of two, so that every level
    /// pairs the leaf's position with a sibling and the replay heights
    /// line up with the reduction heights.
    pub fn path<F: XmssOperation<T>>(self, item: T, f: &F) -> (r: (T, XmssPath<T>)) where
        T: Eq + Copy,

        requires
            self.0@.len() >= 1,
            spec_is_pow2(self.0@.len() as nat),
            T::obeys_eq_spec(),
            forall|x: T, y: T| #[trigger] x.eq_spec(&y) <==> x == y,
            exists|k: int| 0 <= k < self.0@.len() && self.0@[k] == item,
        ensures
            r.0 == spec_collapse(f, 0, self.0@),
            spec_advance(f, r.1@, item) == spec_collapse(f, 0, self.0@),
    {
        let XmssTree(mut data) = self;
        let ghost orig = data@;
        let n = data.len();
        proof {
            assert(orig.len() == n);
        }
        let mut j: usize = 0;
        while j + 1 < data.len() && data[j] != item
            invariant
                orig.len() <= usize::MAX,
                data@ == orig,
                j < orig.len(),
                T::obeys_eq_spec(),
                forall|x: T, y: T| #[trigger] x.eq_spec(&y) <==> x == y,
                forall|k: int| 0 <= k < j ==> orig[k] != item,
                exists|k: int| 0 <= k < orig.len() && orig[k] == item,
            decreases orig.len() - j,
        {
            j = j + 1;
        }
        proof {
            assert(orig[j as int] == item);
        }
        let mut entries: Vec<(T, bool)> = Vec::new();
        let mut height: usize = 0;
        while data.len() >= 2
            invariant
                orig.len() <= usize::MAX,
                1 <= data@.len(),
                spec_is_pow2(data@.len() as nat),
                (j as int) < data@.len(),
                entries@.len() == height,
                height + data@.len() <= orig.len(),
                spec_collapse(f, height, data@) == spec_collapse(f, 0, orig),
                spec_advance_from(f, entries@, 0, item) == data@[j as int],
            decreases data@.len(),
        {
            let ghost pre = data@;
            proof {
                assert(pre.len() % 2 == 0);
            }
            let half = data.len() / 2;
            let mut next: Vec<T> = Vec::new();
            let mut k: usize = 0;
            while k < half
                invariant
                    pre.len() <= usize::MAX,
                    data@ == pre,
                    half == pre.len() / 2,
                    pre.len() % 2 == 0,
                    k <= half,
                    next@.len() == k,
                    forall|t: int|
                        0 <= t < k ==> next@[t] == f.spec_operation(
                            height,
                            pre[2 * t],
                            pre[2 * t + 1],
                        ),
                decreases half - k,
            {
                let x = data[2 * k];
                let y = data[2 * k + 1];
                next.push(f.operation(height, x, y));
                k = k + 1;
            }
            proof {
                assert(next@ =~= spec_level(f, height, pre));
            }
            let e = if j % 2 == 0 {
                (data[j + 1], false)
            } else {
                (data[j - 1], true)
            };
            let ghost old_entries = entries@;
            entries.push(e);
            proof {
                lemma_advance_push(f, old_entries, 0, item, e);
                assert(next@[(j / 2) as int] == f.spec_operation(
                    height,
                    pre[2 * ((j / 2) as int)],
                    pre[2 * ((j / 2) as int) + 1],
                ));
            }
            j = j / 2;
            data = next;
            height = height + 1;
            proof {
                assert(spec_collapse(f, (height - 1) as usize, pre) == spec_collapse(
                    f,
                    height,
                    spec_level(f, (height - 1) as usize, pre),
                ));
            }
        }
        let root = data[0];
        proof {
            assert(spec_collapse(f, height, data@) == data@[0]);
        }
        (root, XmssPath(entries))
    }

    /// Reduces the non-empty leaf sequence to a single root: at each
    /// height, consecutive pairs combine left to right, an unpaired
    /// trailing element is carried forward unchanged, and heights advance
    /// until one value remains. Arbitrary leaf counts are tolerated
    /// without padding.
    pub fn collapse<F: XmssOperation<T>>(self, f: &F) -> (r: T)
        requires
            self.0@.len() >= 1,
        ensures
            r == spec_collapse(f, 0, self.0@),
    {
        let XmssTree(mut data) = self;
        let ghost orig = data@;
        let n = data.len();
        proof {
            assert(orig.len() == n);
        }
        let mut height: usize = 0;
        while data.len() >= 2
            invariant
                orig.len() <= usize::MAX,
                1 <= data@.len(),
                height + data@.len() <= orig.len(),
                spec_collapse(f, height, data@) == spec_collapse(f, 0, orig),
            decreases data@.len(),
        {
            let ghost pre = data@;
            let mut next: Vec<T> = Vec::new();
            while data.len() >= 2
                invariant
                    data@ == pre.skip(2 * next@.len() as int),
                    2 * (next@.len() as int) <= pre.len(),
                    forall|t: int|
                        0 <= t < next@.len() ==> next@[t] == f.spec_operation(
                            height,
                            pre[2 * t],
                            pre[2 * t + 1],
                        ),
                decreases data@.len(),
            {
                let ghost count = next@.len() as int;
                let x = data.remove(0);
                let y = data.remove(0);
                next.push(f.operation(height, x, y));
                proof {
                    assert(pre.skip(2 * count)[0] == pre[2 * count]);
                    assert(pre.skip(2 * count)[1] == pre[2 * count + 1]);
                    assert(data@ =~= pre.skip(2 * (count + 1)));
                }
            }
            if data.len() == 1 {
                let t = data.remove(0);
                next.push(t);
            }
            proof {
                assert(next@ =~= spec_level(f, height, pre));
            }
            data = next;
            height = height + 1;
        }
        proof {
            assert(spec_collapse(f, height, data@) == data@[0]);
        }
        let r = data.remove(0);
        r
    }
}

} // verus!
