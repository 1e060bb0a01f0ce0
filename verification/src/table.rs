use vstd::prelude::*;

verus! {

broadcast use
    vstd::seq_lib::to_multiset_insert,
    vstd::seq_lib::to_multiset_build,
    Seq::lemma_filter_push,
    Seq::filter_distributes_over_add;

/// The subsequence of `s` made of the entries whose threshold is exactly
/// `key`, in their order of appearance.
pub open spec fn entries_at(s: Seq<Breakpoint>, key: u64) -> Seq<Breakpoint> {
    s.filter(|e: Breakpoint| e.threshold_bits == key)
}

/// A sequence without any entry at threshold `key` filters down to nothing.
proof fn lemma_entries_at_none(s: Seq<Breakpoint>, key: u64)
    requires
        forall|k: int| 0 <= k < s.len() ==> s[k].threshold_bits != key,
    ensures
        entries_at(s, key) =~= Seq::<Breakpoint>::empty(),
    decreases s.len(),
{
    reveal(Seq::filter);
    if s.len() != 0 {
        lemma_entries_at_none(s.drop_last(), key);
    }
}

/// One configured breakpoint of the piecewise control curve: at a memory
/// usage of `threshold_bits` the regulator should apply the sleep interval
/// `value_bits`.
///
/// Both fields hold IEEE 754 double-precision bit patterns. The
/// configuration schema only admits non-negative values (usage percentages
/// between 0 and 100, sleep intervals of at least 0 milliseconds), and on
/// non-negative doubles the unsigned order of the bit patterns coincides
/// with the numeric order, so the table can sort and search entries by
/// plain `u64` comparison of `threshold_bits`. Decoding a bit pattern back
/// into a number is left to the caller, which owns all floating-point
/// arithmetic.
#[derive(Clone, Copy, Debug, PartialEq, Eq, Structural)]
pub struct Breakpoint {
    pub threshold_bits: u64,
    pub value_bits: u64,
}

/// A configuration that cannot yield a working regulator.
#[derive(Clone, Copy, Debug, PartialEq, Eq, Structural)]
pub enum ConfigError {
    /// The configuration lists no breakpoints at all, so no control value
    /// could ever be chosen.
    EmptyTable,
}

/// The entries are ordered by threshold, lowest first. Entries with equal
/// thresholds keep their relative order from the configuration.
pub open spec fn sorted_by_threshold(s: Seq<Breakpoint>) -> bool {
    forall|i: int, j: int|
        0 <= i <= j < s.len() ==> s[i].threshold_bits <= s[j].threshold_bits
}

/// Every configured threshold lies strictly below the usage `u`: the usage
/// is beyond the top of the curve.
pub open spec fn above_all(s: Seq<Breakpoint>, u: u64) -> bool {
    forall|k: int| 0 <= k < s.len() ==> s[k].threshold_bits < u
}

/// `i` is the lower-bound position for usage `u`: the first entry whose
/// threshold is at or above `u`.
pub open spec fn is_lower_bound_index(s: Seq<Breakpoint>, u: u64, i: int) -> bool {
    &&& 0 <= i < s.len()
    &&& u <= s[i].threshold_bits
    &&& forall|k: int| 0 <= k < i ==> s[k].threshold_bits < u
}

/// The breakpoint table: an immutable sequence of breakpoints sorted by
/// threshold, built once from the configuration and queried on every
/// regulation cycle.
pub struct BreakpointTable {
    entries: Vec<Breakpoint>,
}

impl View for BreakpointTable {
    type V = Seq<Breakpoint>;

    closed spec fn view(&self) -> Seq<Breakpoint> {
        self.entries@
    }
}

impl BreakpointTable {
    /// A usable table is non-empty and sorted by threshold.
    pub open spec fn wf(&self) -> bool {
        &&& sorted_by_threshold(self@)
        &&& self@.len() > 0
    }

    /// Builds the table from the breakpoints found in the configuration,
    /// in any order. The entries are sorted by threshold, each control
    /// value travelling with its own threshold, and the sort is stable:
    /// at every threshold, the entries keep their relative configuration
    /// order. An empty configuration is rejected here, before any
    /// regulation starts.
    pub fn new(entries: Vec<Breakpoint>) -> (r: Result<BreakpointTable, ConfigError>)
        ensures
            entries@.len() == 0 <==> r == Result::<BreakpointTable, ConfigError>::Err(
                ConfigError::EmptyTable,
            ),
            r matches Ok(t) ==> {
                &&& t.wf()
                &&& t@.len() == entries@.len()
                &&& t@.to_multiset() == entries@.to_multiset()
                &&& forall|key: u64| #[trigger] entries_at(t@, key) == entries_at(entries@, key)
            },
    {
        if entries.len() == 0 {
            Err(ConfigError::EmptyTable)
        } else {
            Ok(BreakpointTable { entries: sort_by_threshold(entries) })
        }
    }

    /// How many breakpoints the table holds.
    pub fn len(&self) -> (n: usize)
        ensures
            n == self@.len(),
    {
        self.entries.len()
    }

    /// The breakpoint at position `i`, counting from the lowest threshold.
    pub fn entry(&self, i: usize) -> (b: Breakpoint)
        requires
            i < self@.len(),
        ensures
            b == self@[i as int],
    {
        self.entries[i]
    }

    /// Nearest-neighbour lookup: an ordered (binary) search for the first
    /// entry whose threshold is at or above the usage, by the bit-pattern
    /// order described on [`Breakpoint`].
    ///
    /// Returns `(i, above_max)`. When `above_max` is false, `i` is the
    /// lower-bound position: `threshold[i] >= usage` and every earlier
    /// threshold is strictly below `usage`, so for `i > 0` the bracketing
    /// interval is `(i - 1, i)` and for `i == 0` there is no neighbour
    /// below. When `above_max` is true, the usage lies strictly above
    /// every configured threshold and `i` saturates at the last entry.
    pub fn lookup(&self, usage_bits: u64) -> (r: (usize, bool))
        requires
            self.wf(),
        ensures
            r.0 < self@.len(),
            r.1 <==> above_all(self@, usage_bits),
            r.1 ==> r.0 == self@.len() - 1,
            !r.1 ==> is_lower_bound_index(self@, usage_bits, r.0 as int),
    {
        let n = self.entries.len();
        let mut lo: usize = 0;
        let mut hi: usize = n;
        while lo < hi
            invariant
                lo <= hi <= n,
                n == self@.len(),
                sorted_by_threshold(self@),
                forall|k: int| 0 <= k < lo ==> self@[k].threshold_bits < usage_bits,
                forall|k: int| hi <= k < n ==> usage_bits <= self@[k].threshold_bits,
            decreases hi - lo,
        {
            let mid = lo + (hi - lo) / 2;
            if self.entries[mid].threshold_bits < usage_bits {
                lo = mid + 1;
            } else {
                hi = mid;
            }
        }
        if lo == n {
            (n - 1, true)
        } else {
            proof {
                assert(usage_bits <= self@[lo as int].threshold_bits);
            }
            (lo, false)
        }
    }
}

/// Whenever some threshold is at or above the usage `u`, a lower-bound
/// position exists: some first entry is at or above `u`. Together with
/// [`BreakpointTable::lookup`]'s contract this pins the lookup result for
/// every usage over every non-empty table.
pub proof fn lemma_lower_bound_exists(s: Seq<Breakpoint>, u: u64)
    requires
        !above_all(s, u),
        s.len() > 0,
    ensures
        exists|i: int| is_lower_bound_index(s, u, i),
    decreases s.len(),
{
    if u <= s[0].threshold_bits {
        assert(is_lower_bound_index(s, u, 0));
    } else {
        let t = s.drop_first();
        let k = choose|k: int| 0 <= k < s.len() && u <= s[k].threshold_bits;
        assert(0 <= k - 1 < t.len() && u <= t[k - 1].threshold_bits);
        assert(!above_all(t, u));
        lemma_lower_bound_exists(t, u);
        let i = choose|i: int| is_lower_bound_index(t, u, i);
        assert forall|m: int| 0 <= m < i + 1 implies s[m].threshold_bits < u by {
            if m > 0 {
                assert(s[m] == t[m - 1]);
            }
        }
        assert(is_lower_bound_index(s, u, i + 1));
    }
}

/// Sorts breakpoints by threshold, lowest first, by repeatedly inserting
/// each entry behind the already-sorted entries at or below it. The result
/// holds exactly the given breakpoints, each control value still paired
/// with its own threshold, and the sort is stable: at every threshold, the
/// entries keep their relative configuration order.
fn sort_by_threshold(entries: Vec<Breakpoint>) -> (r: Vec<Breakpoint>)
    ensures
        sorted_by_threshold(r@),
        r@.len() == entries@.len(),
        r@.to_multiset() == entries@.to_multiset(),
        forall|key: u64| #[trigger] entries_at(r@, key) == entries_at(entries@, key),
{
    let mut out: Vec<Breakpoint> = Vec::new();
    let mut i: usize = 0;
    proof {
        assert(out@ =~= entries@.subrange(0, 0));
    }
    while i < entries.len()
        invariant
            i <= entries@.len(),
            sorted_by_threshold(out@),
            out@.len() == i,
            out@.to_multiset() == entries@.subrange(0, i as int).to_multiset(),
            forall|key: u64| #[trigger] entries_at(out@, key) == entries_at(
                entries@.subrange(0, i as int),
                key,
            ),
        decreases entries@.len() - i,
    {
        let x = entries[i];
        let pos = sorted_insert_position(&out, x);
        let ghost old_out = out@;
        out.insert(pos, x);
        proof {
            old_out.insert_ensures(pos as int, x);
            let front = old_out.subrange(0, pos as int);
            let back = old_out.subrange(pos as int, old_out.len() as int);
            assert(old_out =~= front + back);
            assert(out@ =~= front.push(x) + back);
            assert forall|k: int| 0 <= k < back.len() implies x.threshold_bits
                < back[k].threshold_bits by {
                assert(back[k] == old_out[pos + k]);
                assert(old_out[pos as int].threshold_bits <= old_out[pos + k].threshold_bits);
            }
            assert(entries@.subrange(0, i as int + 1) =~= entries@.subrange(0, i as int).push(x));
            assert forall|key: u64| #[trigger] entries_at(out@, key) == entries_at(
                entries@.subrange(0, i as int + 1),
                key,
            ) by {
                assert(entries_at(front.push(x) + back, key) == entries_at(front.push(x), key)
                    + entries_at(back, key));
                assert(entries_at(front + back, key) == entries_at(front, key) + entries_at(
                    back,
                    key,
                ));
                let prefix = entries@.subrange(0, i as int);
                assert(entries_at(prefix.push(x), key) == if x.threshold_bits == key {
                    entries_at(prefix, key).push(x)
                } else {
                    entries_at(prefix, key)
                });
                if key == x.threshold_bits {
                    lemma_entries_at_none(back, key);
                    assert(entries_at(front.push(x), key) == entries_at(front, key).push(x));
                    assert(entries_at(out@, key) =~= entries_at(front, key).push(x));
                    assert(entries_at(old_out, key) =~= entries_at(front, key));
                } else {
                    assert(entries_at(front.push(x), key) == entries_at(front, key));
                    assert(entries_at(out@, key) =~= entries_at(old_out, key));
                }
            }
            assert forall|p: int, q: int| 0 <= p <= q < out@.len() implies
                out@[p].threshold_bits <= out@[q].threshold_bits by {
                if q < pos {
                    assert(out@[p] == old_out[p]);
                    assert(out@[q] == old_out[q]);
                } else if p > pos {
                    assert(out@[p] == old_out[p - 1]);
                    assert(out@[q] == old_out[q - 1]);
                } else if p == pos && q == pos {
                } else if p == pos {
                    assert(out@[q] == old_out[q - 1]);
                    assert(pos <= q - 1 < old_out.len());
                    assert(old_out[pos as int].threshold_bits >= x.threshold_bits);
                } else {
                    assert(out@[p] == old_out[p]);
                    assert(old_out[p].threshold_bits <= x.threshold_bits);
                    if q > pos {
                        assert(out@[q] == old_out[q - 1]);
                        assert(old_out[p].threshold_bits <= old_out[q - 1].threshold_bits);
                    }
                }
            }
        }
        i = i + 1;
    }
    proof {
        assert(entries@.subrange(0, entries@.len() as int) =~= entries@);
    }
    out
}

/// The position at which `x` belongs in the sorted prefix `entries`: just
/// past every entry whose threshold is at or below `x`'s, so that an
/// insertion there keeps the order and places `x` after equal thresholds.
fn sorted_insert_position(entries: &Vec<Breakpoint>, x: Breakpoint) -> (pos: usize)
    requires
        sorted_by_threshold(entries@),
    ensures
        pos <= entries@.len(),
        forall|k: int| 0 <= k < pos ==> entries@[k].threshold_bits <= x.threshold_bits,
        pos < entries@.len() ==> x.threshold_bits < entries@[pos as int].threshold_bits,
{
    let mut pos: usize = 0;
    while pos < entries.len() && entries[pos].threshold_bits <= x.threshold_bits
        invariant
            pos <= entries@.len(),
            forall|k: int| 0 <= k < pos ==> entries@[k].threshold_bits <= x.threshold_bits,
        decreases entries@.len() - pos,
    {
        pos = pos + 1;
    }
    pos
}

} // verus!
