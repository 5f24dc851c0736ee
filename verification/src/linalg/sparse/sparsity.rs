//! Compressed sparsity pattern: the minor indices of each major line
//! (a row for a CSR matrix), stored contiguously, with the start of
//! each closed major line recorded in `major_starts`.
use vstd::prelude::*;

verus! {

/// Entries of `s` whose key (first component) is `k`, in their order in `s`.
pub open spec fn with_key<T>(s: Seq<(usize, T)>, k: usize) -> Seq<(usize, T)> {
    s.filter(has_key(k))
}

/// The predicate "the key of the entry is `k`".
pub open spec fn has_key<T>(k: usize) -> spec_fn((usize, T)) -> bool {
    |p: (usize, T)| p.0 == k
}

/// The keys of `s` never decrease.
pub open spec fn keys_sorted<T>(s: Seq<(usize, T)>) -> bool {
    forall|i: int, j: int| 0 <= i <= j < s.len() ==> (#[trigger] s[i]).0 <= (#[trigger] s[j]).0
}

/// `out` is the stable sort of `inp` by key: its keys are sorted and, for every
/// key, the entries holding that key appear in the same order as in `inp`
/// (which determines `out`: see `lemma_stable_sort_unique`).
pub open spec fn is_stable_sort_of<T>(out: Seq<(usize, T)>, inp: Seq<(usize, T)>) -> bool {
    &&& out.len() == inp.len()
    &&& keys_sorted(out)
    &&& forall|k: usize| #[trigger] with_key(out, k) == with_key(inp, k)
}

/// Pairs `(a[i], b[i])`, for `i` below the length of `a`.
pub open spec fn zip_pairs<T>(a: Seq<usize>, b: Seq<T>) -> Seq<(usize, T)> {
    Seq::new(a.len(), |i: int| (a[i], b[i]))
}

proof fn lemma_with_key_all_other<T>(s: Seq<(usize, T)>, k: usize)
    requires
        forall|i: int| 0 <= i < s.len() ==> (#[trigger] s[i]).0 != k,
    ensures
        with_key(s, k) =~= Seq::<(usize, T)>::empty(),
{
    let pred = has_key::<T>(k);
    assert(s.all(|x: (usize, T)| !pred(x)));
    s.lemma_all_neg_filter_empty(pred);
    assert(with_key(s, k).len() == 0);
}

/// Taking the entries of key `k` of `s`, through its last entry.
proof fn lemma_with_key_unfold<T>(s: Seq<(usize, T)>, k: usize)
    requires
        s.len() > 0,
    ensures
        with_key(s, k) == if s.last().0 == k {
            with_key(s.drop_last(), k).push(s.last())
        } else {
            with_key(s.drop_last(), k)
        },
{
    reveal(Seq::filter);
}

/// An entry of key `k` is an entry of `s`.
proof fn lemma_with_key_nonempty<T>(s: Seq<(usize, T)>, k: usize)
    requires
        with_key(s, k).len() > 0,
    ensures
        exists|i: int| 0 <= i < s.len() && (#[trigger] s[i]).0 == k,
    decreases s.len(),
{
    if s.len() == 0 {
        reveal(Seq::filter);
    } else {
        lemma_with_key_unfold(s, k);
        if s.last().0 != k {
            lemma_with_key_nonempty(s.drop_last(), k);
            let i = choose|i: int| 0 <= i < s.drop_last().len() && (#[trigger] s.drop_last()[i]).0 == k;
            assert(s[i] == s.drop_last()[i]);
        } else {
            assert(s[s.len() - 1].0 == k);
        }
    }
}

/// Two sequences sorted by key that hold, key by key, the same entries in the
/// same order are equal.
proof fn lemma_sorted_same_groups_equal<T>(a: Seq<(usize, T)>, b: Seq<(usize, T)>)
    requires
        a.len() == b.len(),
        keys_sorted(a),
        keys_sorted(b),
        forall|k: usize| #[trigger] with_key(a, k) == with_key(b, k),
    ensures
        a == b,
    decreases a.len(),
{
    if a.len() == 0 {
        assert(a =~= b);
    } else {
        let x = a.last();
        let y = b.last();
        lemma_with_key_unfold(a, x.0);
        lemma_with_key_unfold(b, y.0);
        lemma_with_key_unfold(a, y.0);
        lemma_with_key_unfold(b, x.0);
        if x.0 < y.0 {
            assert(with_key(a, y.0) == with_key(b, y.0));
            lemma_with_key_nonempty(a, y.0);
            let i = choose|i: int| 0 <= i < a.len() && (#[trigger] a[i]).0 == y.0;
            assert(a[i].0 <= a[a.len() - 1].0);
        }
        if y.0 < x.0 {
            assert(with_key(b, x.0) == with_key(a, x.0));
            lemma_with_key_nonempty(b, x.0);
            let i = choose|i: int| 0 <= i < b.len() && (#[trigger] b[i]).0 == x.0;
            assert(b[i].0 <= b[b.len() - 1].0);
        }
        assert(x.0 == y.0);
        assert(with_key(a, x.0) == with_key(b, x.0));
        assert(with_key(a, x.0).last() == x);
        assert(with_key(b, x.0).last() == y);
        let a1 = a.drop_last();
        let b1 = b.drop_last();
        assert forall|k: usize| #[trigger] with_key(a1, k) == with_key(b1, k) by {
            lemma_with_key_unfold(a, k);
            lemma_with_key_unfold(b, k);
            if k == x.0 {
                assert(with_key(a1, k) =~= with_key(a, k).drop_last());
                assert(with_key(b1, k) =~= with_key(b, k).drop_last());
            }
        }
        lemma_sorted_same_groups_equal(a1, b1);
        assert(a =~= a1.push(x));
        assert(b =~= b1.push(y));
    }
}

/// A stable sort by key is unique: two stable sorts of the same entries are equal.
pub proof fn lemma_stable_sort_unique<T>(a: Seq<(usize, T)>, b: Seq<(usize, T)>, inp: Seq<(usize, T)>)
    requires
        is_stable_sort_of(a, inp),
        is_stable_sort_of(b, inp),
    ensures
        a == b,
{
    assert forall|k: usize| #[trigger] with_key(a, k) == with_key(b, k) by {
        assert(with_key(a, k) == with_key(inp, k));
        assert(with_key(b, k) == with_key(inp, k));
    }
    lemma_sorted_same_groups_equal(a, b);
}

proof fn lemma_insert_keeps_stable<T>(
    front: Seq<(usize, T)>,
    back: Seq<(usize, T)>,
    x: (usize, T),
    done: Seq<(usize, T)>,
    k: usize,
)
    requires
        with_key(front + back, k) == with_key(done, k),
        forall|q: int| 0 <= q < back.len() ==> (#[trigger] back[q]).0 > x.0,
    ensures
        with_key(front + seq![x] + back, k) == with_key(done.push(x), k),
{
    let pred = has_key::<T>(k);
    Seq::filter_distributes_over_add(front + seq![x], back, pred);
    Seq::filter_distributes_over_add(front, seq![x], pred);
    Seq::filter_distributes_over_add(front, back, pred);
    done.lemma_filter_push(x, pred);
    assert(Seq::<(usize, T)>::empty().push(x) =~= seq![x]);
    Seq::<(usize, T)>::empty().lemma_filter_push(x, pred);
    assert(Seq::<(usize, T)>::empty().filter(pred) =~= Seq::<(usize, T)>::empty()) by {
        reveal(Seq::filter);
    }
    if x.0 == k {
        lemma_with_key_all_other(back, k);
        assert(with_key(front + seq![x] + back, k) =~= with_key(front, k).push(x));
        assert(with_key(front + back, k) =~= with_key(front, k));
    } else {
        assert(with_key(seq![x], k) =~= Seq::<(usize, T)>::empty());
        assert(with_key(front + seq![x] + back, k) =~= with_key(front, k) + with_key(back, k));
    }
}

/// Stable insertion sort of the buffer by key.
fn stable_sort_pairs<T: Copy>(buf: &mut Vec<(usize, T)>)
    ensures
        is_stable_sort_of(final(buf)@, old(buf)@),
{
    let ghost inp = buf@;
    let mut out: Vec<(usize, T)> = Vec::new();
    let n = buf.len();
    let mut i: usize = 0;
    while i < n
        invariant
            n == inp.len(),
            buf@ == inp,
            i <= n,
            out@.len() == i,
            keys_sorted(out@),
            forall|k: usize| #[trigger] with_key(out@, k) == with_key(inp.take(i as int), k),
        decreases n - i,
    {
        let x = buf[i];
        // first position whose key is strictly larger than the key of x
        let mut p: usize = 0;
        while p < out.len() && out[p].0 <= x.0
            invariant
                p <= out@.len(),
                keys_sorted(out@),
                forall|q: int| 0 <= q < p ==> (#[trigger] out@[q]).0 <= x.0,
            decreases out@.len() - p,
        {
            p = p + 1;
        }
        let ghost old_out = out@;
        proof {
            assert forall|q: int| p <= q < old_out.len() implies (#[trigger] old_out[q]).0 > x.0 by {
                assert(old_out[p as int].0 > x.0);
                assert(old_out[p as int].0 <= old_out[q].0);
            }
        }
        out.insert(p, x);
        proof {
            let front = old_out.take(p as int);
            let back = old_out.skip(p as int);
            assert(old_out =~= front + back);
            assert(out@ =~= front + seq![x] + back);
            assert(inp.take(i + 1) =~= inp.take(i as int).push(x));
            assert forall|k: usize| #[trigger] with_key(out@, k) == with_key(inp.take(i + 1), k) by {
                lemma_insert_keeps_stable(front, back, x, inp.take(i as int), k);
            }
            assert forall|a: int, b: int| 0 <= a <= b < out@.len() implies (#[trigger] out@[a]).0
                <= (#[trigger] out@[b]).0 by {
                if a < p && b > p {
                    assert(out@[a] == old_out[a]);
                    assert(out@[b] == old_out[b - 1]);
                } else if a < p && b == p {
                    assert(out@[a] == old_out[a]);
                } else if a == p && b > p {
                    assert(out@[b] == old_out[b - 1]);
                } else if a > p {
                    assert(out@[a] == old_out[a - 1]);
                    assert(out@[b] == old_out[b - 1]);
                }
            }
        }
        i = i + 1;
    }
    proof {
        assert(inp.take(n as int) =~= inp);
    }
    *buf = out;
}

/// A sparsity pattern: the minor indices of every major line, stored one line
/// after the other. `major_starts[m]` is where line `m` begins; the last start
/// marks the end of the closed lines, and the minors pushed after it form the
/// line that is still open.
pub struct Sparsity {
    minors: Vec<usize>,
    major_starts: Vec<usize>,
    max_minor: usize,
}

impl Sparsity {
    /// Minor indices of all lines, closed ones and the open one.
    pub closed spec fn minors_seq(&self) -> Seq<usize> {
        self.minors@
    }

    /// Start offsets of the major lines; the last entry is the end of the closed lines.
    pub closed spec fn starts_seq(&self) -> Seq<usize> {
        self.major_starts@
    }

    /// Largest minor index pushed so far (0 while none was pushed).
    pub closed spec fn max_minor_spec(&self) -> usize {
        self.max_minor
    }

    /// Number of closed major lines.
    pub open spec fn major_count(&self) -> int {
        self.starts_seq().len() - 1
    }

    /// Minor indices of the closed major line `m`.
    pub open spec fn line(&self, m: int) -> Seq<usize> {
        self.minors_seq().subrange(self.starts_seq()[m] as int, self.starts_seq()[m + 1] as int)
    }

    /// Offset where the open line begins.
    pub open spec fn open_start(&self) -> int {
        self.starts_seq().last() as int
    }

    /// Well-formedness: the starts begin at 0, never decrease and stay within the
    /// minors; `max_minor` is the largest minor, or 0 when there is none.
    pub open spec fn wf(&self) -> bool {
        let st = self.starts_seq();
        let m = self.minors_seq();
        &&& st.len() >= 1
        &&& st[0] == 0
        &&& forall|i: int, j: int| 0 <= i <= j < st.len() ==> #[trigger] st[i] <= #[trigger] st[j]
        &&& st.last() <= m.len()
        &&& forall|i: int| 0 <= i < m.len() ==> #[trigger] m[i] <= self.max_minor_spec()
        &&& m.len() == 0 ==> self.max_minor_spec() == 0
        &&& m.len() > 0 ==> m.contains(self.max_minor_spec())
    }

    /// An empty pattern: no line, no minor.
    pub fn new() -> (s: Sparsity)
        ensures
            s.wf(),
            s.minors_seq() == Seq::<usize>::empty(),
            s.starts_seq() == seq![0usize],
            s.max_minor_spec() == 0,
    {
        let mut major_starts = Vec::new();
        major_starts.push(0);
        Sparsity { minors: Vec::new(), major_starts, max_minor: 0 }
    }

    /// Number of closed major lines.
    pub fn major_len(&self) -> (n: usize)
        requires
            self.wf(),
        ensures
            n == self.major_count(),
    {
        self.major_starts.len() - 1
    }

    /// Number of minor indices stored, in closed lines and in the open one.
    pub fn minor_len(&self) -> (n: usize)
        ensures
            n == self.minors_seq().len(),
    {
        self.minors.len()
    }

    /// Largest minor index pushed so far.
    pub fn max_minor(&self) -> (m: usize)
        ensures
            m == self.max_minor_spec(),
    {
        self.max_minor
    }

    /// Offset at which major line `major` begins.
    pub fn major_start(&self, major: usize) -> (s: usize)
        requires
            major < self.starts_seq().len(),
        ensures
            s == self.starts_seq()[major as int],
    {
        self.major_starts[major]
    }

    /// Appends `minor` to the open line.
    pub fn push_to_major(&mut self, minor: usize)
        requires
            old(self).wf(),
        ensures
            final(self).wf(),
            final(self).minors_seq() == old(self).minors_seq().push(minor),
            final(self).starts_seq() == old(self).starts_seq(),
            final(self).max_minor_spec() == if minor > old(self).max_minor_spec() {
                minor
            } else {
                old(self).max_minor_spec()
            },
    {
        self.minors.push(minor);
        if minor > self.max_minor {
            self.max_minor = minor;
        }
        proof {
            assert(self.minors@[self.minors@.len() - 1] == minor);
            if old(self).minors@.len() > 0 {
                let w = choose|w: int| 0 <= w < old(self).minors@.len() && old(self).minors@[w] == old(self).max_minor;
                assert(self.minors@[w] == old(self).max_minor);
            }
        }
    }

    /// Closes the open line as it stands.
    pub fn close_major(&mut self)
        requires
            old(self).wf(),
        ensures
            final(self).wf(),
            final(self).minors_seq() == old(self).minors_seq(),
            final(self).max_minor_spec() == old(self).max_minor_spec(),
            final(self).starts_seq() == old(self).starts_seq().push(
                old(self).minors_seq().len() as usize,
            ),
            final(self).open_start() == final(self).minors_seq().len(),
    {
        self.major_starts.push(self.minors.len())
    }

    /// Sorts the open line by minor index, carrying the entries of `values` at the
    /// same offsets along (stably: equal minors keep their order), then closes the
    /// line. `tmp_buffer` is scratch space and ends up holding the sorted line.
    pub fn close_major_and_sort<T: Copy>(&mut self, values: &mut [T], tmp_buffer: &mut Vec<(usize, T)>)
        requires
            old(self).wf(),
            old(values)@.len() >= old(self).minors_seq().len(),
        ensures
            final(self).wf(),
            final(self).max_minor_spec() == old(self).max_minor_spec(),
            final(self).starts_seq() == old(self).starts_seq().push(
                old(self).minors_seq().len() as usize,
            ),
            final(self).open_start() == final(self).minors_seq().len(),
            final(self).minors_seq().len() == old(self).minors_seq().len(),
            final(values)@.len() == old(values)@.len(),
            final(self).minors_seq().subrange(0, old(self).open_start())
                == old(self).minors_seq().subrange(0, old(self).open_start()),
            forall|i: int| 0 <= i < old(self).open_start() || old(self).minors_seq().len() <= i < old(values)@.len()
                ==> #[trigger] final(values)@[i] == old(values)@[i],
            is_stable_sort_of(
                zip_pairs(
                    final(self).minors_seq().subrange(old(self).open_start(), old(self).minors_seq().len() as int),
                    final(values)@.subrange(old(self).open_start(), old(self).minors_seq().len() as int),
                ),
                zip_pairs(
                    old(self).minors_seq().subrange(old(self).open_start(), old(self).minors_seq().len() as int),
                    old(values)@.subrange(old(self).open_start(), old(self).minors_seq().len() as int),
                ),
            ),
            final(tmp_buffer)@ == zip_pairs(
                final(self).minors_seq().subrange(old(self).open_start(), old(self).minors_seq().len() as int),
                final(values)@.subrange(old(self).open_start(), old(self).minors_seq().len() as int),
            ),
    {
        let a = self.major_starts[self.major_starts.len() - 1];
        let b = self.minors.len();
        let ghost old_minors = self.minors@;
        let ghost old_values = values@;
        let ghost inp = zip_pairs(old_minors.subrange(a as int, b as int), old_values.subrange(a as int, b as int));

        tmp_buffer.clear();
        let mut i: usize = 0;
        while i < b - a
            invariant
                a <= b,
                b == old_minors.len(),
                b <= old_values.len(),
                self.minors@ == old_minors,
                values@ == old_values,
                i <= b - a,
                inp == zip_pairs(old_minors.subrange(a as int, b as int), old_values.subrange(a as int, b as int)),
                tmp_buffer@ == inp.take(i as int),
            decreases b - a - i,
        {
            tmp_buffer.push((self.minors[a + i], values[a + i]));
            proof {
                assert(tmp_buffer@ =~= inp.take(i + 1));
            }
            i = i + 1;
        }
        proof {
            assert(tmp_buffer@ =~= inp);
        }
        stable_sort_pairs(tmp_buffer);
        let ghost sorted = tmp_buffer@;

        let mut i: usize = 0;
        while i < tmp_buffer.len()
            invariant
                a <= b,
                b == old_minors.len(),
                b <= old_values.len(),
                tmp_buffer@ == sorted,
                sorted.len() == b - a,
                i <= b - a,
                self.minors@.len() == b,
                values@.len() == old_values.len(),
                self.major_starts@ == old(self).major_starts@,
                self.max_minor == old(self).max_minor,
                forall|j: int| 0 <= j < a ==> #[trigger] self.minors@[j] == old_minors[j],
                forall|j: int| 0 <= j < a || b <= j < old_values.len() ==> #[trigger] values@[j] == old_values[j],
                forall|k: int| a <= k < a + i ==> #[trigger] self.minors@[k] == sorted[k - a].0 && values@[k] == sorted[k - a].1,
                forall|k: int| a + i <= k < b ==> #[trigger] self.minors@[k] == old_minors[k],
            decreases b - a - i,
        {
            self.minors.set(a + i, tmp_buffer[i].0);
            values[a + i] = tmp_buffer[i].1;
            i = i + 1;
        }
        proof {
            assert(i == b - a);
            let new_pairs = zip_pairs(self.minors@.subrange(a as int, b as int), values@.subrange(a as int, b as int));
            assert forall|j: int| 0 <= j < b - a implies #[trigger] new_pairs[j] == sorted[j] by {
                assert(self.minors@[a + j] == sorted[j].0);
            }
            assert(new_pairs =~= sorted);
            assert(self.minors@.subrange(0, a as int) =~= old_minors.subrange(0, a as int));
            // the maximum is still among the minors
            assert forall|j: int| 0 <= j < b implies #[trigger] self.minors@[j] <= self.max_minor by {
                if j >= a {
                    let k = sorted[j - a].0;
                    assert(with_key(sorted, k) == with_key(inp, k));
                    assert(with_key(sorted, k).contains(sorted[j - a])) by {
                        sorted.lemma_filter_contains(has_key::<T>(k), j - a);
                    }
                    let q = choose|q: int| 0 <= q < with_key(inp, k).len() && with_key(inp, k)[q] == sorted[j - a];
                    inp.lemma_filter_pred(has_key::<T>(k), q);
                    assert(with_key(inp, k)[q].0 == k);
                    lemma_filtered_from(inp, has_key::<T>(k), q);
                    let r = choose|r: int| 0 <= r < inp.len() && inp[r] == with_key(inp, k)[q];
                    assert(old_minors[a + r] == k);
                }
            }
            if b > 0 {
                let w = choose|w: int| 0 <= w < old_minors.len() && old_minors[w] == self.max_minor;
                if w < a {
                    assert(self.minors@[w] == self.max_minor);
                } else {
                    let k = self.max_minor;
                    assert(inp[w - a].0 == k);
                    inp.lemma_filter_contains(has_key::<T>(k), w - a);
                    assert(with_key(sorted, k) == with_key(inp, k));
                    let q = choose|q: int| 0 <= q < with_key(sorted, k).len() && with_key(sorted, k)[q] == inp[w - a];
                    lemma_filtered_from(sorted, has_key::<T>(k), q);
                    let r = choose|r: int| 0 <= r < sorted.len() && sorted[r] == with_key(sorted, k)[q];
                    assert(self.minors@[a + r] == k);
                }
            }
        }
        self.major_starts.push(self.minors.len())
    }

    /// Minor indices of the closed major line `major`.
    pub fn major_range(&self, major: usize) -> (r: &[usize])
        requires
            self.wf(),
            major < self.major_count(),
        ensures
            r@ == self.line(major as int),
    {
        let _n = self.major_starts.len();
        vstd::slice::slice_subrange(
            self.minors.as_slice(),
            self.major_starts[major],
            self.major_starts[major + 1],
        )
    }

    /// Offsets, into the flat storage, of the entries of the closed major line `major`.
    pub fn major_range_flat(&self, major: usize) -> (r: std::ops::Range<usize>)
        requires
            self.wf(),
            major < self.major_count(),
        ensures
            r.start == self.starts_seq()[major as int],
            r.end == self.starts_seq()[major + 1],
    {
        let _n = self.major_starts.len();
        self.major_starts[major]..self.major_starts[major + 1]
    }

    /// Minor index stored at flat offset `k`.
    pub fn flat_index(&self, k: usize) -> (m: usize)
        requires
            k < self.minors_seq().len(),
        ensures
            m == self.minors_seq()[k as int],
    {
        self.minors[k]
    }
}

/// With at most one entry of key `k`, there is at most one to take.
proof fn lemma_with_key_at_most_one<T>(s: Seq<(usize, T)>, k: usize)
    requires
        forall|a: int, b: int| 0 <= a < b < s.len() && (#[trigger] s[a]).0 == k ==> (#[trigger] s[b]).0 != k,
    ensures
        with_key(s, k).len() <= 1,
    decreases s.len(),
{
    if s.len() > 0 {
        lemma_with_key_unfold(s, k);
        let d = s.drop_last();
        if s.last().0 == k {
            assert forall|i: int| 0 <= i < d.len() implies (#[trigger] d[i]).0 != k by {
                assert(d[i] == s[i]);
                assert(s[s.len() - 1] == s.last());
            }
            lemma_with_key_all_other(d, k);
        } else {
            assert forall|a: int, b: int| 0 <= a < b < d.len() && (#[trigger] d[a]).0 == k implies (#[trigger] d[b]).0 != k by {
                assert(d[a] == s[a] && d[b] == s[b]);
            }
            lemma_with_key_at_most_one(d, k);
        }
    }
}

/// Two entries of key `k` give two to take.
proof fn lemma_with_key_two<T>(s: Seq<(usize, T)>, k: usize, a: int, b: int)
    requires
        0 <= a < b < s.len(),
        s[a].0 == k,
        s[b].0 == k,
    ensures
        with_key(s, k).len() >= 2,
    decreases s.len(),
{
    lemma_with_key_unfold(s, k);
    let d = s.drop_last();
    if b == s.len() - 1 {
        assert(d[a] == s[a]);
        d.lemma_filter_contains(has_key::<T>(k), a);
        assert(with_key(d, k).len() > 0);
    } else {
        assert(d[a] == s[a] && d[b] == s[b]);
        lemma_with_key_two(d, k, a, b);
    }
}

/// What a filter keeps comes from the filtered sequence.
proof fn lemma_filter_contains_from<A>(s: Seq<A>, pred: spec_fn(A) -> bool, x: A)
    requires
        s.filter(pred).contains(x),
    ensures
        s.contains(x),
{
    let q = choose|q: int| 0 <= q < s.filter(pred).len() && s.filter(pred)[q] == x;
    lemma_filtered_from(s, pred, q);
}

/// A row closed after pushes to distinct columns holds exactly the pairs pushed,
/// each value with its column, in strictly increasing column order: for the
/// row's pairs `row`, the stable sort of the pushed pairs `pushed` (what
/// `close_row` stores), every pair of `row` was pushed, every pair pushed is in
/// `row`, and the columns increase strictly, which the binary search of a
/// lookup relies on.
pub proof fn lemma_sorted_row_of_distinct_columns<T>(row: Seq<(usize, T)>, pushed: Seq<(usize, T)>)
    requires
        is_stable_sort_of(row, pushed),
        forall|a: int, b: int| 0 <= a < b < pushed.len() ==> (#[trigger] pushed[a]).0 != (#[trigger] pushed[b]).0,
    ensures
        row.len() == pushed.len(),
        forall|a: int, b: int| 0 <= a < b < row.len() ==> (#[trigger] row[a]).0 < (#[trigger] row[b]).0,
        forall|q: int| 0 <= q < row.len() ==> pushed.contains(#[trigger] row[q]),
        forall|q: int| 0 <= q < pushed.len() ==> row.contains(#[trigger] pushed[q]),
{
    assert forall|a: int, b: int| 0 <= a < b < row.len() implies (#[trigger] row[a]).0 < (#[trigger] row[b]).0 by {
        if row[a].0 == row[b].0 {
            let k = row[a].0;
            lemma_with_key_two(row, k, a, b);
            assert(with_key(row, k) == with_key(pushed, k));
            lemma_with_key_at_most_one(pushed, k);
        }
    }
    assert forall|q: int| 0 <= q < row.len() implies pushed.contains(#[trigger] row[q]) by {
        let k = row[q].0;
        row.lemma_filter_contains(has_key::<T>(k), q);
        assert(with_key(row, k) == with_key(pushed, k));
        lemma_filter_contains_from(pushed, has_key::<T>(k), row[q]);
    }
    assert forall|q: int| 0 <= q < pushed.len() implies row.contains(#[trigger] pushed[q]) by {
        let k = pushed[q].0;
        pushed.lemma_filter_contains(has_key::<T>(k), q);
        assert(with_key(row, k) == with_key(pushed, k));
        lemma_filter_contains_from(row, has_key::<T>(k), pushed[q]);
    }
}

/// An element kept by a filter comes from the filtered sequence.
proof fn lemma_filtered_from<A>(s: Seq<A>, pred: spec_fn(A) -> bool, q: int)
    requires
        0 <= q < s.filter(pred).len(),
    ensures
        exists|r: int| 0 <= r < s.len() && s[r] == s.filter(pred)[q],
    decreases s.len(),
{
    reveal(Seq::filter);
    let sub = s.drop_last().filter(pred);
    if pred(s.last()) && q == sub.len() {
        assert(s[s.len() - 1] == s.filter(pred)[q]);
    } else {
        lemma_filtered_from(s.drop_last(), pred, q);
        let r = choose|r: int| 0 <= r < s.drop_last().len() && s.drop_last()[r] == sub[q];
        assert(s[r] == s.filter(pred)[q]);
    }
}

} // verus!
