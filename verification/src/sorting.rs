//! The order of `str`: lexicographic by character (the order of UTF-8 bytes
//! is the order of code points), and sorting a list into that order with
//! repeated entries dropped.
use vstd::prelude::*;
use crate::action::strs;
use crate::text::rows;
use crate::text::str_chars;

verus! {

/// `a` comes before `b`: at the first position where they differ, `a` holds
/// the smaller character, or `a` is a proper prefix of `b`.
pub open spec fn lex_lt(a: Seq<char>, b: Seq<char>) -> bool
    decreases a.len(),
{
    if a.len() == 0 {
        b.len() > 0
    } else if b.len() == 0 {
        false
    } else if a[0] != b[0] {
        (a[0] as int) < (b[0] as int)
    } else {
        lex_lt(a.drop_first(), b.drop_first())
    }
}

/// No sequence comes before itself.
pub proof fn lemma_lex_irreflexive(a: Seq<char>)
    ensures
        !lex_lt(a, a),
    decreases a.len(),
{
    if a.len() > 0 {
        lemma_lex_irreflexive(a.drop_first());
    }
}

/// The order is transitive.
pub proof fn lemma_lex_transitive(a: Seq<char>, b: Seq<char>, c: Seq<char>)
    requires
        lex_lt(a, b),
        lex_lt(b, c),
    ensures
        lex_lt(a, c),
    decreases a.len(),
{
    if a.len() > 0 && b.len() > 0 && c.len() > 0 && a[0] == b[0] && b[0] == c[0] {
        lemma_lex_transitive(a.drop_first(), b.drop_first(), c.drop_first());
    }
}

/// Of two different sequences, one comes before the other.
pub proof fn lemma_lex_total(a: Seq<char>, b: Seq<char>)
    requires
        a != b,
    ensures
        lex_lt(a, b) || lex_lt(b, a),
    decreases a.len(),
{
    if a.len() > 0 && b.len() > 0 && a[0] == b[0] {
        if a.drop_first() == b.drop_first() {
            assert(a =~= seq![a[0]] + a.drop_first());
            assert(b =~= seq![b[0]] + b.drop_first());
        }
        lemma_lex_total(a.drop_first(), b.drop_first());
    } else if a.len() == 0 && b.len() == 0 {
        assert(a =~= b);
    } else if a.len() > 0 && b.len() > 0 {
        assert((a[0] as int) != (b[0] as int));
    }
}

/// After an equal prefix of length `i`, the order is decided by the rest.
proof fn lemma_lex_skip(a: Seq<char>, b: Seq<char>, i: int)
    requires
        0 <= i <= a.len(),
        i <= b.len(),
        forall|j: int| 0 <= j < i ==> a[j] == b[j],
    ensures
        lex_lt(a, b) == lex_lt(a.skip(i), b.skip(i)),
    decreases i,
{
    if i > 0 {
        lemma_lex_skip(a.drop_first(), b.drop_first(), i - 1);
        assert(a.drop_first().skip(i - 1) == a.skip(i));
        assert(b.drop_first().skip(i - 1) == b.skip(i));
    } else {
        assert(a.skip(0) == a);
        assert(b.skip(0) == b);
    }
}

/// The order is lexicographic by character code: a proper prefix comes
/// before the longer sequence, and otherwise the sequence with the smaller
/// character at the first position where the two differ comes first.
pub proof fn lemma_lex_characterized(a: Seq<char>, b: Seq<char>)
    ensures
        a.len() < b.len() && a == b.take(a.len() as int) ==> lex_lt(a, b),
        forall|k: int|
            0 <= k < a.len() && k < b.len() && a.take(k) == b.take(k) && a[k] != b[k] ==> (lex_lt(
                a,
                b,
            ) <==> (#[trigger] a[k] as int) < (b[k] as int)),
    decreases a.len(),
{
    if a.len() < b.len() && a == b.take(a.len() as int) {
        assert forall|j: int| 0 <= j < a.len() implies a[j] == b[j] by {
            assert(b.take(a.len() as int)[j] == b[j]);
        }
        lemma_lex_skip(a, b, a.len() as int);
        assert(a.skip(a.len() as int).len() == 0);
    }
    assert forall|k: int|
        0 <= k < a.len() && k < b.len() && a.take(k) == b.take(k) && a[k] != b[k] implies (lex_lt(
            a,
            b,
        ) <==> (#[trigger] a[k] as int) < (b[k] as int)) by {
        assert forall|j: int| 0 <= j < k implies a[j] == b[j] by {
            assert(a.take(k)[j] == a[j]);
            assert(b.take(k)[j] == b[j]);
        }
        lemma_lex_skip(a, b, k);
        assert(a.skip(k)[0] == a[k]);
        assert(b.skip(k)[0] == b[k]);
    }
}

/// Whether `a` comes before `b`.
pub fn lex_less(a: &[char], b: &[char]) -> (r: bool)
    ensures
        r == lex_lt(a@, b@),
{
    let mut i: usize = 0;
    while i < a.len() && i < b.len() && a[i] == b[i]
        invariant
            i <= a@.len(),
            i <= b@.len(),
            forall|j: int| 0 <= j < i ==> a@[j] == b@[j],
        decreases a@.len() - i,
    {
        i = i + 1;
    }
    proof {
        lemma_lex_skip(a@, b@, i as int);
    }
    if i == a.len() {
        i < b.len()
    } else if i == b.len() {
        false
    } else {
        proof {
            assert(a@.skip(i as int)[0] == a@[i as int]);
            assert(b@.skip(i as int)[0] == b@[i as int]);
        }
        a[i] < b[i]
    }
}

/// Every entry comes before every later entry: the sequence is sorted and
/// holds nothing twice.
pub open spec fn strictly_sorted(s: Seq<Seq<char>>) -> bool {
    forall|i: int, j: int| 0 <= i < j < s.len() ==> lex_lt(#[trigger] s[i], #[trigger] s[j])
}

/// Two strictly sorted sequences with the same entries are the same
/// sequence: sorting and dropping repeats has one outcome.
pub proof fn lemma_strictly_sorted_unique(a: Seq<Seq<char>>, b: Seq<Seq<char>>)
    requires
        strictly_sorted(a),
        strictly_sorted(b),
        forall|x: Seq<char>| a.contains(x) <==> b.contains(x),
    ensures
        a == b,
    decreases a.len(),
{
    if a.len() == 0 {
        if b.len() > 0 {
            assert(b.contains(b[0]));
        }
        assert(a =~= b);
    } else {
        assert(a.contains(a[0]));
        assert(b.len() > 0);
        assert(b.contains(b[0]));
        let ia = choose|k: int| 0 <= k < a.len() && a[k] == b[0];
        let ib = choose|k: int| 0 <= k < b.len() && b[k] == a[0];
        if a[0] != b[0] {
            assert(ia != 0);
            assert(ib != 0);
            assert(lex_lt(a[0], a[ia]));
            assert(lex_lt(b[0], b[ib]));
            lemma_lex_transitive(a[0], b[0], a[0]);
            lemma_lex_irreflexive(a[0]);
        }
        let ra = a.drop_first();
        let rb = b.drop_first();
        assert forall|x: Seq<char>| ra.contains(x) <==> rb.contains(x) by {
            if ra.contains(x) {
                let k = choose|k: int| 0 <= k < ra.len() && ra[k] == x;
                assert(a[k + 1] == x);
                assert(lex_lt(a[0], x));
                lemma_lex_irreflexive(x);
                assert(b.contains(x));
                let m = choose|m: int| 0 <= m < b.len() && b[m] == x;
                assert(m != 0);
                assert(rb[m - 1] == x);
            }
            if rb.contains(x) {
                let k = choose|k: int| 0 <= k < rb.len() && rb[k] == x;
                assert(b[k + 1] == x);
                assert(lex_lt(b[0], x));
                lemma_lex_irreflexive(x);
                assert(a.contains(x));
                let m = choose|m: int| 0 <= m < a.len() && a[m] == x;
                assert(m != 0);
                assert(ra[m - 1] == x);
            }
        }
        lemma_strictly_sorted_unique(ra, rb);
        assert(a =~= seq![a[0]] + ra);
        assert(b =~= seq![b[0]] + rb);
    }
}

/// No entry comes before an earlier one: the sequence is sorted.
pub open spec fn sorted(s: Seq<Seq<char>>) -> bool {
    forall|i: int, j: int| 0 <= i < j < s.len() ==> !lex_lt(#[trigger] s[j], #[trigger] s[i])
}

/// Of two sequences, at most one comes before the other.
proof fn lemma_lex_asymmetric(a: Seq<char>, b: Seq<char>)
    ensures
        !(lex_lt(a, b) && lex_lt(b, a)),
{
    if lex_lt(a, b) && lex_lt(b, a) {
        lemma_lex_transitive(a, b, a);
        lemma_lex_irreflexive(a);
    }
}

/// The entries of `v` sorted, as `slice::sort` sorts strings: the same
/// entries, as often as in `v`, none coming before an earlier one.
pub fn sort_strings(v: &Vec<String>) -> (r: Vec<String>)
    ensures
        sorted(strs(r@)),
        strs(r@).to_multiset() == strs(v@).to_multiset(),
{
    broadcast use vstd::seq_lib::group_to_multiset_ensures;

    let mut out: Vec<String> = Vec::new();
    let mut keys: Vec<Vec<char>> = Vec::new();
    let mut i: usize = 0;
    proof {
        assert(strs(out@) =~= Seq::<Seq<char>>::empty());
        assert(rows(keys@) =~= Seq::<Seq<char>>::empty());
        assert(strs(v@).take(0) =~= Seq::<Seq<char>>::empty());
    }
    while i < v.len()
        invariant
            i <= v@.len(),
            rows(keys@) == strs(out@),
            sorted(strs(out@)),
            strs(out@).to_multiset() == strs(v@).take(i as int).to_multiset(),
        decreases v@.len() - i,
    {
        let ghost s = strs(out@);
        let x = str_chars(v[i].as_str());
        let mut j: usize = 0;
        while j < keys.len() && lex_less(keys[j].as_slice(), x.as_slice())
            invariant
                j <= keys@.len(),
                rows(keys@) == s,
                forall|k: int| 0 <= k < j ==> lex_lt(#[trigger] s[k], x@),
            decreases keys@.len() - j,
        {
            proof {
                assert(rows(keys@)[j as int] == keys@[j as int]@);
            }
            j = j + 1;
        }
        proof {
            if j < keys@.len() {
                assert(rows(keys@)[j as int] == keys@[j as int]@);
            }
        }
        proof {
            assert(strs(out@).len() == out@.len());
            assert(rows(keys@).len() == keys@.len());
        }
        keys.insert(j, x);
        out.insert(j, v[i].clone());
        proof {
            broadcast use vstd::multiset::group_multiset_axioms, vstd::seq_lib::group_to_multiset_ensures;
            let t = s.insert(j as int, v@[i as int]@);
            assert(strs(out@) =~= t);
            assert(rows(keys@) =~= t);
            assert forall|a: int, b: int| 0 <= a < b < t.len() implies !lex_lt(
                #[trigger] t[b],
                #[trigger] t[a],
            ) by {
                if b < j {
                } else if b == j {
                    assert(t[a] == s[a]);
                    lemma_lex_asymmetric(s[a], x@);
                } else if a < j {
                    assert(t[b] == s[b - 1]);
                    if lex_lt(s[b - 1], s[a]) {
                        lemma_lex_transitive(s[b - 1], s[a], x@);
                        if b - 1 > j {
                            if s[j as int] != s[b - 1] {
                                lemma_lex_total(s[j as int], s[b - 1]);
                                lemma_lex_transitive(s[j as int], s[b - 1], x@);
                            }
                        }
                    }
                } else if a == j {
                    assert(t[b] == s[b - 1]);
                    if lex_lt(s[b - 1], x@) {
                        if b - 1 > j {
                            if s[j as int] != s[b - 1] {
                                lemma_lex_total(s[j as int], s[b - 1]);
                                lemma_lex_transitive(s[j as int], s[b - 1], x@);
                            }
                        }
                    }
                } else {
                    assert(t[a] == s[a - 1]);
                    assert(t[b] == s[b - 1]);
                }
            }
            assert(t.remove(j as int) =~= s);
            assert(t[j as int] == v@[i as int]@);
            assert(t.remove(j as int).to_multiset() == t.to_multiset().remove(t[j as int]));
            assert(t.contains(t[j as int]));
            assert(t.to_multiset().count(t[j as int]) > 0);
            assert(t.to_multiset() =~= s.to_multiset().insert(v@[i as int]@));
            assert(strs(v@).take(i + 1) =~= strs(v@).take(i as int).push(v@[i as int]@));
        }
        i = i + 1;
    }
    proof {
        assert(strs(v@).take(v@.len() as int) =~= strs(v@));
    }
    out
}

/// `s` with every entry equal to the one before it dropped, as `Vec::dedup`
/// drops them.
pub open spec fn dedup_spec(s: Seq<Seq<char>>) -> Seq<Seq<char>>
    decreases s.len(),
{
    if s.len() == 0 {
        s
    } else {
        let kept = dedup_spec(s.drop_last());
        if s.len() >= 2 && s.last() == s[s.len() - 2] {
            kept
        } else {
            kept.push(s.last())
        }
    }
}

/// Dropping repeated neighbours keeps every entry, and ends with the last
/// one.
proof fn lemma_dedup_basics(s: Seq<Seq<char>>)
    ensures
        forall|x: Seq<char>| dedup_spec(s).contains(x) <==> s.contains(x),
        s.len() > 0 ==> dedup_spec(s).len() > 0 && dedup_spec(s).last() == s.last(),
    decreases s.len(),
{
    if s.len() > 0 {
        let p = s.drop_last();
        lemma_dedup_basics(p);
        let d = dedup_spec(p);
        let repeated = s.len() >= 2 && s.last() == s[s.len() - 2];
        assert forall|x: Seq<char>| dedup_spec(s).contains(x) <==> s.contains(x) by {
            if s.contains(x) {
                let k = choose|k: int| 0 <= k < s.len() && s[k] == x;
                if k < s.len() - 1 {
                    assert(p[k] == x);
                    assert(p.contains(x));
                    assert(d.contains(x));
                    if !repeated {
                        let m = choose|m: int| 0 <= m < d.len() && d[m] == x;
                        assert(d.push(s.last())[m] == x);
                    }
                } else if repeated {
                    assert(p[p.len() - 1] == x);
                    assert(p.contains(x));
                    assert(d.contains(x));
                } else {
                    assert(d.push(s.last())[d.len() as int] == x);
                }
            }
            if dedup_spec(s).contains(x) {
                let m = choose|m: int| 0 <= m < dedup_spec(s).len() && dedup_spec(s)[m] == x;
                if m < d.len() {
                    assert(d[m] == x);
                    assert(d.contains(x));
                    assert(p.contains(x));
                    let k = choose|k: int| 0 <= k < p.len() && p[k] == x;
                    assert(s[k] == x);
                } else {
                    assert(x == s.last());
                    assert(s[s.len() - 1] == x);
                }
            }
        }
    }
}

/// Dropping the repeated neighbours of a sorted sequence leaves a strictly
/// sorted one with the same entries: sorting and then dropping repeats gives
/// each entry once, in order.
pub proof fn lemma_dedup_sorted(s: Seq<Seq<char>>)
    requires
        sorted(s),
    ensures
        strictly_sorted(dedup_spec(s)),
        forall|x: Seq<char>| dedup_spec(s).contains(x) <==> s.contains(x),
    decreases s.len(),
{
    lemma_dedup_basics(s);
    if s.len() > 0 {
        let p = s.drop_last();
        assert(sorted(p)) by {
            assert forall|i: int, j: int| 0 <= i < j < p.len() implies !lex_lt(
                #[trigger] p[j],
                #[trigger] p[i],
            ) by {
                assert(p[i] == s[i]);
                assert(p[j] == s[j]);
            }
        }
        lemma_dedup_sorted(p);
        lemma_dedup_basics(p);
        let d = dedup_spec(p);
        if !(s.len() >= 2 && s.last() == s[s.len() - 2]) {
            let t = d.push(s.last());
            assert forall|a: int, b: int| 0 <= a < b < t.len() implies lex_lt(
                #[trigger] t[a],
                #[trigger] t[b],
            ) by {
                if b == t.len() - 1 {
                    assert(d[a] == t[a]);
                    assert(d.contains(t[a]));
                    assert(p.contains(t[a]));
                    let k = choose|k: int| 0 <= k < p.len() && p[k] == t[a];
                    assert(s[k] == t[a]);
                    assert(!lex_lt(s[s.len() - 1], s[k]));
                    if t[a] == s.last() {
                        // t[a] is the last of d, which is the last of p
                        assert(p.len() > 0);
                        assert(d.last() == p.last());
                        assert(p.last() == s[s.len() - 2]);
                        // every entry of d is at most d.last(); d is strictly sorted
                        if a < d.len() - 1 {
                            assert(lex_lt(d[a], d[d.len() - 1]));
                            lemma_lex_irreflexive(t[a]);
                        }
                    } else {
                        lemma_lex_total(t[a], s.last());
                    }
                } else {
                    assert(t[a] == d[a]);
                    assert(t[b] == d[b]);
                }
            }
        }
    }
}

/// `v` with every entry equal to the one before it dropped; `Vec::dedup`.
pub fn dedup_strings(v: &Vec<String>) -> (r: Vec<String>)
    ensures
        strs(r@) == dedup_spec(strs(v@)),
{
    let ghost sv = strs(v@);
    let mut out: Vec<String> = Vec::new();
    let mut i: usize = 0;
    proof {
        assert(sv.take(0) =~= Seq::<Seq<char>>::empty());
        assert(strs(out@) =~= Seq::<Seq<char>>::empty());
    }
    while i < v.len()
        invariant
            i <= v@.len(),
            sv == strs(v@),
            strs(out@) == dedup_spec(sv.take(i as int)),
        decreases v@.len() - i,
    {
        let ghost t = sv.take(i + 1);
        proof {
            assert(t.drop_last() == sv.take(i as int));
            assert(t.last() == v@[i as int]@);
            if i >= 1 {
                assert(t[t.len() - 2] == v@[i - 1]@);
            }
        }
        if i == 0 || v[i] != v[i - 1] {
            let ghost before = strs(out@);
            out.push(v[i].clone());
            proof {
                assert(strs(out@) =~= before.push(v@[i as int]@));
            }
        }
        i = i + 1;
    }
    proof {
        assert(sv.take(v@.len() as int) == sv);
    }
    out
}

} // verus!
