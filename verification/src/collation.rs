//! Byte-wise lexicographic ordering of names (the order `str` sorts in) and a
//! stable sort by name.

use vstd::prelude::*;
use vstd::multiset::Multiset;
use vstd::utf8::encode_utf8;

verus! {

/// Lexicographic `<=` on byte strings; a proper prefix sorts first.
pub open spec fn bytes_le(a: Seq<u8>, b: Seq<u8>) -> bool
    decreases a.len(),
{
    if a.len() == 0 {
        true
    } else if b.len() == 0 {
        false
    } else if a[0] != b[0] {
        a[0] < b[0]
    } else {
        bytes_le(a.drop_first(), b.drop_first())
    }
}

/// `<=` on names, comparing their UTF-8 bytes.
pub open spec fn name_le(a: Seq<char>, b: Seq<char>) -> bool {
    bytes_le(encode_utf8(a), encode_utf8(b))
}

/// Names in non-decreasing order.
pub open spec fn sorted_by_name(s: Seq<Seq<char>>) -> bool {
    forall|i: int, j: int| 0 <= i < j < s.len() ==> name_le(#[trigger] s[i], #[trigger] s[j])
}

pub proof fn lemma_bytes_le_total(a: Seq<u8>, b: Seq<u8>)
    ensures
        bytes_le(a, b) || bytes_le(b, a),
    decreases a.len(),
{
    if a.len() > 0 && b.len() > 0 && a[0] == b[0] {
        lemma_bytes_le_total(a.drop_first(), b.drop_first());
    }
}

pub proof fn lemma_bytes_le_transitive(a: Seq<u8>, b: Seq<u8>, c: Seq<u8>)
    requires
        bytes_le(a, b),
        bytes_le(b, c),
    ensures
        bytes_le(a, c),
    decreases a.len(),
{
    if a.len() > 0 && b.len() > 0 && c.len() > 0 && a[0] == b[0] && b[0] == c[0] {
        lemma_bytes_le_transitive(a.drop_first(), b.drop_first(), c.drop_first());
    }
}

pub proof fn lemma_bytes_le_reflexive(a: Seq<u8>)
    ensures
        bytes_le(a, a),
    decreases a.len(),
{
    if a.len() > 0 {
        lemma_bytes_le_reflexive(a.drop_first());
    }
}

pub proof fn lemma_bytes_le_antisymmetric(a: Seq<u8>, b: Seq<u8>)
    requires
        bytes_le(a, b),
        bytes_le(b, a),
    ensures
        a == b,
    decreases a.len(),
{
    if a.len() > 0 && b.len() > 0 {
        lemma_bytes_le_antisymmetric(a.drop_first(), b.drop_first());
        assert(a =~= seq![a[0]] + a.drop_first());
        assert(b =~= seq![b[0]] + b.drop_first());
    } else {
        assert(a.len() == 0 && b.len() == 0);
        assert(a =~= b);
    }
}

/// Names that sort no later than each other are the same name.
pub proof fn lemma_name_le_antisymmetric(a: Seq<char>, b: Seq<char>)
    requires
        name_le(a, b),
        name_le(b, a),
    ensures
        a == b,
{
    lemma_bytes_le_antisymmetric(encode_utf8(a), encode_utf8(b));
    vstd::utf8::encode_utf8_decode_utf8(a);
    vstd::utf8::encode_utf8_decode_utf8(b);
}

/// Byte-wise `<=` of two string slices.
pub fn name_le_exec(a: &str, b: &str) -> (r: bool)
    ensures
        r == name_le(a@, b@),
{
    let x = a.as_bytes();
    let y = b.as_bytes();
    let mut i: usize = 0;
    proof {
        assert(x@.skip(0) == x@);
        assert(y@.skip(0) == y@);
    }
    while i < x.len() && i < y.len()
        invariant
            x@ == encode_utf8(a@),
            y@ == encode_utf8(b@),
            i <= x.len(),
            i <= y.len(),
            bytes_le(x@, y@) == bytes_le(x@.skip(i as int), y@.skip(i as int)),
        decreases x.len() - i,
    {
        proof {
            assert(x@.skip(i as int).drop_first() == x@.skip(i as int + 1));
            assert(y@.skip(i as int).drop_first() == y@.skip(i as int + 1));
        }
        if x[i] != y[i] {
            return x[i] < y[i];
        }
        i = i + 1;
    }
    proof {
        if i == x.len() {
            assert(x@.skip(i as int).len() == 0);
        } else {
            assert(y@.skip(i as int).len() == 0);
        }
    }
    i == x.len()
}

/// Something that sorts by a name.
pub trait Named {
    spec fn spec_name(&self) -> Seq<char>;

    fn name_str(&self) -> (r: &str)
        ensures
            r@ == self.spec_name(),
    ;
}

impl Named for String {
    open spec fn spec_name(&self) -> Seq<char> {
        self@
    }

    fn name_str(&self) -> (r: &str) {
        self.as_str()
    }
}

/// The names of a sequence of named items.
pub open spec fn names_of<T: Named>(s: Seq<T>) -> Seq<Seq<char>> {
    s.map_values(|t: T| t.spec_name())
}

/// The items of `s` called `n`, in order.
pub open spec fn with_name<T: Named>(s: Seq<T>, n: Seq<char>) -> Seq<T> {
    s.filter(|t: T| t.spec_name() == n)
}

/// No item of `s` is called `n`.
proof fn lemma_with_name_none<T: Named>(s: Seq<T>, n: Seq<char>)
    requires
        forall|i: int| 0 <= i < s.len() ==> (#[trigger] s[i]).spec_name() != n,
    ensures
        with_name(s, n) == Seq::<T>::empty(),
    decreases s.len(),
{
    reveal(Seq::filter);
    if s.len() > 0 {
        assert forall|i: int| 0 <= i < s.drop_last().len() implies (
        #[trigger] s.drop_last()[i]).spec_name() != n by {
            assert(s.drop_last()[i] == s[i]);
        }
        lemma_with_name_none(s.drop_last(), n);
        assert(s.last() == s[s.len() - 1]);
    }
}

/// A single item, filtered by name.
proof fn lemma_with_name_single<T: Named>(t: T, n: Seq<char>)
    ensures
        with_name(seq![t], n) == if t.spec_name() == n {
            seq![t]
        } else {
            Seq::<T>::empty()
        },
{
    reveal(Seq::filter);
    let s = seq![t];
    assert(s.last() == t);
    assert(s.drop_last() =~= Seq::<T>::empty());
    assert(with_name(s.drop_last(), n) == s.drop_last());
    assert(Seq::<T>::empty().push(t) =~= s);
}

/// Two orderings by name of the same items, whose names are distinct, are
/// the same sequence.
pub proof fn lemma_sorted_permutation_unique<T: Named>(a: Seq<T>, b: Seq<T>)
    requires
        a.to_multiset() == b.to_multiset(),
        sorted_by_name(names_of(a)),
        sorted_by_name(names_of(b)),
        forall|i: int, j: int|
            0 <= i < a.len() && 0 <= j < a.len() && i != j ==> (#[trigger] a[i]).spec_name()
                != (#[trigger] a[j]).spec_name(),
    ensures
        a == b,
    decreases a.len(),
{
    broadcast use vstd::seq_lib::group_to_multiset_ensures;
    broadcast use vstd::multiset::group_multiset_axioms;

    vstd::seq_lib::to_multiset_len(a);
    vstd::seq_lib::to_multiset_len(b);
    if a.len() == 0 {
        assert(b.len() == 0);
        assert(a =~= b);
    } else {
        assert(b.len() == a.len());
        assert(a.to_multiset().count(a[0]) > 0);
        assert(b.contains(a[0]));
        let j = choose|j: int| 0 <= j < b.len() && b[j] == a[0];
        assert(b.to_multiset().count(b[0]) > 0);
        assert(a.contains(b[0]));
        let k = choose|k: int| 0 <= k < a.len() && a[k] == b[0];
        let na = names_of(a);
        let nb = names_of(b);
        if k > 0 {
            assert(name_le(na[0], na[k]));
        } else {
            lemma_bytes_le_reflexive(encode_utf8(na[0]));
        }
        if j > 0 {
            assert(name_le(nb[0], nb[j]));
        } else {
            lemma_bytes_le_reflexive(encode_utf8(nb[0]));
        }
        lemma_name_le_antisymmetric(na[0], nb[0]);
        assert(k == 0);
        let a1 = a.drop_first();
        let b1 = b.drop_first();
        assert(a.remove(0) =~= a1);
        assert(b.remove(0) =~= b1);
        assert(a1.to_multiset() == b1.to_multiset());
        assert(names_of(a1) =~= na.drop_first());
        assert(names_of(b1) =~= nb.drop_first());
        assert forall|i: int, m: int|
            0 <= i < a1.len() && 0 <= m < a1.len() && i != m implies (#[trigger] a1[i]).spec_name()
            != (#[trigger] a1[m]).spec_name() by {
            assert(a1[i] == a[i + 1] && a1[m] == a[m + 1]);
        }
        lemma_sorted_permutation_unique(a1, b1);
        assert(a =~= seq![a[0]] + a1);
        assert(b =~= seq![b[0]] + b1);
    }
}

/// Insertion sort by name: the result holds the same items, in
/// non-decreasing order of name, and items with equal names keep their
/// relative order (the sort is stable).
pub fn sort_by_name<T: Named>(items: Vec<T>) -> (r: Vec<T>)
    ensures
        r@.to_multiset() == items@.to_multiset(),
        sorted_by_name(names_of(r@)),
        forall|n: Seq<char>| #[trigger] with_name(r@, n) == with_name(items@, n),
{
    broadcast use vstd::multiset::group_multiset_axioms;

    let ghost orig = items@;
    let mut rest = items;
    let mut out: Vec<T> = Vec::new();
    proof {
        assert(out@.to_multiset() =~= Multiset::empty()) by {
            vstd::seq_lib::to_multiset_len(out@);
        }
        assert(out@.to_multiset().add(rest@.to_multiset()) =~= orig.to_multiset());
    }
    proof {
        assert forall|n: Seq<char>| #[trigger] with_name(orig, n) == with_name(out@, n) + with_name(
            rest@,
            n,
        ) by {
            lemma_with_name_none(out@, n);
            assert(with_name(out@, n) + with_name(rest@, n) =~= with_name(rest@, n));
        }
    }
    while rest.len() > 0
        invariant
            out@.to_multiset().add(rest@.to_multiset()) == orig.to_multiset(),
            sorted_by_name(names_of(out@)),
            forall|n: Seq<char>| #[trigger] with_name(orig, n) == with_name(out@, n) + with_name(
                rest@,
                n,
            ),
        decreases rest.len(),
    {
        let ghost rest0 = rest@;
        let item = rest.remove(0);
        proof {
            vstd::seq_lib::to_multiset_remove(rest0, 0);
            vstd::seq_lib::to_multiset_contains(rest0, rest0[0]);
        }
        let mut k: usize = 0;
        let mut found = false;
        while k < out.len()
            invariant_except_break
                !found,
                k <= out.len(),
                forall|j: int| 0 <= j < k ==> name_le(out@[j].spec_name(), item.spec_name()),
            ensures
                k <= out.len(),
                forall|j: int| 0 <= j < k ==> name_le(out@[j].spec_name(), item.spec_name()),
                found ==> k < out.len() && !name_le(out@[k as int].spec_name(), item.spec_name()),
                !found ==> k == out.len(),
            decreases out.len() - k,
        {
            if !name_le_exec(out[k].name_str(), item.name_str()) {
                found = true;
                break;
            }
            k = k + 1;
        }
        let ghost before = out@;
        let ghost nb = names_of(before);
        let ghost key = item.spec_name();
        proof {
            assert forall|j: int| 0 <= j < k implies name_le(#[trigger] nb[j], key) by {
                assert(nb[j] == before[j].spec_name());
            }
            assert forall|j: int| k <= j < before.len() implies name_le(key, #[trigger] nb[j]) by {
                assert(nb[k as int] == before[k as int].spec_name());
                lemma_bytes_le_total(encode_utf8(nb[k as int]), encode_utf8(key));
                if j > k {
                    assert(name_le(nb[k as int], nb[j]));
                    lemma_bytes_le_transitive(
                        encode_utf8(key),
                        encode_utf8(nb[k as int]),
                        encode_utf8(nb[j]),
                    );
                }
            }
        }
        out.insert(k, item);
        proof {
            assert forall|n: Seq<char>| #[trigger] with_name(orig, n) == with_name(out@, n) + with_name(
                rest@,
                n,
            ) by {
                let pre = before.take(k as int);
                let post = before.skip(k as int);
                assert(before =~= pre + post);
                assert(out@ =~= pre + seq![item] + post);
                assert(rest0 =~= seq![item] + rest@);
                Seq::filter_distributes_over_add(pre, post, |t: T| t.spec_name() == n);
                Seq::filter_distributes_over_add(pre + seq![item], post, |t: T| t.spec_name() == n);
                Seq::filter_distributes_over_add(pre, seq![item], |t: T| t.spec_name() == n);
                Seq::filter_distributes_over_add(seq![item], rest@, |t: T| t.spec_name() == n);
                lemma_with_name_single(item, n);
                if item.spec_name() == n {
                    assert forall|i: int| 0 <= i < post.len() implies (#[trigger] post[i]).spec_name()
                        != n by {
                        assert(post[i] == before[k + i]);
                        assert(nb[k + i] == before[k + i].spec_name());
                        assert(nb[k as int] == before[k as int].spec_name());
                        if i > 0 {
                            assert(name_le(nb[k as int], nb[k + i]));
                        }
                    }
                    lemma_with_name_none(post, n);
                }
                assert(with_name(out@, n) + with_name(rest@, n) =~= with_name(before, n) + with_name(
                    rest0,
                    n,
                ));
            }
            vstd::seq_lib::to_multiset_insert(before, k as int, item);
            assert(out@.to_multiset().add(rest@.to_multiset()) =~= orig.to_multiset());
            let n = names_of(out@);
            assert(out@ == before.insert(k as int, item));
            assert forall|i: int, j: int| 0 <= i < j < n.len() implies name_le(
                #[trigger] n[i],
                #[trigger] n[j],
            ) by {
                assert(n[i] == out@[i].spec_name());
                assert(n[j] == out@[j].spec_name());
                if j < k {
                    assert(n[i] == nb[i] && n[j] == nb[j]);
                } else if j == k {
                    assert(n[i] == nb[i] && n[j] == key);
                } else if i < k {
                    assert(n[i] == nb[i] && n[j] == nb[j - 1]);
                    lemma_bytes_le_transitive(
                        encode_utf8(nb[i]),
                        encode_utf8(key),
                        encode_utf8(nb[j - 1]),
                    );
                } else if i == k {
                    assert(n[i] == key && n[j] == nb[j - 1]);
                } else {
                    assert(n[i] == nb[i - 1] && n[j] == nb[j - 1]);
                }
            }
        }
    }
    proof {
        vstd::seq_lib::to_multiset_len(rest@);
        assert(out@.to_multiset().add(rest@.to_multiset()) =~= out@.to_multiset());
        assert forall|n: Seq<char>| #[trigger] with_name(out@, n) == with_name(orig, n) by {
            lemma_with_name_none(rest@, n);
            assert(with_name(out@, n) + with_name(rest@, n) =~= with_name(out@, n));
        }
    }
    out
}

} // verus!
