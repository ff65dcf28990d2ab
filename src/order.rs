//! The order of theme names: lexicographic over their UTF-8 bytes, which is
//! how strings are ordered in Rust (case-sensitive, no normalisation).

use vstd::prelude::*;
use vstd::string::StringSliceAdditionalSpecFns;
use vstd::utf8::encode_utf8;

verus! {

broadcast use vstd::seq_lib::group_to_multiset_ensures;

/// Lexicographic `<=` on byte sequences: a proper prefix comes first.
pub open spec fn bytes_le(a: Seq<u8>, b: Seq<u8>) -> bool
    decreases a.len(),
{
    if a.len() == 0 {
        true
    } else if b.len() == 0 {
        false
    } else if a[0] != b[0] {
        a[0] < b[0]
    } else {
        bytes_le(a.drop_first(), b.drop_first())
    }
}

/// `a` sorts no later than `b`.
pub open spec fn name_le(a: Seq<char>, b: Seq<char>) -> bool {
    bytes_le(encode_utf8(a), encode_utf8(b))
}

/// A sequence of names in ascending order.
pub open spec fn names_sorted(s: Seq<Seq<char>>) -> bool {
    forall|i: int, j: int| 0 <= i < j < s.len() ==> name_le(#[trigger] s[i], #[trigger] s[j])
}

/// The names that a vector of strings holds.
pub open spec fn names_of(v: Seq<String>) -> Seq<Seq<char>> {
    v.map_values(|s: String| s@)
}

proof fn lemma_bytes_le_total(a: Seq<u8>, b: Seq<u8>)
    ensures
        bytes_le(a, b) || bytes_le(b, a),
    decreases a.len(),
{
    if a.len() > 0 && b.len() > 0 && a[0] == b[0] {
        lemma_bytes_le_total(a.drop_first(), b.drop_first());
    }
}

proof fn lemma_bytes_le_trans(a: Seq<u8>, b: Seq<u8>, c: Seq<u8>)
    requires
        bytes_le(a, b),
        bytes_le(b, c),
    ensures
        bytes_le(a, c),
    decreases a.len(),
{
    if a.len() > 0 && b.len() > 0 && c.len() > 0 && a[0] == b[0] && b[0] == c[0] {
        lemma_bytes_le_trans(a.drop_first(), b.drop_first(), c.drop_first());
    }
}

/// Whether `a` sorts no later than `b`, comparing their UTF-8 bytes.
pub fn name_leq(a: &str, b: &str) -> (r: bool)
    ensures
        r == name_le(a@, b@),
{
    let x = a.as_bytes();
    let y = b.as_bytes();
    let mut i: usize = 0;
    assert(x@.subrange(0, x@.len() as int) =~= x@);
    assert(y@.subrange(0, y@.len() as int) =~= y@);
    while i < x.len() && i < y.len() && x[i] == y[i]
        invariant
            x@ == a.spec_bytes(),
            y@ == b.spec_bytes(),
            i <= x@.len(),
            i <= y@.len(),
            bytes_le(x@, y@) == bytes_le(x@.subrange(i as int, x@.len() as int), y@.subrange(i as int, y@.len() as int)),
        decreases x.len() - i,
    {
        let ghost xs = x@.subrange(i as int, x@.len() as int);
        let ghost ys = y@.subrange(i as int, y@.len() as int);
        assert(xs.drop_first() =~= x@.subrange(i + 1, x@.len() as int));
        assert(ys.drop_first() =~= y@.subrange(i + 1, y@.len() as int));
        i = i + 1;
    }
    if i == x.len() {
        true
    } else if i == y.len() {
        false
    } else {
        x[i] < y[i]
    }
}

/// Sorts names into ascending order: the result holds the same names, each as
/// often as before, in an order that `name_le` accepts.
pub fn sort_names(v: Vec<String>) -> (r: Vec<String>)
    ensures
        names_of(r@).to_multiset() == names_of(v@).to_multiset(),
        names_sorted(names_of(r@)),
{
    let mut r: Vec<String> = Vec::new();
    let mut i: usize = 0;
    while i < v.len()
        invariant
            i <= v@.len(),
            names_of(r@).to_multiset() == names_of(v@.subrange(0, i as int)).to_multiset(),
            names_sorted(names_of(r@)),
        decreases v.len() - i,
    {
        let x = v[i].clone();
        let mut p: usize = 0;
        while p < r.len() && name_leq(r[p].as_str(), x.as_str())
            invariant
                i < v@.len(),
                p <= r@.len(),
                names_sorted(names_of(r@)),
                names_of(r@).to_multiset() == names_of(v@.subrange(0, i as int)).to_multiset(),
                forall|k: int| 0 <= k < p ==> name_le(#[trigger] r@[k]@, v@[i as int]@),
                x@ == v@[i as int]@,
            decreases r.len() - p,
        {
            p = p + 1;
        }
        proof {
            let rs = names_of(r@);
            let xs = x@;
            if p < r@.len() {
                lemma_bytes_le_total(encode_utf8(rs[p as int]), encode_utf8(xs));
            }
            let ns = rs.insert(p as int, xs);
            assert forall|a: int, b: int| 0 <= a < b < ns.len() implies name_le(#[trigger] ns[a], #[trigger] ns[b]) by {
                if b < p {
                    assert(name_le(rs[a], rs[b]));
                } else if b == p {
                    assert(name_le(r@[a]@, xs));
                } else if a < p {
                    assert(name_le(rs[a], rs[b - 1]));
                } else if a == p {
                    if b - 1 > p {
                        assert(name_le(rs[p as int], rs[b - 1]));
                        lemma_bytes_le_trans(encode_utf8(xs), encode_utf8(rs[p as int]), encode_utf8(ns[b]));
                    }
                } else {
                    assert(name_le(rs[a - 1], rs[b - 1]));
                }
            }
            assert(names_of(v@.subrange(0, i + 1)) =~= names_of(v@.subrange(0, i as int)).push(xs));
            vstd::seq_lib::to_multiset_insert(rs, p as int, xs);
            assert(names_of(r@.insert(p as int, x)) =~= ns);
        }
        r.insert(p, x);
        i = i + 1;
    }
    assert(v@.subrange(0, v@.len() as int) =~= v@);
    r
}

} // verus!
