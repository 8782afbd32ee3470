use vstd::prelude::*;
use crate::types::PackageJsonParsedObject;
use vstd::utf8::encode_utf8;

verus! {

/// Strict lexicographic order on byte strings, a proper prefix coming first. On UTF-8
/// text this is the order of `str`'s comparison.
pub open spec fn bytes_lt(a: Seq<u8>, b: Seq<u8>) -> bool
    decreases a.len(),
{
    if a.len() == 0 {
        b.len() > 0
    } else if b.len() == 0 {
        false
    } else if a[0] != b[0] {
        a[0] < b[0]
    } else {
        bytes_lt(a.drop_first(), b.drop_first())
    }
}

/// The bytes by which a dependency is ordered: its name in UTF-8.
pub open spec fn name_key(d: PackageJsonParsedObject) -> Seq<u8> {
    encode_utf8(d.package@)
}

/// In a stable sort by name, entry `i` of `s` goes before entry `j`.
pub open spec fn goes_before(s: Seq<PackageJsonParsedObject>, i: int, j: int) -> bool {
    bytes_lt(name_key(s[i]), name_key(s[j])) || (name_key(s[i]) == name_key(s[j]) && i < j)
}

/// `order` lists the positions of `s` as a stable sort by name arranges them.
pub open spec fn is_sorted_order(s: Seq<PackageJsonParsedObject>, order: Seq<usize>) -> bool {
    &&& order.len() == s.len()
    &&& forall|k: int| 0 <= k < order.len() ==> #[trigger] order[k] < s.len()
    &&& forall|a: int, b: int|
        0 <= a < b < order.len() ==> goes_before(s, #[trigger] order[a] as int, #[trigger] order[b] as int)
}

proof fn lemma_lt_irreflexive(a: Seq<u8>)
    ensures
        !bytes_lt(a, a),
    decreases a.len(),
{
    if a.len() > 0 {
        lemma_lt_irreflexive(a.drop_first());
    }
}

proof fn lemma_lt_total(a: Seq<u8>, b: Seq<u8>)
    ensures
        a == b || bytes_lt(a, b) || bytes_lt(b, a),
    decreases a.len(),
{
    if a.len() > 0 && b.len() > 0 && a[0] == b[0] {
        lemma_lt_total(a.drop_first(), b.drop_first());
        if a.drop_first() == b.drop_first() {
            assert(a =~= seq![a[0]] + a.drop_first());
            assert(b =~= seq![b[0]] + b.drop_first());
        }
    } else if a.len() == 0 && b.len() == 0 {
        assert(a =~= b);
    }
}

proof fn lemma_lt_transitive(a: Seq<u8>, b: Seq<u8>, c: Seq<u8>)
    requires
        bytes_lt(a, b),
        bytes_lt(b, c),
    ensures
        bytes_lt(a, c),
    decreases a.len(),
{
    if a.len() > 0 && b.len() > 0 && c.len() > 0 && a[0] == b[0] && b[0] == c[0] {
        lemma_lt_transitive(a.drop_first(), b.drop_first(), c.drop_first());
    }
}

/// Whether `a` comes strictly before `b`.
fn bytes_before(a: &[u8], b: &[u8]) -> (r: bool)
    ensures
        r == bytes_lt(a@, b@),
{
    let mut i: usize = 0;
    proof {
        assert(a@.subrange(0, a@.len() as int) =~= a@);
        assert(b@.subrange(0, b@.len() as int) =~= b@);
    }
    while i < a.len() && i < b.len()
        invariant
            i <= a@.len(),
            i <= b@.len(),
            bytes_lt(a@, b@) == bytes_lt(
                a@.subrange(i as int, a@.len() as int),
                b@.subrange(i as int, b@.len() as int),
            ),
        decreases a@.len() - i,
    {
        let ghost sa = a@.subrange(i as int, a@.len() as int);
        let ghost sb = b@.subrange(i as int, b@.len() as int);
        if a[i] != b[i] {
            return a[i] < b[i];
        }
        proof {
            assert(sa.drop_first() =~= a@.subrange(i + 1, a@.len() as int));
            assert(sb.drop_first() =~= b@.subrange(i + 1, b@.len() as int));
        }
        i = i + 1;
    }
    i < b.len()
}

/// The positions of `s` in the order of a stable sort by name: by name, and where two
/// names are equal, in their order in `s`.
pub fn sorted_order(s: &Vec<PackageJsonParsedObject>) -> (order: Vec<usize>)
    ensures
        is_sorted_order(s@, order@),
{
    let mut order: Vec<usize> = Vec::new();
    let mut i: usize = 0;
    while i < s.len()
        invariant
            i <= s@.len(),
            order@.len() == i,
            forall|k: int| 0 <= k < order@.len() ==> #[trigger] order@[k] < i,
            forall|a: int, b: int|
                0 <= a < b < order@.len() ==> goes_before(s@, #[trigger] order@[a] as int, #[trigger] order@[b] as int),
        decreases s@.len() - i,
    {
        let key = s[i].package.as_str().as_bytes();
        let mut p: usize = 0;
        while p < order.len() && !bytes_before(key, s[order[p]].package.as_str().as_bytes())
            invariant
                i < s@.len(),
                p <= order@.len() == i,
                key@ == name_key(s@[i as int]),
                forall|k: int| 0 <= k < order@.len() ==> #[trigger] order@[k] < i,
                forall|k: int| 0 <= k < p ==> !bytes_lt(name_key(s@[i as int]), #[trigger] name_key(s@[order@[k] as int])),
            decreases order@.len() - p,
        {
            p = p + 1;
        }
        let ghost old_order = order@;
        proof {
            let ki = name_key(s@[i as int]);
            assert forall|k: int| p <= k < old_order.len() implies bytes_lt(
                ki,
                #[trigger] name_key(s@[old_order[k] as int]),
            ) by {
                if k > p {
                    assert(goes_before(s@, old_order[p as int] as int, old_order[k] as int));
                    let kp = name_key(s@[old_order[p as int] as int]);
                    let kk = name_key(s@[old_order[k] as int]);
                    if bytes_lt(kp, kk) {
                        lemma_lt_transitive(ki, kp, kk);
                    }
                }
            }
            assert forall|k: int| 0 <= k < p implies goes_before(s@, #[trigger] old_order[k] as int, i as int) by {
                lemma_lt_total(name_key(s@[old_order[k] as int]), name_key(s@[i as int]));
            }
        }
        order.insert(p, i);
        proof {
            assert forall|a: int, b: int|
                0 <= a < b < order@.len() implies goes_before(s@, #[trigger] order@[a] as int, #[trigger] order@[b] as int) by {
                if a < p && b < p {
                    assert(order@[a] == old_order[a] && order@[b] == old_order[b]);
                } else if a < p && b == p {
                    assert(order@[a] == old_order[a]);
                } else if a < p {
                    assert(order@[a] == old_order[a] && order@[b] == old_order[b - 1]);
                } else if a == p {
                    assert(order@[b] == old_order[b - 1]);
                } else {
                    assert(order@[a] == old_order[a - 1] && order@[b] == old_order[b - 1]);
                }
            }
            assert forall|k: int| 0 <= k < order@.len() implies #[trigger] order@[k] < i + 1 by {
                if k < p {
                    assert(order@[k] == old_order[k]);
                } else if k > p {
                    assert(order@[k] == old_order[k - 1]);
                }
            }
        }
        i = i + 1;
    }
    order
}

/// Two dependency entries name the same package with the same specifier.
pub open spec fn same_dep(a: PackageJsonParsedObject, b: PackageJsonParsedObject) -> bool {
    a.package@ == b.package@ && a.version@ == b.version@
}

/// `out` is `src` in the order of a stable sort by name.
pub open spec fn arranged(src: Seq<PackageJsonParsedObject>, out: Seq<PackageJsonParsedObject>) -> bool {
    exists|o: Seq<usize>|
        #[trigger] is_sorted_order(src, o) && out.len() == o.len() && forall|k: int|
            0 <= k < out.len() ==> same_dep(#[trigger] out[k], src[o[k] as int])
}

/// A copy of `s` sorted by name, stably, comparing names byte by byte.
pub fn sort_by_name(s: &Vec<PackageJsonParsedObject>) -> (r: Vec<PackageJsonParsedObject>)
    ensures
        arranged(s@, r@),
{
    let o = sorted_order(s);
    let mut r: Vec<PackageJsonParsedObject> = Vec::new();
    let mut k: usize = 0;
    while k < o.len()
        invariant
            is_sorted_order(s@, o@),
            k <= o@.len(),
            r@.len() == k,
            forall|m: int| 0 <= m < k ==> same_dep(#[trigger] r@[m], s@[o@[m] as int]),
        decreases o@.len() - k,
    {
        r.push(s[o[k]].duplicate());
        k = k + 1;
    }
    r
}

} // verus!
