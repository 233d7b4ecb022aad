//! Choosing which record files to read for the history: the `.json` files,
//! newest name first, at most a given number.

use vstd::prelude::*;

verus! {

/// Whether `a` sorts strictly before `b`, byte by byte, a proper prefix first
/// (the order of file names in a directory listing's paths).
pub open spec fn bytes_before(a: Seq<u8>, b: Seq<u8>) -> bool
    decreases a.len(),
{
    if b.len() == 0 {
        false
    } else if a.len() == 0 {
        true
    } else if a[0] != b[0] {
        a[0] < b[0]
    } else {
        bytes_before(a.drop_first(), b.drop_first())
    }
}

/// `bytes_before` is irreflexive, asymmetric, transitive and total.
pub proof fn lemma_bytes_order(a: Seq<u8>, b: Seq<u8>, c: Seq<u8>)
    ensures
        !bytes_before(a, a),
        bytes_before(a, b) ==> !bytes_before(b, a),
        bytes_before(a, b) && bytes_before(b, c) ==> bytes_before(a, c),
        a != b ==> bytes_before(a, b) || bytes_before(b, a),
    decreases a.len(),
{
    if a.len() > 0 {
        lemma_bytes_order(a.drop_first(), b.drop_first(), c.drop_first());
        if b.len() > 0 && a[0] == b[0] && a != b {
            assert(a.drop_first() != b.drop_first()) by {
                if a.drop_first() == b.drop_first() {
                    assert(a =~= seq![a[0]] + a.drop_first());
                    assert(b =~= seq![b[0]] + b.drop_first());
                }
            }
        }
    } else {
        if b.len() == 0 {
            assert(a =~= b);
        }
    }
}

/// Whether a file name has the extension `json` as `Path::extension` reads
/// it: it ends in `.json` with something before that dot.
pub open spec fn is_json_name(name: Seq<u8>) -> bool {
    name.len() > 5 && name.subrange(name.len() - 5, name.len() as int) == seq![
        46u8,
        106u8,
        115u8,
        111u8,
        110u8,
    ]
}

/// The `.json` names of `names`, in order.
pub open spec fn json_names(names: Seq<Seq<u8>>) -> Seq<Seq<u8>>
    decreases names.len(),
{
    if names.len() == 0 {
        Seq::empty()
    } else {
        let before = json_names(names.drop_last());
        if is_json_name(names.last()) {
            before.push(names.last())
        } else {
            before
        }
    }
}

/// Whether `names` is ordered newest (largest) first.
pub open spec fn sorted_newest_first(names: Seq<Seq<u8>>) -> bool {
    forall|i: int, j: int|
        #![trigger names[i], names[j]]
        0 <= i < j < names.len() ==> !bytes_before(names[i], names[j])
}

/// The byte sequences held by a sequence of byte vectors.
pub open spec fn byte_views(v: Seq<Vec<u8>>) -> Seq<Seq<u8>> {
    v.map_values(|n: Vec<u8>| n@)
}

fn name_before(a: &Vec<u8>, b: &Vec<u8>) -> (r: bool)
    ensures
        r == bytes_before(a@, b@),
{
    let mut i: usize = 0;
    proof {
        assert(a@.skip(0) =~= a@);
        assert(b@.skip(0) =~= b@);
    }
    while i < a.len() && i < b.len()
        invariant
            i <= a.len(),
            i <= b.len(),
            bytes_before(a@, b@) == bytes_before(a@.skip(i as int), b@.skip(i as int)),
        decreases a.len() - i,
    {
        if a[i] != b[i] {
            return a[i] < b[i];
        }
        proof {
            assert(a@.skip(i as int).drop_first() =~= a@.skip(i + 1));
            assert(b@.skip(i as int).drop_first() =~= b@.skip(i + 1));
        }
        i += 1;
    }
    i < b.len()
}

fn is_json(name: &Vec<u8>) -> (r: bool)
    ensures
        r == is_json_name(name@),
{
    let n = name.len();
    if n <= 5 {
        return false;
    }
    let r = name[n - 5] == 46u8 && name[n - 4] == 106u8 && name[n - 3] == 115u8 && name[n - 2]
        == 111u8 && name[n - 1] == 110u8;
    proof {
        if r {
            assert(name@.subrange(n - 5, n as int) =~= seq![46u8, 106u8, 115u8, 111u8, 110u8]);
        } else {
            let tail = name@.subrange(n - 5, n as int);
            assert(tail[0] == name@[n - 5] && tail[1] == name@[n - 4] && tail[2] == name@[n - 3]
                && tail[3] == name@[n - 2] && tail[4] == name@[n - 1]);
        }
    }
    r
}

fn copy_bytes(v: &Vec<u8>) -> (r: Vec<u8>)
    ensures
        r@ == v@,
{
    let mut r: Vec<u8> = Vec::new();
    for i in 0..v.len()
        invariant
            r@ == v@.take(i as int),
    {
        r.push(v[i]);
        proof {
            assert(v@.take(i + 1) =~= v@.take(i as int).push(v@[i as int]));
        }
    }
    proof {
        assert(v@.take(v@.len() as int) =~= v@);
    }
    r
}

proof fn lemma_insert_keeps_order(s: Seq<Seq<u8>>, p: int, x: Seq<u8>)
    requires
        sorted_newest_first(s),
        0 <= p <= s.len(),
        forall|q: int| 0 <= q < p ==> !bytes_before(#[trigger] s[q], x),
        p < s.len() ==> bytes_before(s[p], x),
    ensures
        sorted_newest_first(s.insert(p, x)),
{
    let t = s.insert(p, x);
    s.insert_ensures(p, x);
    assert forall|i: int, j: int| 0 <= i < j < t.len() implies !bytes_before(
        #[trigger] t[i],
        #[trigger] t[j],
    ) by {
        if j < p {
            assert(t[i] == s[i] && t[j] == s[j]);
        } else if j == p {
            assert(t[i] == s[i]);
        } else if i < p {
            assert(t[i] == s[i] && t[j] == s[j - 1]);
        } else if i == p {
            assert(t[j] == s[j - 1]);
            let y = s[j - 1];
            lemma_bytes_order(y, s[p], x);
            lemma_bytes_order(s[p], y, x);
            lemma_bytes_order(x, y, x);
            if j - 1 > p {
                assert(!bytes_before(s[p], y));
            }
            assert(bytes_before(y, x));
        } else {
            assert(t[i] == s[i - 1] && t[j] == s[j - 1]);
        }
    }
}

/// The names of the record files to read: of `names`, those with the
/// extension `json`, ordered newest (byte-wise largest) first, at most `limit`
/// of them.
pub fn latest_record_names(names: Vec<Vec<u8>>, limit: usize) -> (r: Vec<Vec<u8>>)
    ensures
        exists|all: Seq<Seq<u8>>|
            {
                &&& all.to_multiset() == json_names(byte_views(names@)).to_multiset()
                &&& sorted_newest_first(all)
                &&& byte_views(r@) == all.take(
                    if limit < all.len() {
                        limit as int
                    } else {
                        all.len() as int
                    },
                )
            },
{
    let ghost input = byte_views(names@);
    let mut sorted: Vec<Vec<u8>> = Vec::new();
    proof {
        assert(input.take(0) =~= Seq::<Seq<u8>>::empty());
        assert(byte_views(sorted@) =~= Seq::<Seq<u8>>::empty());
    }
    for i in 0..names.len()
        invariant
            input == byte_views(names@),
            byte_views(sorted@).to_multiset() == json_names(input.take(i as int)).to_multiset(),
            sorted_newest_first(byte_views(sorted@)),
    {
        proof {
            assert(input.take(i + 1).drop_last() =~= input.take(i as int));
            assert(input.take(i + 1).last() == names@[i as int]@);
        }
        if is_json(&names[i]) {
            let name = copy_bytes(&names[i]);
            let mut p: usize = 0;
            while p < sorted.len() && !name_before(&sorted[p], &name)
                invariant
                    p <= sorted.len(),
                    forall|q: int| 0 <= q < p ==> !bytes_before(#[trigger] sorted@[q]@, name@),
                decreases sorted.len() - p,
            {
                p += 1;
            }
            let ghost before = byte_views(sorted@);
            proof {
                assert forall|q: int| 0 <= q < p implies !bytes_before(#[trigger] before[q], name@) by {
                    assert(before[q] == sorted@[q]@);
                }
                if p < sorted.len() {
                    assert(before[p as int] == sorted@[p as int]@);
                }
                lemma_insert_keeps_order(before, p as int, name@);
            }
            sorted.insert(p, name);
            proof {
                assert(byte_views(sorted@) =~= before.insert(p as int, name@));
                vstd::seq_lib::to_multiset_insert(before, p as int, name@);
                vstd::seq_lib::to_multiset_build(json_names(input.take(i as int)), name@);
            }
        }
    }
    proof {
        assert(input.take(names.len() as int) =~= input);
    }
    let ghost all = byte_views(sorted@);
    let keep = if limit < sorted.len() {
        limit
    } else {
        sorted.len()
    };
    sorted.truncate(keep);
    proof {
        assert(byte_views(sorted@) =~= all.take(keep as int));
    }
    sorted
}

} // verus!
