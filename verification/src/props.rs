//! The properties map of a table-info document: decoded key/value pairs
//! arranged as a duplicate-free association list, sorted by the keys' UTF-8
//! bytes, where a later pair with the same key replaces an earlier one.

use vstd::prelude::*;
use vstd::utf8::encode_utf8;

verus! {

/// Strict lexicographic order on byte sequences: the order in which the
/// serialized document lists its property keys.
pub open spec fn lex_lt(a: Seq<u8>, b: Seq<u8>) -> bool
    decreases a.len(),
{
    if b.len() == 0 {
        false
    } else if a.len() == 0 {
        true
    } else if a[0] < b[0] {
        true
    } else if a[0] > b[0] {
        false
    } else {
        lex_lt(a.skip(1), b.skip(1))
    }
}

/// The sort key of a property pair: the UTF-8 bytes of its key text.
pub open spec fn key_bytes(p: (String, String)) -> Seq<u8> {
    encode_utf8(p.0@)
}

/// `lex_lt` never orders a sequence before itself.
pub proof fn lemma_lex_irrefl(a: Seq<u8>)
    ensures
        !lex_lt(a, a),
    decreases a.len(),
{
    if a.len() != 0 {
        lemma_lex_irrefl(a.skip(1));
    }
}

/// `lex_lt` is transitive.
pub proof fn lemma_lex_trans(a: Seq<u8>, b: Seq<u8>, c: Seq<u8>)
    requires
        lex_lt(a, b),
        lex_lt(b, c),
    ensures
        lex_lt(a, c),
    decreases a.len(),
{
    if a.len() != 0 && b.len() != 0 && c.len() != 0 {
        if a[0] == b[0] && b[0] == c[0] {
            lemma_lex_trans(a.skip(1), b.skip(1), c.skip(1));
        }
    }
}

/// Ordered sequences differ.
pub proof fn lemma_lex_neq(a: Seq<u8>, b: Seq<u8>)
    requires
        lex_lt(a, b),
    ensures
        a != b,
{
    if a == b {
        lemma_lex_irrefl(a);
    }
}

/// Sequences that agree below `k` and differ at `k` are ordered by the bytes
/// at `k`.
proof fn lemma_lex_from_diff(a: Seq<u8>, b: Seq<u8>, k: int)
    requires
        0 <= k < a.len(),
        k < b.len(),
        forall|j: int| 0 <= j < k ==> a[j] == b[j],
        a[k] < b[k],
    ensures
        lex_lt(a, b),
    decreases k,
{
    if k > 0 {
        assert(a[0] == b[0]);
        assert(forall|j: int| 0 <= j < k - 1 ==> a.skip(1)[j] == b.skip(1)[j]);
        assert(a.skip(1)[k - 1] == a[k]);
        lemma_lex_from_diff(a.skip(1), b.skip(1), k - 1);
    }
}

/// A strict prefix comes first in lexicographic order.
proof fn lemma_lex_prefix(a: Seq<u8>, b: Seq<u8>)
    requires
        a.len() < b.len(),
        forall|j: int| 0 <= j < a.len() ==> a[j] == b[j],
    ensures
        lex_lt(a, b),
    decreases a.len(),
{
    if a.len() > 0 {
        assert(forall|j: int| 0 <= j < a.len() - 1 ==> a.skip(1)[j] == b.skip(1)[j]);
        lemma_lex_prefix(a.skip(1), b.skip(1));
    }
}

/// Outcome of comparing two property keys.
#[derive(Clone, Copy, Debug, PartialEq, Eq, Structural)]
pub enum KeyOrder {
    Less,
    Equal,
    Greater,
}

/// Compares two texts by the lexicographic order of their UTF-8 bytes.
pub fn key_cmp(a: &str, b: &str) -> (r: KeyOrder)
    ensures
        r == KeyOrder::Less ==> lex_lt(encode_utf8(a@), encode_utf8(b@)),
        r == KeyOrder::Greater ==> lex_lt(encode_utf8(b@), encode_utf8(a@)),
        r == KeyOrder::Equal ==> encode_utf8(a@) == encode_utf8(b@),
{
    let ab = a.as_bytes();
    let bb = b.as_bytes();
    let la = ab.len();
    let lb = bb.len();
    let mut i: usize = 0;
    while i < la && i < lb
        invariant
            i <= la,
            i <= lb,
            la == ab@.len(),
            lb == bb@.len(),
            ab@ == encode_utf8(a@),
            bb@ == encode_utf8(b@),
            forall|j: int| 0 <= j < i ==> ab@[j] == bb@[j],
        decreases la - i,
    {
        let x = *vstd::slice::slice_index_get(ab, i);
        let y = *vstd::slice::slice_index_get(bb, i);
        if x < y {
            proof {
                lemma_lex_from_diff(ab@, bb@, i as int);
            }
            return KeyOrder::Less;
        }
        if y < x {
            proof {
                lemma_lex_from_diff(bb@, ab@, i as int);
            }
            return KeyOrder::Greater;
        }
        i = i + 1;
    }
    if la == lb {
        proof {
            assert(ab@ =~= bb@);
        }
        KeyOrder::Equal
    } else if la < lb {
        proof {
            lemma_lex_prefix(ab@, bb@);
        }
        KeyOrder::Less
    } else {
        proof {
            lemma_lex_prefix(bb@, ab@);
        }
        KeyOrder::Greater
    }
}

/// The last-write-wins map described by a sequence of decoded key/value
/// pairs: each key's UTF-8 bytes map to the key and value text of the last
/// pair carrying that key.
pub open spec fn props_map(ps: Seq<(String, String)>) -> Map<Seq<u8>, (Seq<char>, Seq<char>)>
    decreases ps.len(),
{
    if ps.len() == 0 {
        Map::empty()
    } else {
        props_map(ps.drop_last()).insert(
            key_bytes(ps.last()),
            (ps.last().0@, ps.last().1@),
        )
    }
}

/// The keys of `r` are strictly increasing in lexicographic byte order; in
/// particular they are all distinct.
pub open spec fn strictly_sorted(r: Seq<(String, String)>) -> bool {
    forall|i: int, j: int|
        0 <= i < j < r.len() ==> lex_lt(key_bytes(#[trigger] r[i]), key_bytes(#[trigger] r[j]))
}

/// `r` is the sorted association-list form of the last-write-wins map of
/// `ps`: sorted with distinct keys, every entry of `r` is a key of the map
/// carrying the map's key and value text, and every key of the map occurs
/// in `r`.
pub open spec fn sorted_dedup_rel(ps: Seq<(String, String)>, r: Seq<(String, String)>) -> bool {
    &&& strictly_sorted(r)
    &&& forall|i: int|
        0 <= i < r.len() ==> props_map(ps).contains_key(key_bytes(#[trigger] r[i]))
            && props_map(ps)[key_bytes(r[i])] == (r[i].0@, r[i].1@)
    &&& forall|k: Seq<u8>|
        #[trigger] props_map(ps).contains_key(k) ==> exists|i: int|
            0 <= i < r.len() && key_bytes(#[trigger] r[i]) == k
}

/// One association list's entries all lie in `m` with matching key and
/// value text.
pub open spec fn entries_match(
    m: Map<Seq<u8>, (Seq<char>, Seq<char>)>,
    r: Seq<(String, String)>,
) -> bool {
    forall|i: int|
        0 <= i < r.len() ==> m.contains_key(key_bytes(#[trigger] r[i])) && m[key_bytes(r[i])] == (
        r[i].0@,
        r[i].1@,
        )
}

/// Every key of `m` occurs in the association list `r`.
pub open spec fn keys_covered(m: Map<Seq<u8>, (Seq<char>, Seq<char>)>, r: Seq<(String, String)>) -> bool {
    forall|k: Seq<u8>|
        #[trigger] m.contains_key(k) ==> exists|i: int| 0 <= i < r.len() && key_bytes(#[trigger] r[i]) == k
}

/// A strictly sorted association list form of a map is unique up to the key
/// and value text of its entries: any two such lists agree pointwise.
pub proof fn lemma_sorted_assoc_unique(
    m: Map<Seq<u8>, (Seq<char>, Seq<char>)>,
    r1: Seq<(String, String)>,
    r2: Seq<(String, String)>,
)
    requires
        strictly_sorted(r1),
        strictly_sorted(r2),
        entries_match(m, r1),
        entries_match(m, r2),
        keys_covered(m, r1),
        keys_covered(m, r2),
    ensures
        r1.len() == r2.len(),
        forall|i: int|
            0 <= i < r1.len() ==> key_bytes(#[trigger] r1[i]) == key_bytes(r2[i]) && r1[i].0@
                == r2[i].0@ && r1[i].1@ == r2[i].1@,
    decreases r1.len(),
{
    if r1.len() == 0 {
        if r2.len() > 0 {
            assert(m.contains_key(key_bytes(r2[0])));
            assert(false);
        }
    } else if r2.len() == 0 {
        assert(m.contains_key(key_bytes(r1[0])));
        assert(false);
    } else {
        let k1 = key_bytes(r1[0]);
        let k2 = key_bytes(r2[0]);
        if k1 != k2 {
            assert(m.contains_key(k1));
            let i2 = choose|i: int| 0 <= i < r2.len() && key_bytes(#[trigger] r2[i]) == k1;
            assert(i2 > 0);
            assert(lex_lt(k2, k1));
            assert(m.contains_key(k2));
            let i1 = choose|i: int| 0 <= i < r1.len() && key_bytes(#[trigger] r1[i]) == k2;
            assert(i1 > 0);
            assert(lex_lt(k1, k2));
            lemma_lex_trans(k1, k2, k1);
            lemma_lex_irrefl(k1);
            assert(false);
        }
        let m2 = m.remove(k1);
        let t1 = r1.skip(1);
        let t2 = r2.skip(1);
        assert forall|i: int| 0 <= i < t1.len() implies m2.contains_key(
            key_bytes(#[trigger] t1[i]),
        ) && m2[key_bytes(t1[i])] == (t1[i].0@, t1[i].1@) by {
            assert(t1[i] == r1[i + 1]);
            assert(lex_lt(k1, key_bytes(r1[i + 1])));
            lemma_lex_neq(k1, key_bytes(r1[i + 1]));
        }
        assert forall|i: int| 0 <= i < t2.len() implies m2.contains_key(
            key_bytes(#[trigger] t2[i]),
        ) && m2[key_bytes(t2[i])] == (t2[i].0@, t2[i].1@) by {
            assert(t2[i] == r2[i + 1]);
            assert(lex_lt(k2, key_bytes(r2[i + 1])));
            lemma_lex_neq(k2, key_bytes(r2[i + 1]));
        }
        assert forall|k: Seq<u8>| #[trigger] m2.contains_key(k) implies exists|i: int|
            0 <= i < t1.len() && key_bytes(#[trigger] t1[i]) == k by {
            assert(m.contains_key(k));
            let i = choose|i: int| 0 <= i < r1.len() && key_bytes(#[trigger] r1[i]) == k;
            assert(i > 0);
            assert(key_bytes(t1[i - 1]) == k);
        }
        assert forall|k: Seq<u8>| #[trigger] m2.contains_key(k) implies exists|i: int|
            0 <= i < t2.len() && key_bytes(#[trigger] t2[i]) == k by {
            assert(m.contains_key(k));
            let i = choose|i: int| 0 <= i < r2.len() && key_bytes(#[trigger] r2[i]) == k;
            assert(i > 0);
            assert(key_bytes(t2[i - 1]) == k);
        }
        assert forall|i1: int, i2: int| 0 <= i1 < i2 < t1.len() implies lex_lt(
            key_bytes(#[trigger] t1[i1]),
            key_bytes(#[trigger] t1[i2]),
        ) by {
            assert(t1[i1] == r1[i1 + 1] && t1[i2] == r1[i2 + 1]);
        }
        assert forall|i1: int, i2: int| 0 <= i1 < i2 < t2.len() implies lex_lt(
            key_bytes(#[trigger] t2[i1]),
            key_bytes(#[trigger] t2[i2]),
        ) by {
            assert(t2[i1] == r2[i1 + 1] && t2[i2] == r2[i2 + 1]);
        }
        lemma_sorted_assoc_unique(m2, t1, t2);
        assert(m[k1] == (r1[0].0@, r1[0].1@) && m[k1] == (r2[0].0@, r2[0].1@));
        assert forall|i: int| 0 <= i < r1.len() implies key_bytes(#[trigger] r1[i]) == key_bytes(
            r2[i],
        ) && r1[i].0@ == r2[i].0@ && r1[i].1@ == r2[i].1@ by {
            if i > 0 {
                assert(t1[i - 1] == r1[i] && t2[i - 1] == r2[i]);
            }
        }
    }
}

/// Arranging the same decoded pairs twice yields the same list, entry for
/// entry: repeated extraction of one record is deterministic.
pub proof fn lemma_sorted_dedup_unique(
    ps: Seq<(String, String)>,
    r1: Seq<(String, String)>,
    r2: Seq<(String, String)>,
)
    requires
        sorted_dedup_rel(ps, r1),
        sorted_dedup_rel(ps, r2),
    ensures
        r1.len() == r2.len(),
        forall|i: int|
            0 <= i < r1.len() ==> key_bytes(#[trigger] r1[i]) == key_bytes(r2[i]) && r1[i].0@
                == r2[i].0@ && r1[i].1@ == r2[i].1@,
{
    lemma_sorted_assoc_unique(props_map(ps), r1, r2);
}

/// Arranges decoded property pairs as the serialized document lists them:
/// sorted by key bytes, duplicate keys collapsed so that the last pair wins.
pub fn sort_properties(props: &Vec<(String, String)>) -> (r: Vec<(String, String)>)
    ensures
        sorted_dedup_rel(props@, r@),
{
    let mut acc: Vec<(String, String)> = Vec::new();
    let n = props.len();
    let mut t: usize = 0;
    proof {
        assert(props@.take(0) =~= Seq::<(String, String)>::empty());
    }
    while t < n
        invariant
            t <= n,
            n == props@.len(),
            sorted_dedup_rel(props@.take(t as int), acc@),
        decreases n - t,
    {
        let ghost pre = props@.take(t as int);
        let ghost post = props@.take(t as int + 1);
        let ghost m = props_map(pre);
        proof {
            assert(post.drop_last() =~= pre);
            assert(post.last() == props@[t as int]);
        }
        let p = (props[t].0.clone(), props[t].1.clone());
        let ghost kk = key_bytes(p);
        proof {
            assert(p.0 == props@[t as int].0 && p.1 == props@[t as int].1);
            assert(props_map(post) == m.insert(kk, (p.0@, p.1@)));
        }
        let (j, found) = find_slot(&acc, p.0.as_str());
        let ghost old_acc = acc@;
        if found {
            proof {
                assert(key_bytes(old_acc[j as int]) == kk);
            }
            acc[j] = p;
            proof {
                lemma_update_keeps_rel(pre, post, old_acc, acc@, j as int, kk);
            }
        } else {
            proof {
                assert forall|i: int| j <= i < old_acc.len() implies lex_lt(
                    kk,
                    key_bytes(old_acc[i]),
                ) by {
                    if i > j {
                        lemma_lex_trans(kk, key_bytes(old_acc[j as int]), key_bytes(old_acc[i]));
                    }
                }
            }
            acc.insert(j, p);
            proof {
                lemma_insert_keeps_rel(pre, post, old_acc, acc@, j as int, kk);
            }
        }
        t = t + 1;
    }
    proof {
        assert(props@.take(n as int) =~= props@);
    }
    acc
}

/// Finds where a key belongs in the sorted accumulator: the index of the
/// entry with the same key bytes (found = true), or the insertion point
/// before the first larger key (found = false).
fn find_slot(acc: &Vec<(String, String)>, key: &str) -> (res: (usize, bool))
    requires
        strictly_sorted(acc@),
    ensures
        res.0 <= acc@.len(),
        forall|jj: int| 0 <= jj < res.0 ==> lex_lt(key_bytes(#[trigger] acc@[jj]), encode_utf8(key@)),
        res.1 ==> res.0 < acc@.len() && key_bytes(acc@[res.0 as int]) == encode_utf8(key@),
        !res.1 && res.0 < acc@.len() ==> lex_lt(encode_utf8(key@), key_bytes(acc@[res.0 as int])),
{
    let mut j: usize = 0;
    let len = acc.len();
    while j < len
        invariant
            j <= len,
            len == acc@.len(),
            forall|jj: int| 0 <= jj < j ==> lex_lt(key_bytes(#[trigger] acc@[jj]), encode_utf8(key@)),
        decreases len - j,
    {
        match key_cmp(acc[j].0.as_str(), key) {
            KeyOrder::Less => {
                j = j + 1;
            },
            KeyOrder::Equal => {
                return (j, true);
            },
            KeyOrder::Greater => {
                return (j, false);
            },
        }
    }
    (j, false)
}

/// Overwriting the entry that already carries the new pair's key keeps the
/// accumulator in sorted last-write-wins form when one more input pair is
/// taken in.
proof fn lemma_update_keeps_rel(
    pre: Seq<(String, String)>,
    post: Seq<(String, String)>,
    old_acc: Seq<(String, String)>,
    new_acc: Seq<(String, String)>,
    j: int,
    kk: Seq<u8>,
)
    requires
        sorted_dedup_rel(pre, old_acc),
        0 <= j < old_acc.len(),
        key_bytes(old_acc[j]) == kk,
        new_acc == old_acc.update(j, new_acc[j]),
        key_bytes(new_acc[j]) == kk,
        props_map(post) == props_map(pre).insert(kk, (new_acc[j].0@, new_acc[j].1@)),
    ensures
        sorted_dedup_rel(post, new_acc),
{
    let m = props_map(pre);
    let m2 = props_map(post);
    assert(new_acc.len() == old_acc.len());
    assert forall|i1: int, i2: int| 0 <= i1 < i2 < new_acc.len() implies lex_lt(
        key_bytes(new_acc[i1]),
        key_bytes(new_acc[i2]),
    ) by {
        assert(key_bytes(new_acc[i1]) == key_bytes(old_acc[i1]));
        assert(key_bytes(new_acc[i2]) == key_bytes(old_acc[i2]));
    }
    assert forall|i: int| 0 <= i < new_acc.len() implies m2.contains_key(
        key_bytes(new_acc[i]),
    ) && m2[key_bytes(new_acc[i])] == (new_acc[i].0@, new_acc[i].1@) by {
        if i != j {
            if i < j {
                lemma_lex_neq(key_bytes(old_acc[i]), kk);
            } else {
                lemma_lex_neq(kk, key_bytes(old_acc[i]));
            }
            assert(key_bytes(new_acc[i]) == key_bytes(old_acc[i]));
        }
    }
    assert forall|k: Seq<u8>| #[trigger] m2.contains_key(k) implies exists|i: int|
        0 <= i < new_acc.len() && key_bytes(#[trigger] new_acc[i]) == k by {
        if k == kk {
            assert(key_bytes(new_acc[j]) == k);
        } else {
            assert(m.contains_key(k));
            let i = choose|i: int| 0 <= i < old_acc.len() && key_bytes(#[trigger] old_acc[i]) == k;
            assert(i != j);
            assert(key_bytes(new_acc[i]) == k);
        }
    }
}

/// Inserting the new pair at its sorted position keeps the accumulator in
/// sorted last-write-wins form when one more input pair is taken in; the
/// pair's key was not present before.
proof fn lemma_insert_keeps_rel(
    pre: Seq<(String, String)>,
    post: Seq<(String, String)>,
    old_acc: Seq<(String, String)>,
    new_acc: Seq<(String, String)>,
    j: int,
    kk: Seq<u8>,
)
    requires
        sorted_dedup_rel(pre, old_acc),
        0 <= j <= old_acc.len(),
        forall|jj: int| 0 <= jj < j ==> lex_lt(key_bytes(#[trigger] old_acc[jj]), kk),
        forall|jj: int| j <= jj < old_acc.len() ==> lex_lt(kk, key_bytes(#[trigger] old_acc[jj])),
        new_acc == old_acc.insert(j, new_acc[j]),
        key_bytes(new_acc[j]) == kk,
        props_map(post) == props_map(pre).insert(kk, (new_acc[j].0@, new_acc[j].1@)),
    ensures
        sorted_dedup_rel(post, new_acc),
{
    let m = props_map(pre);
    let m2 = props_map(post);
    assert(new_acc.len() == old_acc.len() + 1);
    assert forall|i: int| 0 <= i < new_acc.len() && i != j implies key_bytes(new_acc[i])
        == key_bytes(old_acc[if i < j { i } else { i - 1 }]) by {
        if i < j {
            assert(new_acc[i] == old_acc[i]);
        } else {
            assert(new_acc[i] == old_acc[i - 1]);
        }
    }
    assert forall|i1: int, i2: int| 0 <= i1 < i2 < new_acc.len() implies lex_lt(
        key_bytes(new_acc[i1]),
        key_bytes(new_acc[i2]),
    ) by {
        if i1 == j {
            assert(lex_lt(kk, key_bytes(old_acc[i2 - 1])));
        } else if i2 == j {
            assert(lex_lt(key_bytes(old_acc[i1]), kk));
        } else if i2 < j {
            assert(lex_lt(key_bytes(old_acc[i1]), key_bytes(old_acc[i2])));
        } else if i1 > j {
            assert(lex_lt(key_bytes(old_acc[i1 - 1]), key_bytes(old_acc[i2 - 1])));
        } else {
            assert(i1 < j && i2 > j);
            lemma_lex_trans(key_bytes(old_acc[i1]), kk, key_bytes(old_acc[i2 - 1]));
        }
    }
    assert forall|i: int| 0 <= i < new_acc.len() implies m2.contains_key(
        key_bytes(new_acc[i]),
    ) && m2[key_bytes(new_acc[i])] == (new_acc[i].0@, new_acc[i].1@) by {
        if i != j {
            let io = if i < j {
                i
            } else {
                i - 1
            };
            if io < j {
                lemma_lex_neq(key_bytes(old_acc[io]), kk);
            } else {
                lemma_lex_neq(kk, key_bytes(old_acc[io]));
            }
            assert(m.contains_key(key_bytes(old_acc[io])));
        }
    }
    assert forall|k: Seq<u8>| #[trigger] m2.contains_key(k) implies exists|i: int|
        0 <= i < new_acc.len() && key_bytes(#[trigger] new_acc[i]) == k by {
        if k == kk {
            assert(key_bytes(new_acc[j]) == k);
        } else {
            assert(m.contains_key(k));
            let i = choose|i: int| 0 <= i < old_acc.len() && key_bytes(#[trigger] old_acc[i]) == k;
            if i < j {
                assert(key_bytes(new_acc[i]) == k);
            } else {
                assert(key_bytes(new_acc[i + 1]) == k);
            }
        }
    }
}

} // verus!
