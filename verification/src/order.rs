//! Stable sorting by keys: the order in which the dashboard lists
//! repositories, and its proof.
use vstd::prelude::*;

verus! {

/// `a` comes before `b` in the lexicographic order of their characters'
/// code points, which is the order `String`'s `Ord` gives (UTF-8 keeps the
/// order of code points).
pub open spec fn lex_lt(a: Seq<char>, b: Seq<char>) -> bool
    decreases a.len(),
{
    if a.len() == 0 {
        b.len() > 0
    } else if b.len() == 0 {
        false
    } else if a[0] != b[0] {
        (a[0] as u32) < (b[0] as u32)
    } else {
        lex_lt(a.drop_first(), b.drop_first())
    }
}

/// No text comes before itself, and of two texts at most one comes first.
pub proof fn lemma_lex_asymmetric(a: Seq<char>, b: Seq<char>)
    ensures
        lex_lt(a, b) ==> !lex_lt(b, a),
    decreases a.len(),
{
    if a.len() > 0 && b.len() > 0 && a[0] == b[0] {
        lemma_lex_asymmetric(a.drop_first(), b.drop_first());
    }
}

/// The lexicographic order is transitive.
pub proof fn lemma_lex_transitive(a: Seq<char>, b: Seq<char>, c: Seq<char>)
    requires
        lex_lt(a, b),
        lex_lt(b, c),
    ensures
        lex_lt(a, c),
    decreases a.len(),
{
    if a.len() > 0 && b.len() > 0 && c.len() > 0 && a[0] == b[0] && b[0] == c[0] {
        lemma_lex_transitive(a.drop_first(), b.drop_first(), c.drop_first());
    }
}

/// Of two different texts, one comes before the other.
pub proof fn lemma_lex_total(a: Seq<char>, b: Seq<char>)
    ensures
        a =~= b || lex_lt(a, b) || lex_lt(b, a),
    decreases a.len(),
{
    if a.len() > 0 && b.len() > 0 {
        if a[0] == b[0] {
            lemma_lex_total(a.drop_first(), b.drop_first());
            if a.drop_first() =~= b.drop_first() {
                assert forall|i: int| 0 <= i < a.len() implies a[i] == b[i] by {
                    if i > 0 {
                        assert(a[i] == a.drop_first()[i - 1]);
                        assert(b[i] == b.drop_first()[i - 1]);
                    }
                }
            }
        } else {
            vstd::utf8::char_u32_cast(a[0], a[0] as u32);
            vstd::utf8::char_u32_cast(b[0], b[0] as u32);
        }
    }
}

/// A key of the sort, as text or as a number that sorts largest first.
pub enum SortKey {
    Text(Vec<char>),
    Descending(i64),
}

/// A sort key as a mathematical value.
pub enum KeyModel {
    Text(Seq<char>),
    Descending(int),
}

impl View for SortKey {
    type V = KeyModel;

    open spec fn view(&self) -> KeyModel {
        match self {
            SortKey::Text(t) => KeyModel::Text(t@),
            SortKey::Descending(n) => KeyModel::Descending(*n as int),
        }
    }
}

/// Whether the key `a` sorts strictly before the key `b`: texts in
/// lexicographic order, numbers largest first, and every text before every
/// number.
pub open spec fn key_lt(a: KeyModel, b: KeyModel) -> bool {
    match (a, b) {
        (KeyModel::Text(x), KeyModel::Text(y)) => lex_lt(x, y),
        (KeyModel::Descending(x), KeyModel::Descending(y)) => x > y,
        (KeyModel::Text(_), KeyModel::Descending(_)) => true,
        (KeyModel::Descending(_), KeyModel::Text(_)) => false,
    }
}

/// `key_lt` is asymmetric.
pub proof fn lemma_key_asymmetric(a: KeyModel, b: KeyModel)
    ensures
        key_lt(a, b) ==> !key_lt(b, a),
{
    match (a, b) {
        (KeyModel::Text(x), KeyModel::Text(y)) => lemma_lex_asymmetric(x, y),
        _ => {},
    }
}

/// Not sorting before is transitive: `key_lt` is a strict weak order.
pub proof fn lemma_key_not_lt_transitive(a: KeyModel, b: KeyModel, c: KeyModel)
    requires
        !key_lt(a, b),
        !key_lt(b, c),
    ensures
        !key_lt(a, c),
{
    match (a, b, c) {
        (KeyModel::Text(x), KeyModel::Text(y), KeyModel::Text(z)) => {
            lemma_lex_total(x, y);
            lemma_lex_total(y, z);
            lemma_lex_asymmetric(x, z);
            lemma_lex_asymmetric(z, x);
            if lex_lt(y, x) && lex_lt(z, y) {
                lemma_lex_transitive(z, y, x);
            }
            if x =~= y && lex_lt(z, y) {
                assert(lex_lt(z, x));
            }
            if lex_lt(y, x) && y =~= z {
                assert(lex_lt(z, x));
            }
            if x =~= y && y =~= z {
                assert(x =~= z);
                lemma_lex_asymmetric(x, x);
            }
        },
        _ => {},
    }
}

/// The models of a list of keys.
pub open spec fn key_models(keys: Seq<SortKey>) -> Seq<KeyModel> {
    keys.map_values(|k: SortKey| k@)
}

/// The positions of an order as integers.
pub open spec fn positions(ord: Seq<usize>) -> Seq<int> {
    ord.map_values(|i: usize| i as int)
}

/// `ord` lists each position of `keys` exactly once, the keys in sorted order
/// and, among equal keys, the positions in their original order: it is the
/// order that a stable sort by these keys gives.
pub open spec fn is_stable_order(keys: Seq<KeyModel>, ord: Seq<int>) -> bool {
    &&& ord.len() == keys.len()
    &&& forall|a: int| 0 <= a < ord.len() ==> 0 <= #[trigger] ord[a] < keys.len()
    &&& forall|a: int, b: int| 0 <= a < b < ord.len() ==> ord[a] != ord[b]
    &&& forall|a: int, b: int|
        0 <= a < b < ord.len() ==> !key_lt(#[trigger] keys[ord[b]], #[trigger] keys[ord[a]])
    &&& forall|a: int, b: int|
        0 <= a < b < ord.len() && !key_lt(keys[ord[a]], keys[ord[b]]) ==> #[trigger] ord[a]
            < #[trigger] ord[b]
}

/// Whether text `a` sorts strictly before text `b`.
pub fn text_lt(a: &[char], b: &[char]) -> (r: bool)
    ensures
        r == lex_lt(a@, b@),
{
    let n = a.len();
    let m = b.len();
    let mut i: usize = 0;
    assert(a@.skip(0) =~= a@);
    assert(b@.skip(0) =~= b@);
    while i < n && i < m && a[i] == b[i]
        invariant
            i <= n == a@.len(),
            i <= m == b@.len(),
            lex_lt(a@, b@) == lex_lt(a@.skip(i as int), b@.skip(i as int)),
        decreases n - i,
    {
        assert(a@.skip(i as int).drop_first() =~= a@.skip(i + 1));
        assert(b@.skip(i as int).drop_first() =~= b@.skip(i + 1));
        i = i + 1;
    }
    if i == n {
        i < m
    } else if i == m {
        false
    } else {
        assert(a@.skip(i as int)[0] == a@[i as int]);
        assert(b@.skip(i as int)[0] == b@[i as int]);
        (a[i] as u32) < (b[i] as u32)
    }
}

/// Whether key `a` sorts strictly before key `b`.
pub fn key_before(a: &SortKey, b: &SortKey) -> (r: bool)
    ensures
        r == key_lt(a@, b@),
{
    match (a, b) {
        (SortKey::Text(x), SortKey::Text(y)) => text_lt(x.as_slice(), y.as_slice()),
        (SortKey::Descending(x), SortKey::Descending(y)) => *x > *y,
        (SortKey::Text(_), SortKey::Descending(_)) => true,
        (SortKey::Descending(_), SortKey::Text(_)) => false,
    }
}


/// `o` is a stable order of the first `i` keys of `ks`.
pub open spec fn is_prefix_order(ks: Seq<KeyModel>, o: Seq<int>, i: int) -> bool {
    &&& o.len() == i
    &&& forall|a: int| 0 <= a < i ==> 0 <= #[trigger] o[a] < i
    &&& forall|a: int, b: int| 0 <= a < b < i ==> #[trigger] o[a] != #[trigger] o[b]
    &&& forall|a: int, b: int|
        0 <= a < b < i ==> !key_lt(ks[#[trigger] o[b]], ks[#[trigger] o[a]])
    &&& forall|a: int, b: int|
        0 <= a < b < i && !key_lt(ks[#[trigger] o[a]], ks[#[trigger] o[b]]) ==> o[a] < o[b]
}

/// Inserting position `i` at index `p` of a stable order of the first `i`
/// keys, after every entry whose key does not come after key `i` and before
/// the first whose key does, gives a stable order of the first `i + 1` keys.
proof fn lemma_insert_step(ks: Seq<KeyModel>, o: Seq<int>, i: int, p: int)
    requires
        is_prefix_order(ks, o, i),
        0 <= i < ks.len(),
        0 <= p <= i,
        forall|q: int| 0 <= q < p ==> !key_lt(ks[i], ks[#[trigger] o[q]]),
        p < i ==> key_lt(ks[i], ks[o[p]]),
    ensures
        is_prefix_order(ks, o.insert(p, i), i + 1),
{
    let x = ks[i];
    assert forall|q: int| p <= q < i implies key_lt(x, ks[#[trigger] o[q]]) by {
        if q > p {
            assert(!key_lt(ks[o[q]], ks[o[p]]));
            if !key_lt(x, ks[o[q]]) {
                lemma_key_not_lt_transitive(x, ks[o[q]], ks[o[p]]);
            }
        }
    }
    let o2 = o.insert(p, i);
    assert forall|a: int| 0 <= a < i + 1 implies 0 <= #[trigger] o2[a] < i + 1 by {
        if a > p {
            assert(o2[a] == o[a - 1]);
        }
    }
    assert forall|a: int, b: int| 0 <= a < b < i + 1 implies #[trigger] o2[a]
        != #[trigger] o2[b] by {
        if a < p && b > p {
            assert(o2[b] == o[b - 1]);
        } else if a > p {
            assert(o2[a] == o[a - 1]);
            assert(o2[b] == o[b - 1]);
        } else if a == p {
            assert(o2[b] == o[b - 1]);
        }
    }
    assert forall|a: int, b: int| 0 <= a < b < i + 1 implies !key_lt(
        ks[#[trigger] o2[b]],
        ks[#[trigger] o2[a]],
    ) by {
        if b < p {
        } else if b == p {
            assert(!key_lt(x, ks[o[a]]));
        } else if a < p {
            assert(o2[b] == o[b - 1]);
        } else if a == p {
            assert(o2[b] == o[b - 1]);
            assert(key_lt(x, ks[o[b - 1]]));
            lemma_key_asymmetric(x, ks[o[b - 1]]);
        } else {
            assert(o2[a] == o[a - 1]);
            assert(o2[b] == o[b - 1]);
        }
    }
    assert forall|a: int, b: int|
        0 <= a < b < i + 1 && !key_lt(ks[#[trigger] o2[a]], ks[#[trigger] o2[b]]) implies o2[a]
        < o2[b] by {
        if b < p {
        } else if b == p {
        } else if a < p {
            assert(o2[b] == o[b - 1]);
        } else if a == p {
            assert(o2[b] == o[b - 1]);
            assert(key_lt(x, ks[o[b - 1]]));
        } else {
            assert(o2[a] == o[a - 1]);
            assert(o2[b] == o[b - 1]);
        }
    }
}

/// The index at which key `x` goes into the order `o`: the first from `q` on
/// whose key comes after `x`, or the end.
spec fn insert_index(ks: Seq<KeyModel>, o: Seq<int>, x: KeyModel, q: int) -> int
    decreases o.len() - q,
{
    if q < 0 || q >= o.len() {
        o.len() as int
    } else if key_lt(x, ks[o[q]]) {
        q
    } else {
        insert_index(ks, o, x, q + 1)
    }
}

proof fn lemma_insert_index(ks: Seq<KeyModel>, o: Seq<int>, x: KeyModel, q: int)
    requires
        0 <= q <= o.len(),
    ensures
        q <= insert_index(ks, o, x, q) <= o.len(),
        forall|k: int| q <= k < insert_index(ks, o, x, q) ==> !key_lt(x, ks[#[trigger] o[k]]),
        insert_index(ks, o, x, q) < o.len() ==> key_lt(x, ks[o[insert_index(ks, o, x, q)]]),
    decreases o.len() - q,
{
    if q < o.len() && !key_lt(x, ks[o[q]]) {
        lemma_insert_index(ks, o, x, q + 1);
    }
}

/// Every prefix of any keys has a stable order.
proof fn lemma_prefix_order_exists(ks: Seq<KeyModel>, i: int)
    requires
        0 <= i <= ks.len(),
    ensures
        exists|o: Seq<int>| #[trigger] is_prefix_order(ks, o, i),
    decreases i,
{
    if i == 0 {
        assert(is_prefix_order(ks, Seq::<int>::empty(), 0));
    } else {
        lemma_prefix_order_exists(ks, i - 1);
        let o = choose|o: Seq<int>| #[trigger] is_prefix_order(ks, o, i - 1);
        lemma_insert_index(ks, o, ks[i - 1], 0);
        let p = insert_index(ks, o, ks[i - 1], 0);
        lemma_insert_step(ks, o, i - 1, p);
        assert(is_prefix_order(ks, o.insert(p, i - 1), i));
    }
}

/// Any keys have a stable order.
pub proof fn lemma_stable_order_exists(keys: Seq<KeyModel>)
    ensures
        is_stable_order(keys, the_stable_order(keys)),
{
    lemma_prefix_order_exists(keys, keys.len() as int);
    let o = choose|o: Seq<int>| #[trigger] is_prefix_order(keys, o, keys.len() as int);
    assert(is_stable_order(keys, o));
}

/// The order in which a stable sort puts items with these keys: the
/// positions of the keys, sorted by key, ties in their original order.
pub fn stable_order(keys: &Vec<SortKey>) -> (ord: Vec<usize>)
    ensures
        is_stable_order(key_models(keys@), positions(ord@)),
{
    let n = keys.len();
    let ghost ks = key_models(keys@);
    let mut ord: Vec<usize> = Vec::new();
    let mut i: usize = 0;
    assert(positions(ord@) =~= Seq::<int>::empty());
    while i < n
        invariant
            i <= n == keys@.len() == ks.len(),
            ks == key_models(keys@),
            is_prefix_order(ks, positions(ord@), i as int),
        decreases n - i,
    {
        let ghost o = positions(ord@);
        assert forall|a: int| 0 <= a < i implies (#[trigger] ord@[a]) < n by {
            assert(o[a] == ord@[a] as int);
        }
        let mut p: usize = 0;
        while p < i && !key_before(&keys[i], &keys[ord[p]])
            invariant
                p <= i == ord@.len(),
                i < n == keys@.len() == ks.len(),
                ks == key_models(keys@),
                o == positions(ord@),
                is_prefix_order(ks, o, i as int),
                forall|a: int| 0 <= a < i ==> (#[trigger] ord@[a]) < n,
                forall|q: int| 0 <= q < p ==> !key_lt(ks[i as int], ks[#[trigger] o[q]]),
            decreases i - p,
        {
            assert(o[p as int] == ord@[p as int] as int);
            assert(ks[o[p as int]] == keys@[ord@[p as int] as int]@);
            p = p + 1;
        }
        proof {
            if p < i {
                assert(o[p as int] == ord@[p as int] as int);
            }
            lemma_insert_step(ks, o, i as int, p as int);
        }
        ord.insert(p, i);
        assert(positions(ord@) =~= o.insert(p as int, i as int));
        i = i + 1;
    }
    ord
}

/// A stable order lists every position: it is a permutation.
pub proof fn lemma_stable_order_covers(keys: Seq<KeyModel>, ord: Seq<int>, j: int)
    requires
        is_stable_order(keys, ord),
        0 <= j < keys.len(),
    ensures
        exists|a: int| 0 <= a < ord.len() && ord[a] == j,
{
    broadcast use vstd::set::group_set_axioms, vstd::seq_lib::group_seq_properties;

    let n = keys.len() as int;
    assert(ord.no_duplicates()) by {
        assert forall|a: int, b: int| 0 <= a < ord.len() && 0 <= b < ord.len() && a != b implies ord[a]
            != ord[b] by {
            if a < b {
            } else {
            }
        }
    }
    ord.unique_seq_to_set();
    vstd::set_lib::lemma_int_range(0, n);
    let range = vstd::set_lib::set_int_range(0, n);
    assert(ord.to_set().subset_of(range)) by {
        assert forall|v: int| ord.to_set().contains(v) implies range.contains(v) by {
            let a = choose|a: int| 0 <= a < ord.len() && ord[a] == v;
        }
    }
    vstd::set_lib::lemma_subset_equality(ord.to_set(), range);
    assert(range.contains(j));
    assert(ord.to_set().contains(j));
}

proof fn lemma_stable_orders_agree_at(keys: Seq<KeyModel>, o1: Seq<int>, o2: Seq<int>, a: int)
    requires
        is_stable_order(keys, o1),
        is_stable_order(keys, o2),
        0 <= a < o1.len(),
        forall|k: int| 0 <= k < a ==> o1[k] == o2[k],
    ensures
        o1[a] == o2[a],
{
    let x = o1[a];
    let y = o2[a];
    if x != y {
        lemma_stable_order_covers(keys, o2, x);
        lemma_stable_order_covers(keys, o1, y);
        let b = choose|b: int| 0 <= b < o2.len() && o2[b] == x;
        let c = choose|c: int| 0 <= c < o1.len() && o1[c] == y;
        if b < a {
            assert(o1[b] == x);
        }
        if c < a {
            assert(o2[c] == y);
        }
        assert(a < b && a < c);
        assert(!key_lt(keys[o1[c]], keys[o1[a]]));
        assert(!key_lt(keys[o2[b]], keys[o2[a]]));
        assert(o1[a] < o1[c]);
        assert(o2[a] < o2[b]);
    }
}

proof fn lemma_stable_orders_agree_upto(keys: Seq<KeyModel>, o1: Seq<int>, o2: Seq<int>, a: int)
    requires
        is_stable_order(keys, o1),
        is_stable_order(keys, o2),
        0 <= a <= o1.len(),
    ensures
        forall|k: int| 0 <= k < a ==> o1[k] == o2[k],
    decreases a,
{
    if a > 0 {
        lemma_stable_orders_agree_upto(keys, o1, o2, a - 1);
        lemma_stable_orders_agree_at(keys, o1, o2, a - 1);
    }
}

/// There is only one stable order for given keys: sorting is deterministic.
pub proof fn lemma_stable_order_unique(keys: Seq<KeyModel>, o1: Seq<int>, o2: Seq<int>)
    requires
        is_stable_order(keys, o1),
        is_stable_order(keys, o2),
    ensures
        o1 == o2,
{
    lemma_stable_orders_agree_upto(keys, o1, o2, o1.len() as int);
    assert(o1 =~= o2);
}

/// The stable order of `keys`.
pub open spec fn the_stable_order(keys: Seq<KeyModel>) -> Seq<int> {
    choose|ord: Seq<int>| is_stable_order(keys, ord)
}

/// `items` as a stable sort by `keys` lists them.
pub open spec fn stably_sorted<T>(items: Seq<T>, keys: Seq<KeyModel>) -> Seq<T> {
    the_stable_order(keys).map_values(|k: int| items[k])
}

/// An order that is stable is the stable order.
pub proof fn lemma_is_the_stable_order(keys: Seq<KeyModel>, ord: Seq<int>)
    requires
        is_stable_order(keys, ord),
    ensures
        the_stable_order(keys) == ord,
{
    let o = the_stable_order(keys);
    assert(is_stable_order(keys, o));
    lemma_stable_order_unique(keys, o, ord);
}

} // verus!
