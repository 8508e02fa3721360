//! Byte strings in dictionary order.

use vstd::prelude::*;

verus! {

/// The byte strings that a list of vectors stands for.
pub open spec fn byte_strings(vectors: Seq<Vec<u8>>) -> Seq<Seq<u8>> {
    vectors.map_values(|vector: Vec<u8>| vector@)
}

/// `a` comes before `b` in dictionary order: at the first place where they
/// differ `a` has the smaller byte, or `a` is a proper prefix of `b`.
pub open spec fn lex_less(a: Seq<u8>, b: Seq<u8>) -> bool
    decreases a.len(),
{
    if b.len() == 0 {
        false
    } else if a.len() == 0 {
        true
    } else if a[0] != b[0] {
        a[0] < b[0]
    } else {
        lex_less(a.drop_first(), b.drop_first())
    }
}

/// Each element comes before the next in dictionary order.
pub open spec fn strictly_increasing(keys: Seq<Seq<u8>>) -> bool {
    forall|i: int, j: int| 0 <= i < j < keys.len() ==> lex_less(#[trigger] keys[i], #[trigger] keys[j])
}

/// Nothing comes before itself.
pub proof fn lemma_lex_less_irreflexive(a: Seq<u8>)
    ensures
        !lex_less(a, a),
    decreases a.len(),
{
    if a.len() != 0 {
        lemma_lex_less_irreflexive(a.drop_first());
    }
}

/// What comes before something that comes before a third comes before the third.
pub proof fn lemma_lex_less_transitive(a: Seq<u8>, b: Seq<u8>, c: Seq<u8>)
    requires
        lex_less(a, b),
        lex_less(b, c),
    ensures
        lex_less(a, c),
    decreases a.len(),
{
    if a.len() != 0 && a[0] == b[0] && b[0] == c[0] {
        lemma_lex_less_transitive(a.drop_first(), b.drop_first(), c.drop_first());
    }
}

/// Of two byte strings at most one comes before the other.
pub proof fn lemma_lex_less_asymmetric(a: Seq<u8>, b: Seq<u8>)
    requires
        lex_less(a, b),
    ensures
        !lex_less(b, a),
{
    if lex_less(b, a) {
        lemma_lex_less_transitive(a, b, a);
        lemma_lex_less_irreflexive(a);
    }
}

/// Of two different byte strings one comes before the other.
pub proof fn lemma_lex_less_total(a: Seq<u8>, b: Seq<u8>)
    ensures
        a == b || lex_less(a, b) || lex_less(b, a),
    decreases a.len(),
{
    if a.len() != 0 && b.len() != 0 && a[0] == b[0] {
        lemma_lex_less_total(a.drop_first(), b.drop_first());
        if a.drop_first() == b.drop_first() {
            assert(a =~= seq![a[0]] + a.drop_first());
            assert(b =~= seq![b[0]] + b.drop_first());
        }
    } else if a.len() == 0 && b.len() == 0 {
        assert(a =~= b);
    }
}

/// Two byte strings that agree on their first `n` places compare as what
/// follows those places does.
pub proof fn lemma_lex_less_skip(a: Seq<u8>, b: Seq<u8>, n: int)
    requires
        0 <= n <= a.len(),
        n <= b.len(),
        forall|j: int| 0 <= j < n ==> a[j] == b[j],
    ensures
        lex_less(a, b) == lex_less(a.skip(n), b.skip(n)),
    decreases n,
{
    if n == 0 {
        assert(a.skip(0) =~= a);
        assert(b.skip(0) =~= b);
    } else {
        assert(a[0] == b[0]);
        let ta = a.drop_first();
        let tb = b.drop_first();
        assert forall|j: int| 0 <= j < n - 1 implies ta[j] == tb[j] by {
            assert(a[j + 1] == b[j + 1]);
        }
        lemma_lex_less_skip(ta, tb, n - 1);
        assert(ta.skip(n - 1) =~= a.skip(n));
        assert(tb.skip(n - 1) =~= b.skip(n));
    }
}

/// A strictly increasing sequence lists nothing twice.
pub proof fn lemma_strictly_increasing_distinct(keys: Seq<Seq<u8>>)
    requires
        strictly_increasing(keys),
    ensures
        keys.no_duplicates(),
{
    assert forall|i: int, j: int| 0 <= i < keys.len() && 0 <= j < keys.len() && i != j implies keys[i]
        != keys[j] by {
        lemma_lex_less_irreflexive(keys[i]);
        if i < j {
            assert(lex_less(keys[i], keys[j]));
        } else {
            assert(lex_less(keys[j], keys[i]));
        }
    }
}

/// Two strictly increasing sequences with the same elements are the same sequence.
pub proof fn lemma_strictly_increasing_unique(x: Seq<Seq<u8>>, y: Seq<Seq<u8>>)
    requires
        strictly_increasing(x),
        strictly_increasing(y),
        x.to_set() == y.to_set(),
    ensures
        x == y,
    decreases x.len(),
{
    if x.len() == 0 {
        if y.len() > 0 {
            assert(y.to_set().contains(y[0]));
            assert(x.contains(y[0]));
        }
        assert(x =~= y);
    } else {
        assert(x.to_set().contains(x[0]));
        assert(y.contains(x[0]));
        let j = choose|j: int| 0 <= j < y.len() && y[j] == x[0];
        assert(y.to_set().contains(y[0]));
        assert(x.contains(y[0]));
        let i = choose|i: int| 0 <= i < x.len() && x[i] == y[0];
        if i > 0 && j > 0 {
            assert(lex_less(x[0], x[i]));
            assert(lex_less(y[0], y[j]));
            lemma_lex_less_asymmetric(x[0], x[i]);
        }
        assert(x[0] == y[0]);
        let tx = x.drop_first();
        let ty = y.drop_first();
        lemma_strictly_increasing_distinct(x);
        lemma_strictly_increasing_distinct(y);
        assert forall|i: int, j: int| 0 <= i < j < tx.len() implies lex_less(
            #[trigger] tx[i],
            #[trigger] tx[j],
        ) by {
            assert(lex_less(x[i + 1], x[j + 1]));
        }
        assert forall|i: int, j: int| 0 <= i < j < ty.len() implies lex_less(
            #[trigger] ty[i],
            #[trigger] ty[j],
        ) by {
            assert(lex_less(y[i + 1], y[j + 1]));
        }
        assert forall|v: Seq<u8>| tx.to_set().contains(v) == ty.to_set().contains(v) by {
            if tx.contains(v) {
                let k = choose|k: int| 0 <= k < tx.len() && tx[k] == v;
                assert(x[k + 1] == v);
                assert(x.to_set().contains(v));
                assert(y.contains(v));
                let m = choose|m: int| 0 <= m < y.len() && y[m] == v;
                assert(m != 0);
                assert(ty[m - 1] == v);
            }
            if ty.contains(v) {
                let k = choose|k: int| 0 <= k < ty.len() && ty[k] == v;
                assert(y[k + 1] == v);
                assert(y.to_set().contains(v));
                assert(x.contains(v));
                let m = choose|m: int| 0 <= m < x.len() && x[m] == v;
                assert(m != 0);
                assert(tx[m - 1] == v);
            }
        }
        assert(tx.to_set() =~= ty.to_set());
        lemma_strictly_increasing_unique(tx, ty);
        assert(x =~= seq![x[0]] + tx);
        assert(y =~= seq![y[0]] + ty);
    }
}

/// How one byte string stands to another in dictionary order.
#[derive(Clone, Copy, Debug, PartialEq, Eq, Structural)]
pub enum Rank {
    Before,
    Same,
    After,
}

/// Places `a` relative to `b` in dictionary order.
pub fn rank_bytes(a: &Vec<u8>, b: &Vec<u8>) -> (rank: Rank)
    ensures
        match rank {
            Rank::Before => lex_less(a@, b@),
            Rank::Same => a@ == b@,
            Rank::After => lex_less(b@, a@),
        },
{
    let mut i: usize = 0;
    while i < a.len() && i < b.len()
        invariant
            i <= a@.len(),
            i <= b@.len(),
            forall|j: int| 0 <= j < i ==> a@[j] == b@[j],
        decreases a@.len() - i,
    {
        if a[i] != b[i] {
            proof {
                lemma_lex_less_skip(a@, b@, i as int);
                lemma_lex_less_skip(b@, a@, i as int);
            }
            if a[i] < b[i] {
                return Rank::Before;
            } else {
                return Rank::After;
            }
        }
        i += 1;
    }
    proof {
        lemma_lex_less_skip(a@, b@, i as int);
        lemma_lex_less_skip(b@, a@, i as int);
    }
    if a.len() < b.len() {
        Rank::Before
    } else if b.len() < a.len() {
        Rank::After
    } else {
        assert(a@ =~= b@);
        Rank::Same
    }
}

/// Puts `key` at place `at` of an increasing sequence whose earlier elements
/// come before it and whose later ones come after it.
pub proof fn lemma_insert_key(keys: Seq<Seq<u8>>, at: int, key: Seq<u8>)
    requires
        strictly_increasing(keys),
        0 <= at <= keys.len(),
        forall|i: int| 0 <= i < at ==> lex_less(#[trigger] keys[i], key),
        at < keys.len() ==> lex_less(key, keys[at]),
    ensures
        strictly_increasing(keys.insert(at, key)),
        keys.insert(at, key).to_set() == keys.to_set().insert(key),
        !keys.contains(key),
{
    let after = keys.insert(at, key);
    assert forall|i: int| at <= i < keys.len() implies lex_less(key, #[trigger] keys[i]) by {
        if i > at {
            assert(lex_less(keys[at], keys[i]));
            lemma_lex_less_transitive(key, keys[at], keys[i]);
        }
    }
    assert forall|i: int, j: int| 0 <= i < j < after.len() implies lex_less(
        #[trigger] after[i],
        #[trigger] after[j],
    ) by {
        if j < at {
            assert(lex_less(keys[i], keys[j]));
        } else if j == at {
            assert(lex_less(keys[i], key));
        } else if i < at {
            assert(lex_less(keys[i], keys[j - 1]));
        } else if i == at {
            assert(lex_less(key, keys[j - 1]));
        } else {
            assert(lex_less(keys[i - 1], keys[j - 1]));
        }
    }
    if keys.contains(key) {
        let i = choose|i: int| 0 <= i < keys.len() && keys[i] == key;
        lemma_lex_less_irreflexive(key);
        if i < at {
            assert(lex_less(keys[i], key));
        } else {
            assert(lex_less(key, keys[i]));
        }
    }
    assert forall|v: Seq<u8>| after.to_set().contains(v) == keys.to_set().insert(key).contains(
        v,
    ) by {
        if after.contains(v) {
            let i = choose|i: int| 0 <= i < after.len() && after[i] == v;
            if i < at {
                assert(keys[i] == v);
            } else if i > at {
                assert(keys[i - 1] == v);
            }
        }
        if keys.contains(v) {
            let i = choose|i: int| 0 <= i < keys.len() && keys[i] == v;
            if i < at {
                assert(after[i] == v);
            } else {
                assert(after[i + 1] == v);
            }
        }
        if v == key {
            assert(after[at] == v);
        }
    }
    assert(after.to_set() =~= keys.to_set().insert(key));
}

/// How many leading elements of `keys` come before `key`.
pub open spec fn insertion_point(keys: Seq<Seq<u8>>, key: Seq<u8>) -> int
    decreases keys.len(),
{
    if keys.len() == 0 || !lex_less(keys[0], key) {
        0
    } else {
        1 + insertion_point(keys.drop_first(), key)
    }
}

/// The insertion point parts the elements that come before `key` from the
/// first that does not.
pub proof fn lemma_insertion_point(keys: Seq<Seq<u8>>, key: Seq<u8>)
    ensures
        0 <= insertion_point(keys, key) <= keys.len(),
        forall|i: int| 0 <= i < insertion_point(keys, key) ==> lex_less(#[trigger] keys[i], key),
        insertion_point(keys, key) < keys.len() ==> !lex_less(
            keys[insertion_point(keys, key)],
            key,
        ),
    decreases keys.len(),
{
    if keys.len() != 0 && lex_less(keys[0], key) {
        let rest = keys.drop_first();
        lemma_insertion_point(rest, key);
        assert forall|i: int| 0 <= i < insertion_point(keys, key) implies lex_less(
            #[trigger] keys[i],
            key,
        ) by {
            if i > 0 {
                assert(keys[i] == rest[i - 1]);
            }
        }
    }
}

/// Whether `bytes` holds exactly the bytes of `array`.
pub fn same_as_array<const N: usize>(bytes: &Vec<u8>, array: &[u8; N]) -> (same: bool)
    ensures
        same == (bytes@ == array@),
{
    if bytes.len() != N {
        return false;
    }
    let mut i: usize = 0;
    while i < N
        invariant
            i <= N,
            bytes@.len() == N,
            forall|j: int| 0 <= j < i ==> bytes@[j] == array@[j],
        decreases N - i,
    {
        if bytes[i] != array[i] {
            return false;
        }
        i += 1;
    }
    assert(bytes@ =~= array@);
    true
}

/// A copy of `bytes`.
pub fn copy_bytes(bytes: &Vec<u8>) -> (copy: Vec<u8>)
    ensures
        copy@ == bytes@,
{
    let mut copy: Vec<u8> = Vec::new();
    let mut i: usize = 0;
    while i < bytes.len()
        invariant
            i <= bytes@.len(),
            copy@ == bytes@.take(i as int),
        decreases bytes@.len() - i,
    {
        copy.push(bytes[i]);
        assert(bytes@.take(i + 1) =~= bytes@.take(i as int).push(bytes@[i as int]));
        i += 1;
    }
    assert(bytes@.take(bytes@.len() as int) =~= bytes@);
    copy
}

} // verus!
