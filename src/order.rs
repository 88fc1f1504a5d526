use vstd::prelude::*;

verus! {

/// Strict lexicographic order on byte strings; a proper prefix comes first.
pub open spec fn bytes_lt(a: Seq<u8>, b: Seq<u8>) -> bool
    decreases a.len(),
{
    if a.len() == 0 {
        b.len() > 0
    } else if b.len() == 0 {
        false
    } else if a[0] != b[0] {
        a[0] < b[0]
    } else {
        bytes_lt(a.drop_first(), b.drop_first())
    }
}

pub proof fn lemma_bytes_lt_irreflexive(a: Seq<u8>)
    ensures
        !bytes_lt(a, a),
    decreases a.len(),
{
    if a.len() > 0 {
        lemma_bytes_lt_irreflexive(a.drop_first());
    }
}

pub proof fn lemma_bytes_lt_asymmetric(a: Seq<u8>, b: Seq<u8>)
    requires
        bytes_lt(a, b),
    ensures
        !bytes_lt(b, a),
    decreases a.len(),
{
    if a.len() > 0 && b.len() > 0 && a[0] == b[0] {
        lemma_bytes_lt_asymmetric(a.drop_first(), b.drop_first());
    }
}

pub proof fn lemma_bytes_lt_transitive(a: Seq<u8>, b: Seq<u8>, c: Seq<u8>)
    requires
        bytes_lt(a, b),
        bytes_lt(b, c),
    ensures
        bytes_lt(a, c),
    decreases a.len(),
{
    if a.len() > 0 && b.len() > 0 && c.len() > 0 && a[0] == b[0] && b[0] == c[0] {
        lemma_bytes_lt_transitive(a.drop_first(), b.drop_first(), c.drop_first());
    }
}

pub proof fn lemma_bytes_lt_total(a: Seq<u8>, b: Seq<u8>)
    requires
        a != b,
    ensures
        bytes_lt(a, b) || bytes_lt(b, a),
    decreases a.len(),
{
    if a.len() == 0 {
        assert(b.len() != 0 || a =~= b);
    } else if b.len() > 0 && a[0] == b[0] {
        if a.drop_first() == b.drop_first() {
            assert(a =~= b.drop_first().insert(0, b[0]));
            assert(b =~= b.drop_first().insert(0, b[0]));
        }
        lemma_bytes_lt_total(a.drop_first(), b.drop_first());
    }
}

/// Order of two byte strings: negative, zero or positive as `a` comes
/// before, equals or comes after `b`.
pub fn compare_bytes(a: &[u8], b: &[u8]) -> (r: i8)
    ensures
        r < 0 <==> bytes_lt(a@, b@),
        r == 0 <==> a@ == b@,
        r > 0 <==> bytes_lt(b@, a@),
{
    let mut i: usize = 0;
    assert(a@.skip(0) =~= a@);
    assert(b@.skip(0) =~= b@);
    while i < a.len() && i < b.len()
        invariant
            0 <= i <= a@.len(),
            i <= b@.len(),
            a@.take(i as int) == b@.take(i as int),
            bytes_lt(a@, b@) == bytes_lt(a@.skip(i as int), b@.skip(i as int)),
            bytes_lt(b@, a@) == bytes_lt(b@.skip(i as int), a@.skip(i as int)),
        decreases a@.len() - i,
    {
        if a[i] != b[i] {
            assert(a@.skip(i as int)[0] == a@[i as int]);
            assert(b@.skip(i as int)[0] == b@[i as int]);
            if a[i] < b[i] {
                return -1;
            } else {
                return 1;
            }
        }
        assert(a@.skip(i as int).drop_first() =~= a@.skip(i + 1));
        assert(b@.skip(i as int).drop_first() =~= b@.skip(i + 1));
        assert(a@.take(i + 1) =~= a@.take(i as int).push(a@[i as int]));
        assert(b@.take(i + 1) =~= b@.take(i as int).push(b@[i as int]));
        i = i + 1;
    }
    if a.len() == b.len() {
        assert(a@ =~= a@.take(i as int));
        assert(b@ =~= b@.take(i as int));
        proof { lemma_bytes_lt_irreflexive(a@); }
        0
    } else if a.len() < b.len() {
        assert(a@ =~= a@.take(i as int));
        assert(a@ != b@);
        -1
    } else {
        assert(b@ =~= b@.take(i as int));
        assert(a@ != b@);
        1
    }
}

/// Order of composite keys: component by component.
pub open spec fn triple_lt(x: (Seq<u8>, Seq<u8>, Seq<u8>), y: (Seq<u8>, Seq<u8>, Seq<u8>)) -> bool {
    bytes_lt(x.0, y.0) || (x.0 == y.0 && (bytes_lt(x.1, y.1) || (x.1 == y.1 && bytes_lt(x.2, y.2))))
}

pub proof fn lemma_triple_lt_irreflexive(x: (Seq<u8>, Seq<u8>, Seq<u8>))
    ensures
        !triple_lt(x, x),
{
    lemma_bytes_lt_irreflexive(x.0);
    lemma_bytes_lt_irreflexive(x.1);
    lemma_bytes_lt_irreflexive(x.2);
}

pub proof fn lemma_triple_lt_transitive(x: (Seq<u8>, Seq<u8>, Seq<u8>), y: (Seq<u8>, Seq<u8>, Seq<u8>), z: (Seq<u8>, Seq<u8>, Seq<u8>))
    requires
        triple_lt(x, y),
        triple_lt(y, z),
    ensures
        triple_lt(x, z),
{
    if bytes_lt(x.0, y.0) && bytes_lt(y.0, z.0) {
        lemma_bytes_lt_transitive(x.0, y.0, z.0);
    }
    if x.0 == y.0 && y.0 == z.0 && bytes_lt(x.1, y.1) && bytes_lt(y.1, z.1) {
        lemma_bytes_lt_transitive(x.1, y.1, z.1);
    }
    if x.0 == y.0 && y.0 == z.0 && x.1 == y.1 && y.1 == z.1 && bytes_lt(x.2, y.2) && bytes_lt(y.2, z.2) {
        lemma_bytes_lt_transitive(x.2, y.2, z.2);
    }
}

pub proof fn lemma_triple_lt_total(x: (Seq<u8>, Seq<u8>, Seq<u8>), y: (Seq<u8>, Seq<u8>, Seq<u8>))
    requires
        x != y,
    ensures
        triple_lt(x, y) || triple_lt(y, x),
{
    if x.0 != y.0 {
        lemma_bytes_lt_total(x.0, y.0);
    } else if x.1 != y.1 {
        lemma_bytes_lt_total(x.1, y.1);
    } else {
        lemma_bytes_lt_total(x.2, y.2);
    }
}

} // verus!
