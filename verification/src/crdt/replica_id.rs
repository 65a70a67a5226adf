//! Replica identifiers and their order.
use super::CrdtError;
use vstd::prelude::*;
use vstd::string::*;
use vstd::utf8::{encode_utf8, encode_utf8_decode_utf8};

verus! {

/// Stable, non-empty replica identifier; replicas are ordered by the bytes of
/// their identifiers, compared lexicographically.
#[derive(Clone, Debug, Eq, PartialEq, Ord, PartialOrd, Hash)]
pub struct ReplicaId(String);

impl View for ReplicaId {
    type V = Seq<char>;

    closed spec fn view(&self) -> Seq<char> {
        self.0@
    }
}

/// The UTF-8 bytes of an identifier.
pub open spec fn id_bytes(id: Seq<char>) -> Seq<u8> {
    encode_utf8(id)
}

/// Lexicographic order on byte strings: a proper prefix comes first.
pub open spec fn bytes_lt(a: Seq<u8>, b: Seq<u8>) -> bool
    decreases a.len(),
{
    if a.len() == 0 {
        b.len() > 0
    } else if b.len() == 0 {
        false
    } else if a[0] != b[0] {
        a[0] < b[0]
    } else {
        bytes_lt(a.drop_first(), b.drop_first())
    }
}

/// Replica order: by identifier bytes.
pub open spec fn replica_lt(a: Seq<char>, b: Seq<char>) -> bool {
    bytes_lt(id_bytes(a), id_bytes(b))
}

/// The byte order is irreflexive.
pub proof fn lemma_bytes_lt_irrefl(a: Seq<u8>)
    ensures
        !bytes_lt(a, a),
    decreases a.len(),
{
    if a.len() > 0 {
        lemma_bytes_lt_irrefl(a.drop_first());
    }
}

/// The byte order is transitive.
pub proof fn lemma_bytes_lt_trans(a: Seq<u8>, b: Seq<u8>, c: Seq<u8>)
    requires
        bytes_lt(a, b),
        bytes_lt(b, c),
    ensures
        bytes_lt(a, c),
    decreases a.len(),
{
    if a.len() > 0 && b.len() > 0 && c.len() > 0 && a[0] == b[0] && b[0] == c[0] {
        lemma_bytes_lt_trans(a.drop_first(), b.drop_first(), c.drop_first());
    }
}

/// Distinct byte strings are ordered one way or the other.
pub proof fn lemma_bytes_lt_total(a: Seq<u8>, b: Seq<u8>)
    ensures
        a =~= b || bytes_lt(a, b) || bytes_lt(b, a),
    decreases a.len(),
{
    if a.len() > 0 && b.len() > 0 && a[0] == b[0] {
        lemma_bytes_lt_total(a.drop_first(), b.drop_first());
        if a.drop_first() =~= b.drop_first() {
            assert(a =~= seq![a[0]] + a.drop_first());
            assert(b =~= seq![b[0]] + b.drop_first());
        }
    }
}

/// The byte order is asymmetric.
pub proof fn lemma_bytes_lt_asym(a: Seq<u8>, b: Seq<u8>)
    requires
        bytes_lt(a, b),
    ensures
        !bytes_lt(b, a),
    decreases a.len(),
{
    if a.len() > 0 && b.len() > 0 && a[0] == b[0] {
        lemma_bytes_lt_asym(a.drop_first(), b.drop_first());
    }
}

/// Identifiers with the same bytes are the same identifier.
pub proof fn lemma_id_bytes_injective(a: Seq<char>, b: Seq<char>)
    requires
        id_bytes(a) == id_bytes(b),
    ensures
        a == b,
{
    encode_utf8_decode_utf8(a);
    encode_utf8_decode_utf8(b);
}

/// Result of comparing two identifiers.
#[derive(Debug, Clone, Copy, PartialEq, Eq, Structural)]
pub enum IdOrder {
    Less,
    Equal,
    Greater,
}

/// Compares two byte strings lexicographically.
pub fn compare_bytes(a: &[u8], b: &[u8]) -> (o: IdOrder)
    ensures
        o == IdOrder::Less <==> bytes_lt(a@, b@),
        o == IdOrder::Greater <==> bytes_lt(b@, a@),
        o == IdOrder::Equal <==> a@ == b@,
{
    let mut i: usize = 0;
    assert(a@.skip(0) =~= a@ && b@.skip(0) =~= b@);
    while i < a.len() && i < b.len()
        invariant
            i <= a@.len(),
            i <= b@.len(),
            a@.take(i as int) == b@.take(i as int),
            bytes_lt(a@, b@) == bytes_lt(a@.skip(i as int), b@.skip(i as int)),
            bytes_lt(b@, a@) == bytes_lt(b@.skip(i as int), a@.skip(i as int)),
        decreases a@.len() - i,
    {
        if a[i] != b[i] {
            proof {
                assert(a@.skip(i as int)[0] == a@[i as int]);
                assert(b@.skip(i as int)[0] == b@[i as int]);
                assert(a@ != b@ ) by {
                    assert(a@[i as int] != b@[i as int]);
                }
            }
            if a[i] < b[i] {
                return IdOrder::Less;
            } else {
                return IdOrder::Greater;
            }
        }
        proof {
            assert(a@.skip(i as int).drop_first() =~= a@.skip(i + 1));
            assert(b@.skip(i as int).drop_first() =~= b@.skip(i + 1));
            assert(a@.take(i + 1) =~= a@.take(i as int).push(a@[i as int]));
            assert(b@.take(i + 1) =~= b@.take(i as int).push(b@[i as int]));
        }
        i = i + 1;
    }
    proof {
        lemma_bytes_lt_irrefl(a@);
    }
    if a.len() == b.len() {
        assert(a@ =~= a@.take(i as int));
        assert(b@ =~= b@.take(i as int));
        IdOrder::Equal
    } else if a.len() < b.len() {
        assert(a@.skip(i as int).len() == 0);
        IdOrder::Less
    } else {
        assert(b@.skip(i as int).len() == 0);
        IdOrder::Greater
    }
}

impl ReplicaId {
    /// A replica identifier; the empty string is refused.
    pub fn new(value: &str) -> (res: Result<Self, CrdtError>)
        ensures
            value@.len() == 0 ==> (res matches Err(CrdtError::EmptyReplicaId)),
            value@.len() > 0 ==> (res matches Ok(r) && r@ == value@),
    {
        let s = value.to_owned();
        let bytes = value.as_bytes();
        if bytes.len() == 0 {
            proof {
                assert(value@.len() == 0) by {
                    encode_utf8_decode_utf8(value@);
                    assert(value.spec_bytes().len() == 0);
                    assert(value.spec_bytes() == id_bytes(value@));
                    assert(id_bytes(value@) =~= Seq::<u8>::empty());
                    assert(vstd::utf8::decode_utf8(Seq::<u8>::empty()) =~= Seq::<char>::empty());
                }
            }
            return Err(CrdtError::EmptyReplicaId);
        }
        proof {
            assert(value@.len() > 0) by {
                if value@.len() == 0 {
                    assert(id_bytes(value@) =~= Seq::<u8>::empty());
                }
            }
        }
        Ok(ReplicaId(s))
    }

    /// The identifier as a string slice.
    pub fn as_str(&self) -> (s: &str)
        ensures
            s@ == self@,
    {
        self.0.as_str()
    }

    /// A copy of this identifier.
    pub fn duplicate(&self) -> (r: Self)
        ensures
            r@ == self@,
    {
        ReplicaId(self.0.clone())
    }

    /// Compares two identifiers by their bytes.
    pub fn compare(&self, other: &Self) -> (o: IdOrder)
        ensures
            o == IdOrder::Less <==> replica_lt(self@, other@),
            o == IdOrder::Greater <==> replica_lt(other@, self@),
            o == IdOrder::Equal <==> self@ == other@,
    {
        let a = self.0.as_str().as_bytes();
        let b = other.0.as_str().as_bytes();
        let o = compare_bytes(a, b);
        proof {
            if a@ == b@ {
                lemma_id_bytes_injective(self@, other@);
            }
        }
        o
    }
}

} // verus!
