use vstd::prelude::*;

verus! {

/// Errors of the transactional key-value store.
#[derive(Debug, Clone, Copy, PartialEq, Eq, Structural)]
pub enum MetaStorageError {
    BytesError,
    SledError,
    TransactionConflict,
    SnapshotError,
}

/// How a failed transaction body ends the transaction.
#[derive(Debug, Clone, Copy, PartialEq, Eq, Structural)]
pub enum TxnErrorAction {
    /// Roll back every write and return the error.
    Abort(MetaStorageError),
    /// Roll back; the caller is expected to run the whole transaction again.
    Conflict,
}

/// A conflict asks for a retry; any other error aborts the transaction with no partial write.
pub fn txn_error_action(e: MetaStorageError) -> (r: TxnErrorAction)
    ensures
        e == MetaStorageError::TransactionConflict ==> r == TxnErrorAction::Conflict,
        e != MetaStorageError::TransactionConflict ==> r == TxnErrorAction::Abort(e),
{
    match e {
        MetaStorageError::TransactionConflict => TxnErrorAction::Conflict,
        _ => TxnErrorAction::Abort(e),
    }
}

/// Whether a durable flush follows a successful transaction: only when the caller asks
/// for it and the tree was opened with syncing on.
pub fn txn_flushes(requested: bool, tree_sync: bool) -> (r: bool)
    ensures
        r == (requested && tree_sync),
{
    requested && tree_sync
}

/// A reference to the key or to the value of a stored pair.
pub trait SledAsRef<K, V> {
    fn as_key(&self) -> &K;

    fn as_value(&self) -> &V;
}

impl<K, V> SledAsRef<K, V> for (K, V) {
    fn as_key(&self) -> &K {
        &self.0
    }

    fn as_value(&self) -> &V {
        &self.1
    }
}

/// The stored form of a batch of pairs of one key space: each key encoded, each value as
/// it is, in order.
pub fn encode_batch(prefix: u8, kvs: &Vec<(Vec<u8>, Vec<u8>)>) -> (r: Vec<(Vec<u8>, Vec<u8>)>)
    ensures
        r@.len() == kvs@.len(),
        forall|i: int| 0 <= i < kvs@.len() ==> (#[trigger] r@[i]).0@ == spec_encode(prefix, kvs@[i].0@)
            && r@[i].1@ == kvs@[i].1@,
{
    let mut r: Vec<(Vec<u8>, Vec<u8>)> = Vec::new();
    let mut i: usize = 0;
    while i < kvs.len()
        invariant
            i <= kvs@.len(),
            r@.len() == i,
            forall|k: int| 0 <= k < i ==> (#[trigger] r@[k]).0@ == spec_encode(prefix, kvs@[k].0@)
                && r@[k].1@ == kvs@[k].1@,
        decreases kvs@.len() - i,
    {
        let key = serialize_key(prefix, &kvs[i].0);
        let value = kvs[i].1.clone();
        assert(value@ =~= kvs@[i as int].1@);
        r.push((key, value));
        i += 1;
    }
    r
}

/// Byte-wise lexicographic order, the order of the physical store.
pub open spec fn lex_lt(a: Seq<u8>, b: Seq<u8>) -> bool
    decreases a.len(),
{
    if a.len() == 0 {
        b.len() > 0
    } else if b.len() == 0 {
        false
    } else if a[0] != b[0] {
        a[0] < b[0]
    } else {
        lex_lt(a.drop_first(), b.drop_first())
    }
}

/// A key of one key space as stored: the space's prefix byte, then the key's own bytes.
pub open spec fn spec_encode(prefix: u8, key: Seq<u8>) -> Seq<u8> {
    seq![prefix].add(key)
}

pub fn serialize_key(prefix: u8, key: &Vec<u8>) -> (r: Vec<u8>)
    ensures
        r@ == spec_encode(prefix, key@),
{
    let mut r: Vec<u8> = Vec::new();
    r.push(prefix);
    let mut i: usize = 0;
    while i < key.len()
        invariant
            i <= key@.len(),
            r@ == seq![prefix].add(key@.subrange(0, i as int)),
        decreases key@.len() - i,
    {
        r.push(key[i]);
        i += 1;
        assert(r@ =~= seq![prefix].add(key@.subrange(0, i as int)));
    }
    assert(key@.subrange(0, key@.len() as int) =~= key@);
    r
}

/// Reads a stored key back, refusing one of another key space.
pub fn deserialize_key(prefix: u8, raw: &Vec<u8>) -> (r: Result<Vec<u8>, MetaStorageError>)
    ensures
        (raw@.len() == 0 || raw@[0] != prefix) <==> r is Err,
        r matches Err(e) ==> e == MetaStorageError::BytesError,
        r matches Ok(k) ==> raw@ == spec_encode(prefix, k@),
{
    if raw.len() == 0 || raw[0] != prefix {
        return Err(MetaStorageError::BytesError);
    }
    let mut k: Vec<u8> = Vec::new();
    let mut i: usize = 1;
    while i < raw.len()
        invariant
            1 <= i <= raw@.len(),
            k@ == raw@.subrange(1, i as int),
        decreases raw@.len() - i,
    {
        k.push(raw[i]);
        i += 1;
        assert(k@ =~= raw@.subrange(1, i as int));
    }
    assert(raw@ =~= spec_encode(prefix, k@));
    Ok(k)
}

/// Decoding an encoded key gives the key back.
pub proof fn lemma_encode_round_trip(prefix: u8, key: Seq<u8>)
    ensures
        spec_encode(prefix, key).len() > 0,
        spec_encode(prefix, key)[0] == prefix,
        spec_encode(prefix, key).subrange(1, spec_encode(prefix, key).len() as int) == key,
{
    assert(spec_encode(prefix, key).subrange(1, spec_encode(prefix, key).len() as int) =~= key);
}

/// The encoding preserves order within a key space, so a range of keys is a range of
/// stored bytes.
pub proof fn lemma_encode_preserves_order(prefix: u8, a: Seq<u8>, b: Seq<u8>)
    ensures
        lex_lt(spec_encode(prefix, a), spec_encode(prefix, b)) == lex_lt(a, b),
{
    assert(spec_encode(prefix, a).drop_first() =~= a);
    assert(spec_encode(prefix, b).drop_first() =~= b);
}

/// Keys of a lower key space sort before every key of a higher one, so key spaces never
/// interleave in the physical order.
pub proof fn lemma_key_spaces_apart(p: u8, q: u8, a: Seq<u8>, b: Seq<u8>)
    requires
        p < q,
    ensures
        lex_lt(spec_encode(p, a), spec_encode(q, b)),
{
}

/// The stored-byte range `[start, end)` that holds exactly one key space: from its prefix
/// up to the next prefix, unbounded above for the last one.
pub fn key_space_range(prefix: u8) -> (r: (Vec<u8>, Option<Vec<u8>>))
    ensures
        r.0@ == seq![prefix],
        prefix < 255 ==> (r.1 matches Some(e) && e@ == seq![(prefix + 1) as u8]),
        prefix == 255 ==> r.1 is None,
{
    let start = vec![prefix];
    assert(start@ =~= seq![prefix]);
    if prefix < 255 {
        let end = vec![prefix + 1];
        assert(end@ =~= seq![(prefix + 1) as u8]);
        (start, Some(end))
    } else {
        (start, None)
    }
}

/// Every key of the space lies in its range.
pub proof fn lemma_key_in_space_range(prefix: u8, key: Seq<u8>)
    ensures
        !lex_lt(spec_encode(prefix, key), seq![prefix]),
        prefix < 255 ==> lex_lt(spec_encode(prefix, key), seq![(prefix + 1) as u8]),
{
    let e = spec_encode(prefix, key);
    assert(e[0] == prefix);
    assert(e.drop_first() =~= key);
    assert(seq![prefix].drop_first() =~= Seq::<u8>::empty());
    assert(!lex_lt(key, Seq::<u8>::empty()));
}

} // verus!
