use vstd::prelude::*;

use crate::keyspace::MetaStorageError;

verus! {

#[verifier::external_type_specification]
#[verifier::external_body]
pub struct ExTree(sled::Tree);

#[verifier::external_type_specification]
#[verifier::external_body]
pub struct ExBatch(sled::Batch);

/// The key-value pairs a tree holds.
pub uninterp spec fn tree_contents(t: sled::Tree) -> Map<Seq<u8>, Seq<u8>>;

/// The writes a batch holds: for each key its last write, a value or a removal.
pub uninterp spec fn batch_writes(b: sled::Batch) -> Map<Seq<u8>, Option<Seq<u8>>>;

/// The contents after applying `writes` to `m`.
pub open spec fn applied(m: Map<Seq<u8>, Seq<u8>>, writes: Map<Seq<u8>, Option<Seq<u8>>>) -> Map<Seq<u8>, Seq<u8>> {
    Map::new(
        |k: Seq<u8>| if writes.contains_key(k) { writes[k] is Some } else { m.contains_key(k) },
        |k: Seq<u8>| if writes.contains_key(k) { writes[k]->Some_0 } else { m[k] },
    )
}

/// The writes a transaction body stages, in order: a later write to a key replaces an
/// earlier one.
pub open spec fn staged(ws: Seq<(Vec<u8>, Option<Vec<u8>>)>) -> Map<Seq<u8>, Option<Seq<u8>>>
    decreases ws.len(),
{
    if ws.len() == 0 {
        Map::empty()
    } else {
        staged(ws.drop_last()).insert(ws.last().0@, match ws.last().1 {
            Some(v) => Some(v@),
            None => None,
        })
    }
}

/// Relies on `sled::Batch::default`: a batch without writes.
#[verifier::external_body]
fn new_batch() -> (r: sled::Batch)
    ensures
        batch_writes(r).dom() == Set::<Seq<u8>>::empty(),
{
    sled::Batch::default()
}

/// Relies on `sled::Batch::insert`: records the value as the key's last write.
#[verifier::external_body]
fn batch_insert(b: &mut sled::Batch, key: Vec<u8>, value: Vec<u8>)
    ensures
        batch_writes(*final(b)) == batch_writes(*old(b)).insert(key@, Some(value@)),
{
    b.insert(key, value)
}

/// Relies on `sled::Batch::remove`: records a removal as the key's last write.
#[verifier::external_body]
fn batch_remove(b: &mut sled::Batch, key: Vec<u8>)
    ensures
        batch_writes(*final(b)) == batch_writes(*old(b)).insert(key@, None),
{
    b.remove(key)
}

/// Relies on `sled::Tree::apply_batch`: on success every write of the batch is applied, all
/// together. A storage failure promises nothing about the contents.
#[verifier::external_body]
fn tree_apply_batch(t: &mut sled::Tree, b: sled::Batch) -> (r: Result<(), MetaStorageError>)
    ensures
        r is Ok ==> tree_contents(*final(t)) == applied(tree_contents(*old(t)), batch_writes(b)),
        r matches Err(e) ==> e == MetaStorageError::SledError,
{
    t.apply_batch(b).map_err(|_e| MetaStorageError::SledError)
}

/// Relies on `sled::Tree::flush`: writes dirty buffers to disk; the contents stay.
#[verifier::external_body]
fn tree_flush(t: &mut sled::Tree) -> (r: Result<(), MetaStorageError>)
    ensures
        tree_contents(*final(t)) == tree_contents(*old(t)),
        r matches Err(e) ==> e == MetaStorageError::SledError,
{
    t.flush().map(|_n| ()).map_err(|_e| MetaStorageError::SledError)
}

/// Relies on `sled::Tree::get`: the value stored under the key, if any.
#[verifier::external_body]
fn tree_get(t: &sled::Tree, key: &Vec<u8>) -> (r: Result<Option<Vec<u8>>, MetaStorageError>)
    ensures
        r matches Ok(Some(v)) ==> tree_contents(*t).contains_key(key@) && tree_contents(*t)[key@] == v@,
        r matches Ok(None) ==> !tree_contents(*t).contains_key(key@),
        r matches Err(e) ==> e == MetaStorageError::SledError,
{
    t.get(key).map(|o| o.map(|v| v.to_vec())).map_err(|_e| MetaStorageError::SledError)
}

/// A sled tree holding the pairs of several key spaces.
pub struct SledTree {
    pub name: String,
    /// Whether writes are made durable when a caller asks for it.
    pub sync: bool,
    pub tree: sled::Tree,
}

impl SledTree {
    pub fn new(name: String, sync: bool, tree: sled::Tree) -> (r: SledTree)
        ensures
            r.name == name,
            r.sync == sync,
            r.tree == tree,
    {
        SledTree { name, sync, tree }
    }

    /// The value stored under `key`.
    pub fn get(&self, key: &Vec<u8>) -> (r: Result<Option<Vec<u8>>, MetaStorageError>)
        ensures
            r matches Ok(Some(v)) ==> tree_contents(self.tree).contains_key(key@) && tree_contents(self.tree)[key@] == v@,
            r matches Ok(None) ==> !tree_contents(self.tree).contains_key(key@),
            r is Err ==> r == Err::<Option<Vec<u8>>, MetaStorageError>(MetaStorageError::SledError),
    {
        tree_get(&self.tree, key)
    }

    /// Commits the outcome of a transaction body: when the body failed (`body` is an
    /// error, a conflict included), nothing is written and its error is returned, and the
    /// caller retries a conflict; otherwise all its writes are applied together and, when
    /// `sync` is asked for and the tree syncs, flushed. Returns whether it flushed.
    pub fn txn(&mut self, sync: bool, body: Result<Vec<(Vec<u8>, Option<Vec<u8>>)>, MetaStorageError>) -> (r: Result<bool, MetaStorageError>)
        ensures
            final(self).name == old(self).name,
            final(self).sync == old(self).sync,
            body matches Err(e) ==> r == Err::<bool, MetaStorageError>(e)
                && tree_contents(final(self).tree) == tree_contents(old(self).tree),
            body matches Ok(ws) ==> (r matches Ok(flushed) ==> flushed == (sync && old(self).sync)
                && tree_contents(final(self).tree) == applied(tree_contents(old(self).tree), staged(ws@))),
            body is Ok && r is Err ==> r == Err::<bool, MetaStorageError>(MetaStorageError::SledError),
    {
        let writes = match body {
            Ok(ws) => ws,
            Err(e) => {
                return Err(e);
            },
        };
        let ghost all = writes@;
        let n = writes.len();
        let mut batch = new_batch();
        let mut rest = writes;
        let mut i: usize = 0;
        proof {
            assert(all.subrange(0, 0) =~= Seq::<(Vec<u8>, Option<Vec<u8>>)>::empty());
            assert(batch_writes(batch) =~= staged(all.subrange(0, 0)));
        }
        while rest.len() > 0
            invariant
                i <= all.len(),
                all.len() == n,
                rest@ == all.subrange(i as int, all.len() as int),
                batch_writes(batch) == staged(all.subrange(0, i as int)),
            decreases rest@.len(),
        {
            let (k, v) = rest.remove(0);
            proof {
                let sub = all.subrange(0, i as int + 1);
                assert(sub.drop_last() =~= all.subrange(0, i as int));
                assert(sub.last() == all[i as int]);
            }
            match v {
                Some(v) => batch_insert(&mut batch, k, v),
                None => batch_remove(&mut batch, k),
            }
            i += 1;
            assert(rest@ =~= all.subrange(i as int, all.len() as int));
        }
        assert(all.subrange(0, all.len() as int) =~= all);
        tree_apply_batch(&mut self.tree, batch)?;
        let flush = sync && self.sync;
        if flush {
            tree_flush(&mut self.tree)?;
        }
        Ok(flush)
    }

    /// Reads the value under `key`, hands it to `f`, and stores what `f` returns: a value
    /// replaces the old one, `None` removes the key. Returns the new value.
    pub fn update_and_fetch<F: Fn(Option<Vec<u8>>) -> Option<Vec<u8>>>(&mut self, key: &Vec<u8>, f: F) -> (r: Result<Option<Vec<u8>>, MetaStorageError>)
        requires
            forall|v: Option<Vec<u8>>| f.requires((v,)),
        ensures
            final(self).sync == old(self).sync,
            r matches Ok(new) ==> {
                let before = tree_contents(old(self).tree);
                let current = if before.contains_key(key@) { Some(before[key@]) } else { None::<Seq<u8>> };
                &&& exists|v: Option<Vec<u8>>| #[trigger] f.ensures((v,), new) && match v {
                    Some(x) => current == Some(x@),
                    None => current is None,
                }
                &&& tree_contents(final(self).tree) == applied(before, map![key@ => match new {
                    Some(x) => Some(x@),
                    None => None,
                }])
            },
            r matches Err(e) ==> e == MetaStorageError::SledError,
    {
        let current = self.get(key)?;
        let ghost cur = current;
        let new = f(current);
        let ghost newv = new;
        let write = match &new {
            Some(v) => {
                let c = v.clone();
                assert(c@ =~= v@);
                Some(c)
            },
            None => None,
        };
        proof {
            assert(f.ensures((cur,), new));
        }
        let ghost wv: Option<Seq<u8>> = match write { Some(ref c) => Some(c@), None => None };
        assert(wv == match newv { Some(x) => Some(x@), None => None::<Seq<u8>> });
        let kc = key.clone();
        assert(kc@ =~= key@);
        let mut writes: Vec<(Vec<u8>, Option<Vec<u8>>)> = Vec::new();
        writes.push((kc, write));
        let ghost ws = writes@;
        let flushed = self.txn(false, Ok(writes))?;
        proof {
            assert(ws.drop_last() =~= Seq::<(Vec<u8>, Option<Vec<u8>>)>::empty());
            assert(ws.last().0@ == key@);
            assert(staged(ws.drop_last()) =~= Map::<Seq<u8>, Option<Seq<u8>>>::empty());
            let one = map![key@ => match newv { Some(x) => Some(x@), None => None::<Seq<u8>> }];
            assert(staged(ws) =~= one);
        }
        Ok(new)
    }
}

} // verus!
