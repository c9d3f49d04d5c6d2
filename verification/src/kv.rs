//! The boundary to the embedded key-value store. Each keyspace is modelled
//! as a map from text keys to byte-string values; the wrappers here are the
//! only places the outside store is touched, and their contracts state what
//! the store's own documentation and source promise.

use vstd::prelude::*;

use crate::errors::StorageError;

verus! {

#[verifier::external_type_specification]
#[verifier::external_body]
pub struct ExDb(sled::Db);

#[verifier::external_type_specification]
#[verifier::external_body]
pub struct ExTree(sled::Tree);

#[verifier::external_type_specification]
#[verifier::external_body]
pub struct ExBatch(sled::Batch);

/// What a keyspace holds: each text key's byte-string value.
pub uninterp spec fn tree_contents(t: sled::Tree) -> Map<Seq<char>, Seq<u8>>;

/// The writes a batch will apply.
pub uninterp spec fn batch_inserts(b: sled::Batch) -> Map<Seq<char>, Seq<u8>>;

/// The keys a batch will take out.
pub uninterp spec fn batch_removes(b: sled::Batch) -> Set<Seq<char>>;

/// The ids the store's counter can no longer hand out: every id it gives
/// from now on is at least this.
pub uninterp spec fn db_id_floor(d: sled::Db) -> int;

/// Relies on `sled::Tree::get`: returns the value stored under the key, or
/// nothing when the key is absent.
#[verifier::external_body]
pub(crate) fn tree_get(t: &sled::Tree, key: &str) -> (r: Result<Option<Vec<u8>>, StorageError>)
    ensures
        match r {
            Ok(Some(v)) => tree_contents(*t).contains_key(key@) && v@ == tree_contents(*t)[key@],
            Ok(None) => !tree_contents(*t).contains_key(key@),
            Err(e) => e == StorageError::StoreError,
        },
{
    match t.get(key.as_bytes()) {
        Ok(Some(v)) => Ok(Some(v.to_vec())),
        Ok(None) => Ok(None),
        Err(_) => Err(StorageError::StoreError),
    }
}

/// Relies on `sled::Tree::insert`: sets the key to the value.
#[verifier::external_body]
pub(crate) fn tree_insert(t: &mut sled::Tree, key: &str, value: &[u8]) -> (r: Result<
    (),
    StorageError,
>)
    ensures
        match r {
            Ok(_) => tree_contents(*final(t)) == tree_contents(*old(t)).insert(key@, value@),
            Err(e) => e == StorageError::StoreError,
        },
{
    match t.insert(key.as_bytes(), value) {
        Ok(_) => Ok(()),
        Err(_) => Err(StorageError::StoreError),
    }
}

/// Relies on `sled::Tree::scan_prefix`: yields exactly the entries whose
/// key starts with the prefix, each key once, with its stored value. Keys
/// written through this module are text, so a key that is not UTF-8 is a
/// corruption.
#[verifier::external_body]
pub(crate) fn tree_scan_prefix(t: &sled::Tree, prefix: &str) -> (r: Result<
    Vec<(String, Vec<u8>)>,
    StorageError,
>)
    ensures
        match r {
            Ok(entries) => {
                &&& forall|i: int|
                    0 <= i < entries@.len() ==> {
                        &&& tree_contents(*t).contains_key((#[trigger] entries@[i]).0@)
                        &&& prefix@.is_prefix_of(entries@[i].0@)
                        &&& entries@[i].1@ == tree_contents(*t)[entries@[i].0@]
                    }
                &&& forall|k: Seq<char>|
                    #[trigger] tree_contents(*t).contains_key(k) && prefix@.is_prefix_of(k)
                        ==> exists|i: int|
                        0 <= i < entries@.len() && (#[trigger] entries@[i]).0@ == k
                &&& forall|i: int, j: int|
                    0 <= i < j < entries@.len() ==> (#[trigger] entries@[i]).0@ != (
                    #[trigger] entries@[j]).0@
            },
            Err(e) => e == StorageError::StoreError || e == StorageError::CorruptData,
        },
{
    let mut out: Vec<(String, Vec<u8>)> = Vec::new();
    for item in t.scan_prefix(prefix.as_bytes()) {
        let (k, v) = match item {
            Ok(kv) => kv,
            Err(_) => return Err(StorageError::StoreError),
        };
        let ks = match String::from_utf8(k.to_vec()) {
            Ok(s) => s,
            Err(_) => return Err(StorageError::CorruptData),
        };
        out.push((ks, v.to_vec()));
    }
    Ok(out)
}

/// A batch that writes nothing yet.
pub open spec fn batch_is_empty(b: sled::Batch) -> bool {
    batch_inserts(b) == Map::<Seq<char>, Seq<u8>>::empty() && batch_removes(b) == Set::<
        Seq<char>,
    >::empty()
}

/// Relies on `sled::Batch::default`: a fresh batch writes nothing.
#[verifier::external_body]
pub(crate) fn batch_new() -> (r: sled::Batch)
    ensures
        batch_is_empty(r),
{
    sled::Batch::default()
}

/// Relies on `sled::Batch::insert`: the batch's last write to a key wins.
#[verifier::external_body]
pub(crate) fn batch_insert(b: &mut sled::Batch, key: &str, value: &[u8])
    ensures
        batch_inserts(*final(b)) == batch_inserts(*old(b)).insert(key@, value@),
        batch_removes(*final(b)) == batch_removes(*old(b)).remove(key@),
{
    b.insert(key.as_bytes(), value);
}

/// Relies on `sled::Batch::remove`: the batch's last write to a key wins.
#[verifier::external_body]
pub(crate) fn batch_remove(b: &mut sled::Batch, key: &str)
    ensures
        batch_inserts(*final(b)) == batch_inserts(*old(b)).remove(key@),
        batch_removes(*final(b)) == batch_removes(*old(b)).insert(key@),
{
    b.remove(key.as_bytes());
}

/// Relies on `sled::Tree::apply_batch`: all of the batch's writes land, as
/// one atomic step of this keyspace.
#[verifier::external_body]
pub(crate) fn tree_apply_batch(t: &mut sled::Tree, b: sled::Batch) -> (r: Result<
    (),
    StorageError,
>)
    ensures
        match r {
            Ok(_) => tree_contents(*final(t)) == tree_contents(*old(t)).remove_keys(
                batch_removes(b),
            ).union_prefer_right(batch_inserts(b)),
            Err(e) => e == StorageError::StoreError,
        },
{
    match t.apply_batch(b) {
        Ok(_) => Ok(()),
        Err(_) => Err(StorageError::StoreError),
    }
}

/// Relies on `sled::Db::generate_id`: a monotonic counter that never hands
/// the same id out twice; a failed draw never lowers it either.
#[verifier::external_body]
pub(crate) fn db_generate_id(d: &mut sled::Db) -> (r: Result<u64, StorageError>)
    ensures
        match r {
            Ok(n) => n as int >= db_id_floor(*old(d)) && db_id_floor(*final(d)) == n as int + 1,
            Err(e) => e == StorageError::StoreError && db_id_floor(*final(d)) >= db_id_floor(
                *old(d),
            ),
        },
{
    match d.generate_id() {
        Ok(n) => Ok(n),
        Err(_) => Err(StorageError::StoreError),
    }
}

// ---------------------------------------------------------------------------
// The engine's handle set
// ---------------------------------------------------------------------------

/// The store plus its six keyspaces, created once and handed to every
/// repository operation.
pub struct Storage {
    pub(crate) db: sled::Db,
    pub(crate) users: sled::Tree,
    pub(crate) name_index: sled::Tree,
    pub(crate) ip_index: sled::Tree,
    pub(crate) groups: sled::Tree,
    pub(crate) punishments: sled::Tree,
    pub(crate) ip_punishments: sled::Tree,
}

/// The mathematical view of a [`Storage`]: one map per keyspace and the id
/// counter's floor.
#[verifier::ext_equal]
pub ghost struct StoreView {
    pub users: Map<Seq<char>, Seq<u8>>,
    pub name_index: Map<Seq<char>, Seq<u8>>,
    pub ip_index: Map<Seq<char>, Seq<u8>>,
    pub groups: Map<Seq<char>, Seq<u8>>,
    pub punishments: Map<Seq<char>, Seq<u8>>,
    pub ip_punishments: Map<Seq<char>, Seq<u8>>,
    pub id_floor: int,
}

impl StoreView {
    /// The view of a store that holds nothing yet.
    pub open spec fn empty() -> StoreView {
        StoreView {
            users: Map::empty(),
            name_index: Map::empty(),
            ip_index: Map::empty(),
            groups: Map::empty(),
            punishments: Map::empty(),
            ip_punishments: Map::empty(),
            id_floor: 0,
        }
    }
}

impl View for Storage {
    type V = StoreView;

    closed spec fn view(&self) -> StoreView {
        StoreView {
            users: tree_contents(self.users),
            name_index: tree_contents(self.name_index),
            ip_index: tree_contents(self.ip_index),
            groups: tree_contents(self.groups),
            punishments: tree_contents(self.punishments),
            ip_punishments: tree_contents(self.ip_punishments),
            id_floor: db_id_floor(self.db),
        }
    }
}

/// How the view decomposes into the handle set's parts; the repository
/// proofs read and write the parts.
pub(crate) proof fn storage_view_parts(s: &Storage)
    ensures
        s@.users == tree_contents(s.users),
        s@.name_index == tree_contents(s.name_index),
        s@.ip_index == tree_contents(s.ip_index),
        s@.groups == tree_contents(s.groups),
        s@.punishments == tree_contents(s.punishments),
        s@.ip_punishments == tree_contents(s.ip_punishments),
        s@.id_floor == db_id_floor(s.db),
{
}

/// Relies on `sled::Config::temporary` and `sled::Db::open_tree`: a
/// temporary store starts empty, its id counter at zero, and is removed
/// when dropped.
#[verifier::external_body]
fn open_temporary_raw() -> (r: Result<Storage, StorageError>)
    ensures
        match r {
            Ok(s) => s@ == StoreView::empty(),
            Err(e) => e == StorageError::StoreError,
        },
{
    let db = sled::Config::new().temporary(true).open().map_err(|_| StorageError::StoreError)?;
    let users = db.open_tree("users").map_err(|_| StorageError::StoreError)?;
    let name_index = db.open_tree("name_index").map_err(|_| StorageError::StoreError)?;
    let ip_index = db.open_tree("ip_index").map_err(|_| StorageError::StoreError)?;
    let groups = db.open_tree("groups").map_err(|_| StorageError::StoreError)?;
    let punishments = db.open_tree("punishments").map_err(|_| StorageError::StoreError)?;
    let ip_punishments = db.open_tree("ip_punishments").map_err(|_| StorageError::StoreError)?;
    Ok(Storage { db, users, name_index, ip_index, groups, punishments, ip_punishments })
}

/// Relies on `sled::open` and `sled::Db::open_tree`: opens (or creates)
/// the on-disk store at `path` with the engine's six keyspaces. Nothing is
/// assumed about what the directory already holds.
#[verifier::external_body]
fn open_at_raw(path: &str) -> (r: Result<Storage, StorageError>)
    ensures
        r matches Err(e) ==> e == StorageError::StoreError,
{
    let db = sled::open(path).map_err(|_| StorageError::StoreError)?;
    let users = db.open_tree("users").map_err(|_| StorageError::StoreError)?;
    let name_index = db.open_tree("name_index").map_err(|_| StorageError::StoreError)?;
    let ip_index = db.open_tree("ip_index").map_err(|_| StorageError::StoreError)?;
    let groups = db.open_tree("groups").map_err(|_| StorageError::StoreError)?;
    let punishments = db.open_tree("punishments").map_err(|_| StorageError::StoreError)?;
    let ip_punishments = db.open_tree("ip_punishments").map_err(|_| StorageError::StoreError)?;
    Ok(Storage { db, users, name_index, ip_index, groups, punishments, ip_punishments })
}

impl Storage {
    /// An isolated, empty store backed by a temporary directory; it is
    /// removed when the handle is dropped.
    pub fn open_temporary() -> (r: Result<Storage, StorageError>)
        ensures
            match r {
                Ok(s) => s@ == StoreView::empty(),
                Err(e) => e == StorageError::StoreError,
            },
    {
        open_temporary_raw()
    }

    /// The on-disk store at `path`, with whatever it already holds.
    pub fn open_at(path: &str) -> (r: Result<Storage, StorageError>)
        ensures
            r matches Err(e) ==> e == StorageError::StoreError,
    {
        open_at_raw(path)
    }
}

} // verus!
