//! Repository operations: CRUD and query functions per entity, built on
//! the schema layer and the codec, with contracts stated over the store's
//! view. Every read is pinned to what the view holds; a write says exactly
//! which keys it sets. `StoreError` can surface from any operation — it
//! reports the engine itself failing — and no contract promises its
//! absence; everything else is owed as stated.

use vstd::prelude::*;

use crate::codec::{timestamp_bytes, timestamp_of_bytes, u64_be_value};
use crate::domain::{Group, GroupModel, PermModel, Permission};
use crate::errors::StorageError;
use crate::kv::{storage_view_parts, tree_get, tree_insert, tree_scan_prefix, Storage, StoreView};
use crate::schema::{colon_free, field_key, member_key, rel_prefix, spec_field_key,
    spec_member_key, spec_rel_prefix};

verus! {

use vstd::utf8::{decode_utf8, encode_utf8, valid_utf8};
use vstd::string::{StrSliceExecFns, StringSliceAdditionalSpecFns};

/// Shorthand for one keyspace's contents.
pub type KvMap = Map<Seq<char>, Seq<u8>>;

// ---------------------------------------------------------------------------
// Spec-level field reads
// ---------------------------------------------------------------------------

/// The value under a key, if any.
pub open spec fn val_at(m: KvMap, k: Seq<char>) -> Option<Seq<u8>> {
    if m.contains_key(k) {
        Some(m[k])
    } else {
        None
    }
}

/// How a stored byte string reads as a boolean.
pub open spec fn bool_of_val(v: Seq<u8>) -> bool {
    v.len() > 0 && v[0] != 0
}

/// A boolean field, with its documented default when absent.
pub open spec fn read_bool_or(m: KvMap, k: Seq<char>, d: bool) -> bool {
    match val_at(m, k) {
        None => d,
        Some(v) => bool_of_val(v),
    }
}

/// A text field, with its documented default when absent.
pub open spec fn read_str_or(m: KvMap, k: Seq<char>, d: Seq<char>) -> Seq<char> {
    match val_at(m, k) {
        None => d,
        Some(v) => decode_utf8(v),
    }
}

/// Whether a text field is readable: absent, or valid UTF-8.
pub open spec fn str_field_ok(m: KvMap, k: Seq<char>) -> bool {
    match val_at(m, k) {
        None => true,
        Some(v) => valid_utf8(v),
    }
}

// ---------------------------------------------------------------------------
// Groups
// ---------------------------------------------------------------------------

/// A group exists when its last-modification field does.
pub open spec fn group_exists(g: KvMap, name: Seq<char>) -> bool {
    g.contains_key(spec_field_key(name, "modified_at"@))
}

/// Whether every stored field of the group parses.
pub open spec fn group_readable(g: KvMap, name: Seq<char>) -> bool {
    &&& match val_at(g, spec_field_key(name, "modified_at"@)) {
        None => true,
        Some(v) => v.len() >= 7 && timestamp_of_bytes(v).wf(),
    }
    &&& str_field_ok(g, spec_field_key(name, "prefix"@))
    &&& str_field_ok(g, spec_field_key(name, "suffix"@))
}

/// What a read of the group named `name` returns.
pub open spec fn is_group_read(g: KvMap, name: Seq<char>, grp: GroupModel) -> bool {
    let pprefix = spec_rel_prefix(name, "permissions"@);
    &&& grp.name == name
    &&& grp.prefix == read_str_or(g, spec_field_key(name, "prefix"@), Seq::<char>::empty())
    &&& grp.suffix == read_str_or(g, spec_field_key(name, "suffix"@), Seq::<char>::empty())
    &&& match val_at(g, spec_field_key(name, "modified_at"@)) {
        None => false,
        Some(v) => grp.last_modification == timestamp_of_bytes(v),
    }
    &&& forall|i: int|
        0 <= i < grp.perms.len() ==> {
            &&& g.contains_key(pprefix + (#[trigger] grp.perms[i]).name)
            &&& grp.perms[i].value == bool_of_val(g[pprefix + grp.perms[i].name])
        }
    &&& forall|k: Seq<char>|
        #[trigger] g.contains_key(k) && pprefix.is_prefix_of(k) ==> exists|i: int|
            0 <= i < grp.perms.len() && (#[trigger] grp.perms[i]).name == k.skip(
                pprefix.len() as int,
            )
    &&& forall|i: int, j: int|
        0 <= i < j < grp.perms.len() ==> (#[trigger] grp.perms[i]).name != (
        #[trigger] grp.perms[j]).name
}

impl Storage {
    /// The name the default-group pointer holds, if it is set.
    pub fn get_default_group_name(&self) -> (r: Result<Option<String>, StorageError>)
        ensures
            match r {
                Ok(Some(s)) => val_at(self@.groups, "default_group"@) matches Some(v)
                    && valid_utf8(v) && s@ == decode_utf8(v),
                Ok(None) => val_at(self@.groups, "default_group"@) is None,
                Err(e) => e == StorageError::StoreError || (e == StorageError::CorruptData
                    && (val_at(self@.groups, "default_group"@) matches Some(v) && !valid_utf8(v))),
            },
    {
        proof {
            storage_view_parts(self);
        }
        match tree_get(&self.groups, "default_group")? {
            None => Ok(None),
            Some(v) => match crate::codec::bytes_to_string(v) {
                Some(s) => Ok(Some(s)),
                None => Err(StorageError::CorruptData),
            },
        }
    }

    /// Points the default-group pointer at `name`.
    pub fn set_default_group(&mut self, name: &str) -> (r: Result<(), StorageError>)
        ensures
            same_but_groups(old(self)@, final(self)@),
            match r {
                Ok(_) => final(self)@.groups == old(self)@.groups.insert(
                    "default_group"@,
                    name.spec_bytes(),
                ),
                Err(e) => e == StorageError::StoreError,
            },
    {
        proof {
            storage_view_parts(self);
        }
        let bytes = name.as_bytes();
        let r = tree_insert(&mut self.groups, "default_group", bytes);
        proof {
            storage_view_parts(self);
        }
        r
    }
}

impl Storage {
    /// The stored schema version, if the bootstrap has recorded one; the
    /// engine itself never migrates, it only keeps the mark.
    pub fn get_schema_version(&self) -> (r: Result<Option<u64>, StorageError>)
        ensures
            match r {
                Ok(Some(n)) => val_at(self@.groups, "schema_version"@) matches Some(v) && v.len()
                    >= 8 && n == u64_be_value(v),
                Ok(None) => val_at(self@.groups, "schema_version"@) is None,
                Err(e) => e == StorageError::StoreError || (e == StorageError::CorruptData
                    && (val_at(self@.groups, "schema_version"@) matches Some(v) && v.len() < 8)),
            },
    {
        proof {
            storage_view_parts(self);
        }
        match tree_get(&self.groups, "schema_version")? {
            None => Ok(None),
            Some(v) => match crate::codec::decode_u64(v.as_slice()) {
                Ok(n) => Ok(Some(n)),
                Err(e) => Err(e),
            },
        }
    }

    /// Records the schema version.
    pub fn set_schema_version(&mut self, version: u64) -> (r: Result<(), StorageError>)
        ensures
            same_but_groups(old(self)@, final(self)@),
            match r {
                Ok(_) => final(self)@.groups == old(self)@.groups.insert(
                    "schema_version"@,
                    crate::codec::u64_be_bytes(version),
                ),
                Err(e) => e == StorageError::StoreError,
            },
    {
        proof {
            storage_view_parts(self);
        }
        let bytes = crate::codec::encode_u64(version);
        let r = tree_insert(&mut self.groups, "schema_version", bytes.as_slice());
        proof {
            storage_view_parts(self);
        }
        r
    }
}

/// Everything of the view except the groups keyspace is the same.
pub open spec fn same_but_groups(a: StoreView, b: StoreView) -> bool {
    &&& a.users == b.users
    &&& a.name_index == b.name_index
    &&& a.ip_index == b.ip_index
    &&& a.punishments == b.punishments
    &&& a.ip_punishments == b.ip_punishments
    &&& a.id_floor == b.id_floor
}

/// Everything of the view except the users keyspace is the same.
pub open spec fn same_but_users(a: StoreView, b: StoreView) -> bool {
    &&& a.name_index == b.name_index
    &&& a.ip_index == b.ip_index
    &&& a.groups == b.groups
    &&& a.punishments == b.punishments
    &&& a.ip_punishments == b.ip_punishments
    &&& a.id_floor == b.id_floor
}

/// `base` with one key per permission member set on top, first to last.
pub open spec fn insert_perms(base: KvMap, name: Seq<char>, perms: Seq<PermModel>) -> KvMap
    decreases perms.len(),
{
    if perms.len() == 0 {
        base
    } else {
        insert_perms(base, name, perms.drop_last()).insert(
            spec_member_key(name, "permissions"@, perms.last().name),
            seq![crate::serial::bool_byte(perms.last().value)],
        )
    }
}

/// The keys and values one full-group rewrite sets.
pub open spec fn group_record_map(gm: GroupModel) -> KvMap {
    insert_perms(
        Map::<Seq<char>, Seq<u8>>::empty().insert(
            spec_field_key(gm.name, "modified_at"@),
            timestamp_bytes(gm.last_modification),
        ).insert(spec_field_key(gm.name, "prefix"@), encode_utf8(gm.prefix)).insert(
            spec_field_key(gm.name, "suffix"@),
            encode_utf8(gm.suffix),
        ),
        gm.name,
        gm.perms,
    )
}

/// What the groups keyspace holds after a full rewrite of `gm`: every old
/// permission member gone, every field and member of `gm` set.
pub open spec fn spec_put_group(g: KvMap, gm: GroupModel) -> KvMap {
    g.remove_keys(prefix_key_set(spec_rel_prefix(gm.name, "permissions"@))).union_prefer_right(
        group_record_map(gm),
    )
}

/// The keys a relation prefix owns, present or not.
pub open spec fn prefix_key_set(p: Seq<char>) -> Set<Seq<char>> {
    Set::new(|k: Seq<char>| p.is_prefix_of(k))
}

/// Marks every stored key under `prefix` for removal in `b`.
fn batch_clear_prefix(t: &sled::Tree, b: &mut sled::Batch, prefix: &str) -> (r: Result<
    (),
    StorageError,
>)
    ensures
        match r {
            Ok(_) => {
                let cleared = prefix_key_set(prefix@).intersect(
                    crate::kv::tree_contents(*t).dom(),
                );
                &&& crate::kv::batch_removes(*final(b)) == crate::kv::batch_removes(
                    *old(b),
                ).union(cleared)
                &&& crate::kv::batch_inserts(*final(b)) == crate::kv::batch_inserts(
                    *old(b),
                ).remove_keys(cleared)
            },
            Err(e) => e == StorageError::StoreError || e == StorageError::CorruptData,
        },
{
    let ghost m = crate::kv::tree_contents(*t);
    let entries = tree_scan_prefix(t, prefix)?;
    let mut i: usize = 0;
    while i < entries.len()
        invariant
            0 <= i <= entries@.len(),
            forall|j: int|
                0 <= j < entries@.len() ==> m.contains_key((#[trigger] entries@[j]).0@)
                    && prefix@.is_prefix_of(entries@[j].0@),
            forall|k: Seq<char>|
                #[trigger] m.contains_key(k) && prefix@.is_prefix_of(k) ==> exists|j: int|
                    0 <= j < entries@.len() && (#[trigger] entries@[j]).0@ == k,
            crate::kv::batch_removes(*b) == crate::kv::batch_removes(*old(b)).union(
                Set::new(
                    |k: Seq<char>|
                        exists|j: int| 0 <= j < i && (#[trigger] entries@[j]).0@ == k,
                ),
            ),
            crate::kv::batch_inserts(*b) == crate::kv::batch_inserts(*old(b)).remove_keys(
                Set::new(
                    |k: Seq<char>|
                        exists|j: int| 0 <= j < i && (#[trigger] entries@[j]).0@ == k,
                ),
            ),
        decreases entries@.len() - i,
    {
        crate::kv::batch_remove(b, entries[i].0.as_str());
        i += 1;
        proof {
            let done = Set::new(
                |k: Seq<char>| exists|j: int| 0 <= j < i - 1 && (#[trigger] entries@[j]).0@ == k,
            );
            let now = Set::new(
                |k: Seq<char>| exists|j: int| 0 <= j < i && (#[trigger] entries@[j]).0@ == k,
            );
            assert(done.insert(entries@[i - 1].0@) =~= now);
            assert(crate::kv::batch_removes(*old(b)).union(done).insert(entries@[i - 1].0@)
                =~= crate::kv::batch_removes(*old(b)).union(now));
            assert(crate::kv::batch_inserts(*old(b)).remove_keys(done).remove(entries@[i - 1].0@)
                =~= crate::kv::batch_inserts(*old(b)).remove_keys(now));
        }
    }
    proof {
        let all = Set::new(
            |k: Seq<char>|
                exists|j: int| 0 <= j < entries@.len() && (#[trigger] entries@[j]).0@ == k,
        );
        let cleared = prefix_key_set(prefix@).intersect(m.dom());
        assert forall|k: Seq<char>| all.contains(k) implies cleared.contains(k) by {}
        assert forall|k: Seq<char>| cleared.contains(k) implies all.contains(k) by {
            assert(m.contains_key(k) && prefix@.is_prefix_of(k));
        }
        assert(all =~= cleared);
    }
    Ok(())
}

impl Storage {
    /// Reads the whole group named `name`: point-reads prefix, suffix and
    /// the last-modification time, and enumerates the permission set.
    pub fn get_group_full(&self, name: &str) -> (r: Result<Option<Group>, StorageError>)
        ensures
            match r {
                Ok(Some(grp)) => group_exists(self@.groups, name@) && group_readable(
                    self@.groups,
                    name@,
                ) && is_group_read(self@.groups, name@, grp@),
                Ok(None) => !group_exists(self@.groups, name@),
                Err(e) => e == StorageError::StoreError || e == StorageError::CorruptData,
            },
    {
        proof {
            storage_view_parts(self);
        }
        let modified_key = field_key(name, "modified_at");
        let modified_raw = match tree_get(&self.groups, modified_key.as_str())? {
            None => {
                return Ok(None);
            },
            Some(v) => v,
        };
        let last_modification = match crate::codec::decode_timestamp(modified_raw.as_slice()) {
            Ok(t) => t,
            Err(_) => {
                return Err(StorageError::CorruptData);
            },
        };
        let prefix_key = field_key(name, "prefix");
        let prefix = match tree_get(&self.groups, prefix_key.as_str())? {
            None => String::new(),
            Some(v) => match crate::codec::bytes_to_string(v) {
                Some(s) => s,
                None => {
                    return Err(StorageError::CorruptData);
                },
            },
        };
        let suffix_key = field_key(name, "suffix");
        let suffix = match tree_get(&self.groups, suffix_key.as_str())? {
            None => String::new(),
            Some(v) => match crate::codec::bytes_to_string(v) {
                Some(s) => s,
                None => {
                    return Err(StorageError::CorruptData);
                },
            },
        };
        let pprefix = rel_prefix(name, "permissions");
        let plen = pprefix.as_str().unicode_len();
        let entries = tree_scan_prefix(&self.groups, pprefix.as_str())?;
        let mut perms: Vec<Permission> = Vec::new();
        let ghost g = self@.groups;
        let mut i: usize = 0;
        while i < entries.len()
            invariant
                0 <= i <= entries@.len(),
                plen == spec_rel_prefix(name@, "permissions"@).len(),
                perms@.len() == i,
                forall|j: int|
                    0 <= j < entries@.len() ==> {
                        &&& g.contains_key((#[trigger] entries@[j]).0@)
                        &&& spec_rel_prefix(name@, "permissions"@).is_prefix_of(entries@[j].0@)
                        &&& entries@[j].1@ == g[entries@[j].0@]
                    },
                forall|j: int|
                    0 <= j < i ==> (#[trigger] perms@[j])@.name == entries@[j].0@.skip(plen as int)
                        && perms@[j]@.value == bool_of_val(g[entries@[j].0@]),
                forall|j1: int, j2: int|
                    0 <= j1 < j2 < entries@.len() ==> (#[trigger] entries@[j1]).0@ != (
                    #[trigger] entries@[j2]).0@,
            decreases entries@.len() - i,
        {
            let key = &entries[i].0;
            let val = &entries[i].1;
            let klen = key.as_str().unicode_len();
            let member = key.as_str().substring_char(plen, klen).to_owned();
            let value = val.len() >= 1 && val[0] != 0;
            perms.push(Permission { permission: member, value });
            i += 1;
        }
        let grp = Group { name: name.to_owned(), prefix, suffix, perms, last_modification };
        proof {
            let pp = spec_rel_prefix(name@, "permissions"@);
            assert forall|ix: int| 0 <= ix < grp@.perms.len() implies {
                &&& g.contains_key(pp + (#[trigger] grp@.perms[ix]).name)
                &&& grp@.perms[ix].value == bool_of_val(g[pp + grp@.perms[ix].name])
            } by {
                let k = entries@[ix].0@;
                assert(pp + k.skip(pp.len() as int) =~= k);
                assert(grp@.perms[ix].name == k.skip(pp.len() as int));
            }
            assert forall|k: Seq<char>| #[trigger]
                g.contains_key(k) && pp.is_prefix_of(k) implies exists|ix: int|
                0 <= ix < grp@.perms.len() && (#[trigger] grp@.perms[ix]).name == k.skip(
                pp.len() as int,
            ) by {
                let j = choose|j: int|
                    0 <= j < entries@.len() && (#[trigger] entries@[j]).0@ == k;
                assert(grp@.perms[j].name == k.skip(pp.len() as int));
            }
            assert forall|j1: int, j2: int|
                0 <= j1 < j2 < grp@.perms.len() implies (#[trigger] grp@.perms[j1]).name != (
            #[trigger] grp@.perms[j2]).name by {
                assert(entries@[j1].0@ != entries@[j2].0@);
                crate::schema::lemma_prefixed_key_is_member_key(
                    name@,
                    "permissions"@,
                    entries@[j1].0@,
                );
                crate::schema::lemma_prefixed_key_is_member_key(
                    name@,
                    "permissions"@,
                    entries@[j2].0@,
                );
            }
        }
        Ok(Some(grp))
    }

    /// Rewrites the whole group record: administrator-managed groups are
    /// mutated by full-record rewrite, never by field patch.
    pub fn put_group(&mut self, group: &Group) -> (r: Result<(), StorageError>)
        ensures
            same_but_groups(old(self)@, final(self)@),
            r matches Ok(_) ==> final(self)@.groups == spec_put_group(old(self)@.groups, group@),
            r matches Err(e) ==> e == StorageError::StoreError || e == StorageError::CorruptData,
    {
        proof {
            storage_view_parts(self);
        }
        let ghost g0 = self@.groups;
        let pprefix = rel_prefix(group.name.as_str(), "permissions");
        let mut batch = crate::kv::batch_new();
        batch_clear_prefix(&self.groups, &mut batch, pprefix.as_str())?;
        let ghost cleared = prefix_key_set(pprefix@).intersect(g0.dom());
        let mod_key = field_key(group.name.as_str(), "modified_at");
        let tsb = crate::codec::encode_timestamp(group.last_modification);
        crate::kv::batch_insert(&mut batch, mod_key.as_str(), tsb.as_slice());
        let pre_key = field_key(group.name.as_str(), "prefix");
        crate::kv::batch_insert(&mut batch, pre_key.as_str(), group.prefix.as_str().as_bytes());
        let suf_key = field_key(group.name.as_str(), "suffix");
        crate::kv::batch_insert(&mut batch, suf_key.as_str(), group.suffix.as_str().as_bytes());
        let ghost scalars = Map::<Seq<char>, Seq<u8>>::empty().insert(
            spec_field_key(group@.name, "modified_at"@),
            timestamp_bytes(group@.last_modification),
        ).insert(spec_field_key(group@.name, "prefix"@), encode_utf8(group@.prefix)).insert(
            spec_field_key(group@.name, "suffix"@),
            encode_utf8(group@.suffix),
        );
        proof {
            assert(crate::kv::batch_inserts(batch) =~= scalars);
            assert(crate::kv::batch_removes(batch) =~= cleared.difference(
                crate::kv::batch_inserts(batch).dom(),
            ));
        }
        let ghost pviews = group.perms@.map_values(|p: Permission| p@);
        let mut i: usize = 0;
        proof {
            assert(insert_perms(scalars, group@.name, pviews.take(0)) == scalars);
        }
        while i < group.perms.len()
            invariant
                0 <= i <= group.perms@.len(),
                pviews == group.perms@.map_values(|p: Permission| p@),
                crate::kv::batch_inserts(batch) == insert_perms(
                    scalars,
                    group@.name,
                    pviews.take(i as int),
                ),
                crate::kv::batch_removes(batch) == cleared.difference(
                    crate::kv::batch_inserts(batch).dom(),
                ),
            decreases group.perms@.len() - i,
        {
            let mkey = member_key(
                group.name.as_str(),
                "permissions",
                group.perms[i].permission.as_str(),
            );
            let mut vb: Vec<u8> = Vec::new();
            vb.push(if group.perms[i].value {
                1
            } else {
                0
            });
            crate::kv::batch_insert(&mut batch, mkey.as_str(), vb.as_slice());
            i += 1;
            proof {
                assert(pviews.take(i as int).drop_last() =~= pviews.take(i - 1));
                assert(pviews.take(i as int).last() == pviews[i - 1]);
                assert(vb@ =~= seq![crate::serial::bool_byte(pviews[i - 1].value)]);
                assert(crate::kv::batch_inserts(batch) == insert_perms(
                    scalars,
                    group@.name,
                    pviews.take(i as int),
                ));
                assert(crate::kv::batch_removes(batch) =~= cleared.difference(
                    crate::kv::batch_inserts(batch).dom(),
                ));
            }
        }
        proof {
            assert(pviews.take(group.perms@.len() as int) =~= pviews);
        }
        let r = crate::kv::tree_apply_batch(&mut self.groups, batch);
        proof {
            storage_view_parts(self);
            if r is Ok {
                let p_all = prefix_key_set(spec_rel_prefix(group@.name, "permissions"@));
                let rec = group_record_map(group@);
                let got = self@.groups;
                let want = spec_put_group(g0, group@);
                assert forall|k: Seq<char>| got.contains_key(k) <==> want.contains_key(k) by {}
                assert forall|k: Seq<char>| #[trigger]
                    got.contains_key(k) && want.contains_key(k) implies got[k] == want[k] by {}
                assert(got =~= want);
            }
        }
        match r {
            Ok(_) => Ok(()),
            Err(e) => Err(e),
        }
    }
}

// ---------------------------------------------------------------------------
// Users: what the store says a user is
// ---------------------------------------------------------------------------

/// A user exists exactly when the name field does.
pub open spec fn user_exists(m: KvMap, uuid: Seq<char>) -> bool {
    m.contains_key(spec_field_key(uuid, "name"@))
}

/// Whether every scalar field of the user parses, with absence allowed
/// everywhere but the creation date: early records may predate a field, and
/// its documented default then applies, but a user without a creation date
/// is corrupt.
pub open spec fn user_scalars_ok(m: KvMap, uuid: Seq<char>) -> bool {
    &&& str_field_ok(m, spec_field_key(uuid, "name"@))
    &&& str_field_ok(m, spec_field_key(uuid, "email"@))
    &&& str_field_ok(m, spec_field_key(uuid, "suffix"@))
    &&& str_field_ok(m, spec_field_key(uuid, "lang"@))
    &&& match val_at(m, spec_field_key(uuid, "pms"@)) {
        None => true,
        Some(v) => v.len() > 0 && crate::domain::pm_mode_of_byte(v[0]) is Some,
    }
    &&& match val_at(m, spec_field_key(uuid, "coins"@)) {
        None => true,
        Some(v) => v.len() >= 8,
    }
    &&& match val_at(m, spec_field_key(uuid, "created_at"@)) {
        None => false,
        Some(v) => v.len() >= 7 && timestamp_of_bytes(v).wf(),
    }
    &&& match val_at(m, spec_field_key(uuid, "mails"@)) {
        None => true,
        Some(v) => crate::serial::spec_decode_inbox(v, 0) is Some,
    }
}

/// Every punishment link dereferences to a record that parses; a missing
/// record is a referential-integrity violation, never skipped.
pub open spec fn user_links_ok(m: KvMap, puns: KvMap, uuid: Seq<char>) -> bool {
    let p = spec_rel_prefix(uuid, "punishments"@);
    forall|k: Seq<char>|
        #[trigger] m.contains_key(k) && p.is_prefix_of(k) ==> {
            &&& puns.contains_key(k.skip(p.len() as int))
            &&& crate::serial::spec_decode_pun(puns[k.skip(p.len() as int)]) is Some
        }
}

/// The group name a user resolves to: the explicit reference, else the
/// configured default, else none.
pub open spec fn resolved_group_name(v: StoreView, uuid: Seq<char>) -> Option<Seq<char>> {
    match val_at(v.users, spec_field_key(uuid, "group"@)) {
        Some(b) => Some(decode_utf8(b)),
        None => match val_at(v.groups, "default_group"@) {
            Some(b) => Some(decode_utf8(b)),
            None => None,
        },
    }
}

/// Whether group resolution parses: the reference and pointer are text,
/// and the group it lands on is readable.
pub open spec fn user_group_ok(v: StoreView, uuid: Seq<char>) -> bool {
    &&& str_field_ok(v.users, spec_field_key(uuid, "group"@))
    &&& (val_at(v.users, spec_field_key(uuid, "group"@)) is None ==> str_field_ok(
        v.groups,
        "default_group"@,
    ))
    &&& match resolved_group_name(v, uuid) {
        None => true,
        Some(gn) => group_exists(v.groups, gn) ==> group_readable(v.groups, gn),
    }
}

/// Whether a full read of the user can run to the end.
pub open spec fn user_readable(v: StoreView, uuid: Seq<char>) -> bool {
    &&& user_scalars_ok(v.users, uuid)
    &&& user_links_ok(v.users, v.punishments, uuid)
    &&& user_group_ok(v, uuid)
}

/// The members of a flagged relation as read: exactly the stored members
/// whose value byte is set.
pub open spec fn flag_members_read(
    m: KvMap,
    uuid: Seq<char>,
    rel: Seq<char>,
    members: Seq<Seq<char>>,
) -> bool {
    let p = spec_rel_prefix(uuid, rel);
    &&& forall|i: int|
        0 <= i < members.len() ==> m.contains_key(p + #[trigger] members[i]) && bool_of_val(
            m[p + members[i]],
        )
    &&& forall|k: Seq<char>|
        #[trigger] m.contains_key(k) && p.is_prefix_of(k) && bool_of_val(m[k]) ==> exists|i: int|
            0 <= i < members.len() && #[trigger] members[i] == k.skip(p.len() as int)
    &&& forall|i: int, j: int|
        0 <= i < j < members.len() ==> #[trigger] members[i] != #[trigger] members[j]
}

/// The user's own permission set as read.
pub open spec fn perm_members_read(m: KvMap, uuid: Seq<char>, perms: Seq<PermModel>) -> bool {
    let p = spec_rel_prefix(uuid, "permissions"@);
    &&& forall|i: int|
        0 <= i < perms.len() ==> {
            &&& m.contains_key(p + (#[trigger] perms[i]).name)
            &&& perms[i].value == bool_of_val(m[p + perms[i].name])
        }
    &&& forall|k: Seq<char>|
        #[trigger] m.contains_key(k) && p.is_prefix_of(k) ==> exists|i: int|
            0 <= i < perms.len() && (#[trigger] perms[i]).name == k.skip(p.len() as int)
    &&& forall|i: int, j: int|
        0 <= i < j < perms.len() ==> (#[trigger] perms[i]).name != (#[trigger] perms[j]).name
}

/// The punishment records as read: one per stored link, each dereferenced
/// against the punishments keyspace.
pub open spec fn pun_links_read(
    m: KvMap,
    puns: KvMap,
    uuid: Seq<char>,
    plist: Seq<crate::domain::PunModel>,
) -> bool {
    &&& forall|i: int|
        0 <= i < plist.len() ==> pun_listed(m, puns, uuid, #[trigger] plist[i])
    &&& forall|k: Seq<char>|
        #[trigger] m.contains_key(k) && spec_rel_prefix(uuid, "punishments"@).is_prefix_of(k)
            ==> link_matched(m, puns, uuid, plist, k)
}

/// Some stored link carries the record `pm`.
pub open spec fn pun_listed(m: KvMap, puns: KvMap, uuid: Seq<char>, pm: crate::domain::PunModel) -> bool {
    exists|k: Seq<char>| pun_link_at(m, puns, uuid, pm, k)
}

/// The link key `k` is represented somewhere in the read list.
pub open spec fn link_matched(
    m: KvMap,
    puns: KvMap,
    uuid: Seq<char>,
    plist: Seq<crate::domain::PunModel>,
    k: Seq<char>,
) -> bool {
    exists|i: int| 0 <= i < plist.len() && pun_link_at(m, puns, uuid, #[trigger] plist[i], k)
}

/// One stored link key `k` carrying the record `pm`.
pub open spec fn pun_link_at(
    m: KvMap,
    puns: KvMap,
    uuid: Seq<char>,
    pm: crate::domain::PunModel,
    k: Seq<char>,
) -> bool {
    let p = spec_rel_prefix(uuid, "punishments"@);
    &&& m.contains_key(k)
    &&& p.is_prefix_of(k)
    &&& puns.contains_key(k.skip(p.len() as int))
    &&& crate::serial::spec_decode_pun(puns[k.skip(p.len() as int)]) == Some(pm)
}

/// How the resolved group appears in the read: the group the name lands
/// on, or nothing when no name resolves or the group is gone.
pub open spec fn group_resolution_read(
    v: StoreView,
    uuid: Seq<char>,
    g: Option<GroupModel>,
) -> bool {
    match resolved_group_name(v, uuid) {
        None => g is None,
        Some(gn) => if group_exists(v.groups, gn) {
            g matches Some(gm) && is_group_read(v.groups, gn, gm)
        } else {
            g is None
        },
    }
}

/// What a full read of the user `uuid` returns, field by field, with the
/// documented defaults where a field is absent.
pub open spec fn is_user_read(v: StoreView, uuid: Seq<char>, um: crate::user::UserModel) -> bool {
    let m = v.users;
    &&& um.uuid == uuid
    &&& um.name == read_str_or(m, spec_field_key(uuid, "name"@), Seq::<char>::empty())
    &&& um.email == (match val_at(m, spec_field_key(uuid, "email"@)) {
        None => None::<Seq<char>>,
        Some(b) => Some(decode_utf8(b)),
    })
    &&& um.chat == read_bool_or(m, spec_field_key(uuid, "chat"@), true)
    &&& um.pms == (match val_at(m, spec_field_key(uuid, "pms"@)) {
        None => crate::domain::PmMode::Enabled,
        Some(v2) => crate::domain::pm_mode_of_byte(v2[0])->Some_0,
    })
    &&& um.suffix == read_str_or(m, spec_field_key(uuid, "suffix"@), Seq::<char>::empty())
    &&& um.lang == read_str_or(m, spec_field_key(uuid, "lang"@), "en"@)
    &&& um.scoreboard == read_bool_or(m, spec_field_key(uuid, "scoreboard"@), true)
    &&& um.coins == (match val_at(m, spec_field_key(uuid, "coins"@)) {
        None => 0u64,
        Some(v2) => u64_be_value(v2),
    })
    &&& um.friend_reqs == read_bool_or(m, spec_field_key(uuid, "friend_reqs"@), true)
    &&& match val_at(m, spec_field_key(uuid, "created_at"@)) {
        None => false,
        Some(v2) => um.created_at == timestamp_of_bytes(v2),
    }
    &&& flag_members_read(m, uuid, "friends"@, um.friends)
    &&& flag_members_read(m, uuid, "ignores"@, um.ignores)
    &&& perm_members_read(m, uuid, um.perms)
    &&& pun_links_read(m, v.punishments, uuid, um.punishments)
    &&& match val_at(m, spec_field_key(uuid, "mails"@)) {
        None => um.inbox.len() == 0,
        Some(v2) => crate::serial::spec_decode_inbox(v2, 0) == Some(um.inbox),
    }
    &&& group_resolution_read(v, uuid, um.group)
}

// ---------------------------------------------------------------------------
// IP subnets
// ---------------------------------------------------------------------------

/// An address with its trailing segment removed: everything before the
/// last `'.'`, or nothing when the address has none.
pub open spec fn subnet_chars(s: Seq<char>) -> Seq<char>
    decreases s.len(),
{
    if s.len() == 0 {
        s
    } else if s.last() == '.' {
        s.drop_last()
    } else {
        subnet_chars(s.drop_last())
    }
}

proof fn lemma_subnet_chars_at(s: Seq<char>, j: int)
    requires
        0 <= j < s.len(),
        s[j] == '.',
        forall|t: int| j < t < s.len() ==> s[t] != '.',
    ensures
        subnet_chars(s) == s.take(j),
    decreases s.len(),
{
    if j == s.len() - 1 {
        assert(s.last() == '.');
        assert(s.drop_last() =~= s.take(j));
    } else {
        assert(s.last() != '.');
        lemma_subnet_chars_at(s.drop_last(), j);
        assert(s.drop_last().take(j) =~= s.take(j));
    }
}

proof fn lemma_subnet_chars_none(s: Seq<char>)
    requires
        forall|t: int| 0 <= t < s.len() ==> s[t] != '.',
    ensures
        subnet_chars(s) == Seq::<char>::empty(),
    decreases s.len(),
{
    if s.len() > 0 {
        lemma_subnet_chars_none(s.drop_last());
    }
}

/// Computes the subnet bucket prefix of an address.
pub fn subnet_of(ip: &str) -> (r: String)
    ensures
        r@ == subnet_chars(ip@),
{
    let n = ip.unicode_len();
    let mut k: usize = n;
    while k > 0
        invariant
            0 <= k <= n,
            n == ip@.len(),
            forall|t: int| k <= t < ip@.len() ==> ip@[t] != '.',
        decreases k,
    {
        if ip.get_char(k - 1) == '.' {
            let piece = ip.substring_char(0, k - 1);
            proof {
                lemma_subnet_chars_at(ip@, k - 1);
            }
            return piece.to_owned();
        }
        k -= 1;
    }
    proof {
        lemma_subnet_chars_none(ip@);
    }
    String::new()
}

// ---------------------------------------------------------------------------
// Users: writing
// ---------------------------------------------------------------------------

/// `base` with one flagged member key set per member, first to last.
pub open spec fn insert_flag_members(
    base: KvMap,
    uuid: Seq<char>,
    rel: Seq<char>,
    members: Seq<Seq<char>>,
) -> KvMap
    decreases members.len(),
{
    if members.len() == 0 {
        base
    } else {
        insert_flag_members(base, uuid, rel, members.drop_last()).insert(
            spec_member_key(uuid, rel, members.last()),
            seq![1u8],
        )
    }
}

/// `base` with one punishment link set per record, first to last; the
/// member is the record id rendered in decimal.
pub open spec fn insert_links(
    base: KvMap,
    uuid: Seq<char>,
    puns: Seq<crate::domain::PunModel>,
) -> KvMap
    decreases puns.len(),
{
    if puns.len() == 0 {
        base
    } else {
        insert_links(base, uuid, puns.drop_last()).insert(
            spec_member_key(uuid, "punishments"@, crate::codec::dec_chars(puns.last().id as int)),
            seq![1u8],
        )
    }
}

/// The scalar fields one full-user save sets.
pub open spec fn user_scalar_map(um: crate::user::UserModel) -> KvMap {
    let base = Map::<Seq<char>, Seq<u8>>::empty().insert(
        spec_field_key(um.uuid, "name"@),
        encode_utf8(um.name),
    ).insert(
        spec_field_key(um.uuid, "chat"@),
        seq![crate::serial::bool_byte(um.chat)],
    ).insert(
        spec_field_key(um.uuid, "pms"@),
        seq![crate::domain::pm_mode_byte(um.pms)],
    ).insert(spec_field_key(um.uuid, "suffix"@), encode_utf8(um.suffix)).insert(
        spec_field_key(um.uuid, "lang"@),
        encode_utf8(um.lang),
    ).insert(
        spec_field_key(um.uuid, "scoreboard"@),
        seq![crate::serial::bool_byte(um.scoreboard)],
    ).insert(spec_field_key(um.uuid, "coins"@), crate::codec::u64_be_bytes(um.coins)).insert(
        spec_field_key(um.uuid, "friend_reqs"@),
        seq![crate::serial::bool_byte(um.friend_reqs)],
    ).insert(
        spec_field_key(um.uuid, "created_at"@),
        timestamp_bytes(um.created_at),
    ).insert(spec_field_key(um.uuid, "mails"@), crate::serial::inbox_bytes(um.inbox));
    let with_email = match um.email {
        Some(e) => base.insert(spec_field_key(um.uuid, "email"@), encode_utf8(e)),
        None => base,
    };
    match um.group {
        Some(g) => with_email.insert(spec_field_key(um.uuid, "group"@), encode_utf8(g.name)),
        None => with_email,
    }
}

/// Every key and value one full-user save sets.
pub open spec fn user_record_map(um: crate::user::UserModel) -> KvMap {
    insert_links(
        insert_perms(
            insert_flag_members(
                insert_flag_members(user_scalar_map(um), um.uuid, "friends"@, um.friends),
                um.uuid,
                "ignores"@,
                um.ignores,
            ),
            um.uuid,
            um.perms,
        ),
        um.uuid,
        um.punishments,
    )
}

/// The keys a full-user save owns and clears before writing: the four
/// repeated relations, and the optional scalars.
pub open spec fn user_owned_keys(uuid: Seq<char>) -> Set<Seq<char>> {
    prefix_key_set(spec_rel_prefix(uuid, "friends"@)).union(
        prefix_key_set(spec_rel_prefix(uuid, "ignores"@)),
    ).union(prefix_key_set(spec_rel_prefix(uuid, "permissions"@))).union(
        prefix_key_set(spec_rel_prefix(uuid, "punishments"@)),
    ).insert(spec_field_key(uuid, "email"@)).insert(spec_field_key(uuid, "group"@))
}

/// What the users keyspace holds after a full save of `um`: every key the
/// record owns cleared, every field and member of `um` set.
pub open spec fn spec_put_user(m: KvMap, um: crate::user::UserModel) -> KvMap {
    m.remove_keys(user_owned_keys(um.uuid)).union_prefer_right(user_record_map(um))
}

impl Storage {
    /// Saves the whole user in one batch on the users keyspace: every
    /// scalar field, the inbox blob, and one key per member of every
    /// collection; stale members and cleared optional fields go away. The
    /// unit of atomicity is this one batch.
    #[verifier::rlimit(100)]
    pub fn put_user(&mut self, user: &crate::user::User) -> (r: Result<(), StorageError>)
        requires
            forall|i: int| 0 <= i < user@.inbox.len() ==> (#[trigger] user@.inbox[i]).wf(),
        ensures
            same_but_users(old(self)@, final(self)@),
            r matches Ok(_) ==> final(self)@.users == spec_put_user(old(self)@.users, user@),
            r matches Err(e) ==> e == StorageError::StoreError || e == StorageError::CorruptData,
    {
        proof {
            storage_view_parts(self);
        }
        let ghost m0 = self@.users;
        let uuid: &str = user.uuid.as_str();
        let mut batch = crate::kv::batch_new();
        let pf = rel_prefix(uuid, "friends");
        batch_clear_prefix(&self.users, &mut batch, pf.as_str())?;
        let pi = rel_prefix(uuid, "ignores");
        batch_clear_prefix(&self.users, &mut batch, pi.as_str())?;
        let pp = rel_prefix(uuid, "permissions");
        batch_clear_prefix(&self.users, &mut batch, pp.as_str())?;
        let pl = rel_prefix(uuid, "punishments");
        batch_clear_prefix(&self.users, &mut batch, pl.as_str())?;
        let email_key = field_key(uuid, "email");
        crate::kv::batch_remove(&mut batch, email_key.as_str());
        let group_key = field_key(uuid, "group");
        crate::kv::batch_remove(&mut batch, group_key.as_str());
        let ghost r0 = crate::kv::batch_removes(batch);
        proof {
            assert(crate::kv::batch_inserts(batch) =~= Map::<Seq<char>, Seq<u8>>::empty());
        }
        let name_key = field_key(uuid, "name");
        crate::kv::batch_insert(&mut batch, name_key.as_str(), user.name.as_str().as_bytes());
        let chat_key = field_key(uuid, "chat");
        let chat_b = byte_vec(if user.chat { 1 } else { 0 });
        crate::kv::batch_insert(&mut batch, chat_key.as_str(), chat_b.as_slice());
        let pms_key = field_key(uuid, "pms");
        let pms_b = byte_vec(crate::domain::encode_pm_mode(user.pms));
        crate::kv::batch_insert(&mut batch, pms_key.as_str(), pms_b.as_slice());
        let suffix_key = field_key(uuid, "suffix");
        crate::kv::batch_insert(&mut batch, suffix_key.as_str(), user.suffix.as_str().as_bytes());
        let lang_key = field_key(uuid, "lang");
        crate::kv::batch_insert(&mut batch, lang_key.as_str(), user.lang.as_str().as_bytes());
        let sb_key = field_key(uuid, "scoreboard");
        let sb_b = byte_vec(if user.scoreboard { 1 } else { 0 });
        crate::kv::batch_insert(&mut batch, sb_key.as_str(), sb_b.as_slice());
        let coins_key = field_key(uuid, "coins");
        let coins_b = crate::codec::encode_u64(user.coins);
        crate::kv::batch_insert(&mut batch, coins_key.as_str(), coins_b.as_slice());
        let fr_key = field_key(uuid, "friend_reqs");
        let fr_b = byte_vec(if user.friend_reqs { 1 } else { 0 });
        crate::kv::batch_insert(&mut batch, fr_key.as_str(), fr_b.as_slice());
        let created_key = field_key(uuid, "created_at");
        let created_b = crate::codec::encode_timestamp(user.created_at);
        crate::kv::batch_insert(&mut batch, created_key.as_str(), created_b.as_slice());
        let mails_key = field_key(uuid, "mails");
        proof {
            assert forall|ix: int|
                0 <= ix < user.inbox@.len() implies (#[trigger] user.inbox@[ix])@.wf() by {
                assert(user@.inbox[ix] == user.inbox@[ix]@);
            }
        }
        let mails_b = crate::serial::encode_inbox(&user.inbox);
        crate::kv::batch_insert(&mut batch, mails_key.as_str(), mails_b.as_slice());
        match &user.email {
            Some(e) => {
                crate::kv::batch_insert(&mut batch, email_key.as_str(), e.as_str().as_bytes());
            },
            None => {},
        }
        match &user.group {
            Some(g) => {
                crate::kv::batch_insert(
                    &mut batch,
                    group_key.as_str(),
                    g.name.as_str().as_bytes(),
                );
            },
            None => {},
        }
        let ghost base0 = user_scalar_map(user@);
        proof {
            assert(crate::kv::batch_inserts(batch) =~= base0);
            assert(crate::kv::batch_removes(batch) =~= r0.difference(
                crate::kv::batch_inserts(batch).dom(),
            ));
        }
        self.put_user_members(&mut batch, user, Ghost(r0), Ghost(base0));
        let r = crate::kv::tree_apply_batch(&mut self.users, batch);
        proof {
            storage_view_parts(self);
            if r is Ok {
                let got = self@.users;
                let want = spec_put_user(m0, user@);
                assert forall|k: Seq<char>| got.contains_key(k) <==> want.contains_key(k) by {}
                assert forall|k: Seq<char>| #[trigger]
                    got.contains_key(k) && want.contains_key(k) implies got[k] == want[k] by {}
                assert(got =~= want);
            }
        }
        match r {
            Ok(_) => Ok(()),
            Err(e) => Err(e),
        }
    }

    /// Adds every collection member of `user` to the save batch.
    fn put_user_members(
        &self,
        batch: &mut sled::Batch,
        user: &crate::user::User,
        Ghost(r0): Ghost<Set<Seq<char>>>,
        Ghost(base0): Ghost<KvMap>,
    )
        requires
            crate::kv::batch_inserts(*old(batch)) == base0,
            crate::kv::batch_removes(*old(batch)) == r0.difference(base0.dom()),
        ensures
            crate::kv::batch_inserts(*final(batch)) == user_members_map(base0, user@),
            crate::kv::batch_removes(*final(batch)) == r0.difference(
                crate::kv::batch_inserts(*final(batch)).dom(),
            ),
    {
        let uuid: &str = user.uuid.as_str();
        let ghost fviews = user.friends@.map_values(|s: String| s@);
        let mut i: usize = 0;
        while i < user.friends.len()
            invariant
                0 <= i <= user.friends@.len(),
                fviews == user.friends@.map_values(|s: String| s@),
                uuid@ == user@.uuid,
                crate::kv::batch_inserts(*batch) == insert_flag_members(
                    base0,
                    user@.uuid,
                    "friends"@,
                    fviews.take(i as int),
                ),
                crate::kv::batch_removes(*batch) == r0.difference(
                    crate::kv::batch_inserts(*batch).dom(),
                ),
            decreases user.friends@.len() - i,
        {
            let mkey = member_key(uuid, "friends", user.friends[i].as_str());
            let one = byte_vec(1);
            crate::kv::batch_insert(batch, mkey.as_str(), one.as_slice());
            i += 1;
            proof {
                assert(fviews.take(i as int).drop_last() =~= fviews.take(i - 1));
                assert(one@ =~= seq![1u8]);
                assert(crate::kv::batch_removes(*batch) =~= r0.difference(
                    crate::kv::batch_inserts(*batch).dom(),
                ));
            }
        }
        proof {
            assert(fviews.take(user.friends@.len() as int) =~= fviews);
        }
        let ghost base1 = insert_flag_members(base0, user@.uuid, "friends"@, fviews);
        let ghost iviews = user.ignores@.map_values(|s: String| s@);
        let mut j: usize = 0;
        while j < user.ignores.len()
            invariant
                0 <= j <= user.ignores@.len(),
                iviews == user.ignores@.map_values(|s: String| s@),
                uuid@ == user@.uuid,
                crate::kv::batch_inserts(*batch) == insert_flag_members(
                    base1,
                    user@.uuid,
                    "ignores"@,
                    iviews.take(j as int),
                ),
                crate::kv::batch_removes(*batch) == r0.difference(
                    crate::kv::batch_inserts(*batch).dom(),
                ),
            decreases user.ignores@.len() - j,
        {
            let mkey = member_key(uuid, "ignores", user.ignores[j].as_str());
            let one = byte_vec(1);
            crate::kv::batch_insert(batch, mkey.as_str(), one.as_slice());
            j += 1;
            proof {
                assert(iviews.take(j as int).drop_last() =~= iviews.take(j - 1));
                assert(one@ =~= seq![1u8]);
                assert(crate::kv::batch_removes(*batch) =~= r0.difference(
                    crate::kv::batch_inserts(*batch).dom(),
                ));
            }
        }
        proof {
            assert(iviews.take(user.ignores@.len() as int) =~= iviews);
        }
        let ghost base2 = insert_flag_members(base1, user@.uuid, "ignores"@, iviews);
        let ghost pviews = user.perms@.map_values(|p: Permission| p@);
        let mut n: usize = 0;
        while n < user.perms.len()
            invariant
                0 <= n <= user.perms@.len(),
                pviews == user.perms@.map_values(|p: Permission| p@),
                uuid@ == user@.uuid,
                crate::kv::batch_inserts(*batch) == insert_perms(
                    base2,
                    user@.uuid,
                    pviews.take(n as int),
                ),
                crate::kv::batch_removes(*batch) == r0.difference(
                    crate::kv::batch_inserts(*batch).dom(),
                ),
            decreases user.perms@.len() - n,
        {
            let mkey = member_key(uuid, "permissions", user.perms[n].permission.as_str());
            let vb = byte_vec(if user.perms[n].value { 1 } else { 0 });
            crate::kv::batch_insert(batch, mkey.as_str(), vb.as_slice());
            n += 1;
            proof {
                assert(pviews.take(n as int).drop_last() =~= pviews.take(n - 1));
                assert(vb@ =~= seq![crate::serial::bool_byte(pviews[n - 1].value)]);
                assert(crate::kv::batch_removes(*batch) =~= r0.difference(
                    crate::kv::batch_inserts(*batch).dom(),
                ));
            }
        }
        proof {
            assert(pviews.take(user.perms@.len() as int) =~= pviews);
        }
        let ghost base3 = insert_perms(base2, user@.uuid, pviews);
        let ghost lviews = user.punishments@.map_values(|p: crate::domain::Punishment| p@);
        let mut q: usize = 0;
        while q < user.punishments.len()
            invariant
                0 <= q <= user.punishments@.len(),
                lviews == user.punishments@.map_values(|p: crate::domain::Punishment| p@),
                uuid@ == user@.uuid,
                crate::kv::batch_inserts(*batch) == insert_links(
                    base3,
                    user@.uuid,
                    lviews.take(q as int),
                ),
                crate::kv::batch_removes(*batch) == r0.difference(
                    crate::kv::batch_inserts(*batch).dom(),
                ),
            decreases user.punishments@.len() - q,
        {
            let member = crate::codec::u64_to_dec(user.punishments[q].id);
            let mkey = member_key(uuid, "punishments", member.as_str());
            let one = byte_vec(1);
            crate::kv::batch_insert(batch, mkey.as_str(), one.as_slice());
            q += 1;
            proof {
                assert(lviews.take(q as int).drop_last() =~= lviews.take(q - 1));
                assert(one@ =~= seq![1u8]);
                assert(crate::kv::batch_removes(*batch) =~= r0.difference(
                    crate::kv::batch_inserts(*batch).dom(),
                ));
            }
        }
        proof {
            assert(lviews.take(user.punishments@.len() as int) =~= lviews);
        }
    }
}

/// The batch contents after the collection members are added on `base`.
pub open spec fn user_members_map(base: KvMap, um: crate::user::UserModel) -> KvMap {
    insert_links(
        insert_perms(
            insert_flag_members(
                insert_flag_members(base, um.uuid, "friends"@, um.friends),
                um.uuid,
                "ignores"@,
                um.ignores,
            ),
            um.uuid,
            um.perms,
        ),
        um.uuid,
        um.punishments,
    )
}

// ---------------------------------------------------------------------------
// Users: reading
// ---------------------------------------------------------------------------

fn byte_vec(b: u8) -> (v: Vec<u8>)
    ensures
        v@ == seq![b],
{
    let mut v: Vec<u8> = Vec::new();
    v.push(b);
    proof {
        assert(v@ =~= seq![b]);
    }
    v
}

fn read_str_field(t: &sled::Tree, key: &str) -> (r: Result<Option<String>, StorageError>)
    ensures
        match r {
            Ok(Some(s)) => val_at(crate::kv::tree_contents(*t), key@) matches Some(v)
                && valid_utf8(v) && s@ == decode_utf8(v),
            Ok(None) => val_at(crate::kv::tree_contents(*t), key@) is None,
            Err(e) => e == StorageError::StoreError || (e == StorageError::CorruptData && !str_field_ok(
                crate::kv::tree_contents(*t),
                key@,
            )),
        },
{
    match tree_get(t, key)? {
        None => Ok(None),
        Some(v) => match crate::codec::bytes_to_string(v) {
            Some(s) => Ok(Some(s)),
            None => Err(StorageError::CorruptData),
        },
    }
}

fn read_bool_field(t: &sled::Tree, key: &str, d: bool) -> (r: Result<bool, StorageError>)
    ensures
        match r {
            Ok(b) => b == read_bool_or(crate::kv::tree_contents(*t), key@, d),
            Err(e) => e == StorageError::StoreError,
        },
{
    match tree_get(t, key)? {
        None => Ok(d),
        Some(v) => Ok(v.len() >= 1 && v[0] != 0),
    }
}

impl Storage {
    /// Assembles the whole user: point-reads every scalar, enumerates the
    /// collections, dereferences the punishment links, decodes the inbox
    /// and resolves the group. A user without a name does not exist.
    pub fn get_user(&self, uuid: &str) -> (r: Result<Option<crate::user::User>, StorageError>)
        ensures
            match r {
                Ok(Some(u)) => user_exists(self@.users, uuid@) && user_readable(self@, uuid@)
                    && is_user_read(self@, uuid@, u@),
                Ok(None) => !user_exists(self@.users, uuid@),
                Err(e) => e == StorageError::StoreError || e == StorageError::CorruptData,
            },
    {
        proof {
            storage_view_parts(self);
        }
        let name_key = field_key(uuid, "name");
        let name = match read_str_field(&self.users, name_key.as_str())? {
            None => {
                return Ok(None);
            },
            Some(s) => s,
        };
        let email_key = field_key(uuid, "email");
        let email = read_str_field(&self.users, email_key.as_str())?;
        let chat_key = field_key(uuid, "chat");
        let chat = read_bool_field(&self.users, chat_key.as_str(), true)?;
        let pms_key = field_key(uuid, "pms");
        let pms = match tree_get(&self.users, pms_key.as_str())? {
            None => crate::domain::PmMode::Enabled,
            Some(v) => {
                if v.len() < 1 {
                    return Err(StorageError::CorruptData);
                }
                match crate::domain::decode_pm_mode(v[0]) {
                    Some(mode) => mode,
                    None => {
                        return Err(StorageError::CorruptData);
                    },
                }
            },
        };
        let suffix_key = field_key(uuid, "suffix");
        let suffix = match read_str_field(&self.users, suffix_key.as_str())? {
            None => String::new(),
            Some(s) => s,
        };
        let lang_key = field_key(uuid, "lang");
        let lang = match read_str_field(&self.users, lang_key.as_str())? {
            None => "en".to_owned(),
            Some(s) => s,
        };
        let sb_key = field_key(uuid, "scoreboard");
        let scoreboard = read_bool_field(&self.users, sb_key.as_str(), true)?;
        let coins_key = field_key(uuid, "coins");
        let coins = match tree_get(&self.users, coins_key.as_str())? {
            None => 0u64,
            Some(v) => match crate::codec::decode_u64(v.as_slice()) {
                Ok(n) => n,
                Err(_) => {
                    return Err(StorageError::CorruptData);
                },
            },
        };
        let fr_key = field_key(uuid, "friend_reqs");
        let friend_reqs = read_bool_field(&self.users, fr_key.as_str(), true)?;
        let created_key = field_key(uuid, "created_at");
        let created_at = match tree_get(&self.users, created_key.as_str())? {
            None => {
                return Err(StorageError::CorruptData);
            },
            Some(v) => match crate::codec::decode_timestamp(v.as_slice()) {
                Ok(t) => t,
                Err(_) => {
                    return Err(StorageError::CorruptData);
                },
            },
        };
        let friends = self.read_flag_members(uuid, "friends")?;
        let ignores = self.read_flag_members(uuid, "ignores")?;
        let perms = self.read_user_perms(uuid)?;
        let punishments = self.read_user_punishments(uuid)?;
        let mails_key = field_key(uuid, "mails");
        let inbox = match tree_get(&self.users, mails_key.as_str())? {
            None => Vec::new(),
            Some(v) => match crate::serial::decode_inbox(v.as_slice()) {
                Ok(mails) => mails,
                Err(e) => {
                    return Err(e);
                },
            },
        };
        let group_key = field_key(uuid, "group");
        let group_name = match read_str_field(&self.users, group_key.as_str())? {
            Some(s) => Some(s),
            None => self.get_default_group_name()?,
        };
        let group = match group_name {
            None => None,
            Some(gn) => self.get_group_full(gn.as_str())?,
        };
        let u = crate::user::User {
            uuid: uuid.to_owned(),
            name,
            email,
            chat,
            pms,
            suffix,
            lang,
            scoreboard,
            coins,
            friend_reqs,
            created_at,
            friends,
            ignores,
            inbox,
            punishments,
            perms,
            group,
        };
        proof {
            assert(u@.inbox =~= u.inbox@.map_values(|mm: crate::domain::Mail| mm@));
            assert forall|k: Seq<char>|
                #[trigger] self@.users.contains_key(k) && spec_rel_prefix(
                    uuid@,
                    "punishments"@,
                ).is_prefix_of(k) implies {
                &&& self@.punishments.contains_key(
                    k.skip(spec_rel_prefix(uuid@, "punishments"@).len() as int),
                )
                &&& crate::serial::spec_decode_pun(
                    self@.punishments[k.skip(spec_rel_prefix(uuid@, "punishments"@).len() as int)],
                ) is Some
            } by {
                let plist = punishments@.map_values(|p: crate::domain::Punishment| p@);
                assert(link_matched(self@.users, self@.punishments, uuid@, plist, k));
                let i = choose|i: int|
                    0 <= i < plist.len() && pun_link_at(
                        self@.users,
                        self@.punishments,
                        uuid@,
                        #[trigger] plist[i],
                        k,
                    );
                assert(pun_link_at(self@.users, self@.punishments, uuid@, plist[i], k));
            }
            assert(user_links_ok(self@.users, self@.punishments, uuid@));
        }
        Ok(Some(u))
    }

    /// Enumerates one flagged relation: members whose value byte is set.
    #[verifier::rlimit(100)]
    fn read_flag_members(&self, uuid: &str, rel: &str) -> (r: Result<Vec<String>, StorageError>)
        ensures
            match r {
                Ok(members) => flag_members_read(
                    self@.users,
                    uuid@,
                    rel@,
                    members@.map_values(|s: String| s@),
                ),
                Err(e) => e == StorageError::StoreError || e == StorageError::CorruptData,
            },
    {
        proof {
            storage_view_parts(self);
        }
        let ghost m = self@.users;
        let p = rel_prefix(uuid, rel);
        let plen = p.as_str().unicode_len();
        let entries = tree_scan_prefix(&self.users, p.as_str())?;
        let mut members: Vec<String> = Vec::new();
        let ghost mut srcidx: Seq<int> = Seq::empty();
        let ghost mut dstidx: Seq<int> = Seq::empty();
        let mut i: usize = 0;
        while i < entries.len()
            invariant
                0 <= i <= entries@.len(),
                plen == spec_rel_prefix(uuid@, rel@).len(),
                forall|j: int|
                    0 <= j < entries@.len() ==> {
                        &&& m.contains_key((#[trigger] entries@[j]).0@)
                        &&& spec_rel_prefix(uuid@, rel@).is_prefix_of(entries@[j].0@)
                        &&& entries@[j].1@ == m[entries@[j].0@]
                    },
                forall|j1: int, j2: int|
                    0 <= j1 < j2 < entries@.len() ==> (#[trigger] entries@[j1]).0@ != (
                    #[trigger] entries@[j2]).0@,
                srcidx.len() == members@.len(),
                forall|ix: int|
                    #![trigger srcidx[ix]]
                    #![trigger members@[ix]]
                    0 <= ix < members@.len() ==> {
                        &&& 0 <= srcidx[ix] < i
                        &&& members@[ix]@ == entries@[srcidx[ix]].0@.skip(plen as int)
                        &&& bool_of_val(entries@[srcidx[ix]].1@)
                    },
                forall|i1: int, i2: int|
                    #![trigger srcidx[i1], srcidx[i2]]
                    0 <= i1 < i2 < members@.len() ==> srcidx[i1] < srcidx[i2],
                dstidx.len() == i,
                forall|j: int|
                    0 <= j < i && bool_of_val((#[trigger] entries@[j]).1@) ==> {
                        &&& 0 <= #[trigger] dstidx[j] < members@.len()
                        &&& members@[dstidx[j]]@ == entries@[j].0@.skip(plen as int)
                    },
            decreases entries@.len() - i,
        {
            let val = &entries[i].1;
            let flagged = val.len() >= 1 && val[0] != 0;
            let ghost members0 = members@;
            let ghost srcidx0 = srcidx;
            if flagged {
                let key = &entries[i].0;
                let klen = key.as_str().unicode_len();
                let member = key.as_str().substring_char(plen, klen).to_owned();
                proof {
                    assert(klen as int == entries@[i as int].0@.len() as int);
                    assert(member@ == entries@[i as int].0@.skip(plen as int));
                }
                members.push(member);
                proof {
                    srcidx = srcidx.push(i as int);
                    dstidx = dstidx.push(members@.len() - 1);
                    assert(members@.len() == members0.len() + 1);
                    assert(members@[members@.len() - 1]@ == entries@[i as int].0@.skip(
                        plen as int,
                    ));
                    assert(forall|ix: int|
                        0 <= ix < members0.len() ==> #[trigger] members@[ix] == members0[ix]
                            && #[trigger] srcidx[ix] == srcidx0[ix]);
                    assert(srcidx[members@.len() - 1] == i as int);
                }
            } else {
                proof {
                    dstidx = dstidx.push(-1);
                }
            }
            i += 1;
            proof {
                assert forall|ix: int| 0 <= ix < members@.len() implies {
                    &&& 0 <= #[trigger] srcidx[ix] < i
                    &&& (#[trigger] members@[ix])@ == entries@[srcidx[ix]].0@.skip(plen as int)
                    &&& bool_of_val(entries@[srcidx[ix]].1@)
                } by {
                    if ix < members0.len() {
                        assert(members@[ix] == members0[ix]);
                        assert(srcidx[ix] == srcidx0[ix]);
                    } else {
                        assert(ix == members@.len() - 1);
                    }
                }
                assert forall|i1: int, i2: int|
                    0 <= i1 < i2 < members@.len() implies #[trigger] srcidx[i1]
                    < #[trigger] srcidx[i2] by {
                    if i2 < members0.len() {
                        assert(srcidx[i1] == srcidx0[i1] && srcidx[i2] == srcidx0[i2]);
                    } else if i2 == members0.len() && members@.len() == members0.len() + 1 {
                        assert(srcidx[i1] == srcidx0[i1]);
                        assert(srcidx[i2] == i - 1);
                        assert(srcidx0[i1] < i - 1);
                    }
                }
            }
        }
        proof {
            let p_s = spec_rel_prefix(uuid@, rel@);
            let mviews = members@.map_values(|s: String| s@);
            assert forall|ix: int|
                0 <= ix < mviews.len() implies m.contains_key(p_s + #[trigger] mviews[ix])
                && bool_of_val(m[p_s + mviews[ix]]) by {
                let j = srcidx[ix];
                assert(p_s + members@[ix]@ =~= entries@[j].0@);
            }
            assert forall|k: Seq<char>|
                #[trigger] m.contains_key(k) && p_s.is_prefix_of(k) && bool_of_val(
                    m[k],
                ) implies exists|ix: int|
                0 <= ix < mviews.len() && #[trigger] mviews[ix] == k.skip(p_s.len() as int) by {
                let j = choose|j: int|
                    0 <= j < entries@.len() && (#[trigger] entries@[j]).0@ == k;
                assert(mviews[dstidx[j]] == k.skip(p_s.len() as int));
            }
            assert forall|i1: int, i2: int|
                0 <= i1 < i2 < mviews.len() implies #[trigger] mviews[i1] != #[trigger] mviews[i2] by {
                let j1 = srcidx[i1];
                let j2 = srcidx[i2];
                assert(entries@[j1].0@ != entries@[j2].0@);
                crate::schema::lemma_prefixed_key_is_member_key(uuid@, rel@, entries@[j1].0@);
                crate::schema::lemma_prefixed_key_is_member_key(uuid@, rel@, entries@[j2].0@);
            }
        }
        Ok(members)
    }

    /// Enumerates the user's own permission set.
    fn read_user_perms(&self, uuid: &str) -> (r: Result<Vec<Permission>, StorageError>)
        ensures
            match r {
                Ok(perms) => perm_members_read(
                    self@.users,
                    uuid@,
                    perms@.map_values(|p: Permission| p@),
                ),
                Err(e) => e == StorageError::StoreError || e == StorageError::CorruptData,
            },
    {
        proof {
            storage_view_parts(self);
        }
        let ghost m = self@.users;
        let pprefix = rel_prefix(uuid, "permissions");
        let plen = pprefix.as_str().unicode_len();
        let entries = tree_scan_prefix(&self.users, pprefix.as_str())?;
        let mut perms: Vec<Permission> = Vec::new();
        let mut i: usize = 0;
        while i < entries.len()
            invariant
                0 <= i <= entries@.len(),
                plen == spec_rel_prefix(uuid@, "permissions"@).len(),
                perms@.len() == i,
                forall|j: int|
                    0 <= j < entries@.len() ==> {
                        &&& m.contains_key((#[trigger] entries@[j]).0@)
                        &&& spec_rel_prefix(uuid@, "permissions"@).is_prefix_of(entries@[j].0@)
                        &&& entries@[j].1@ == m[entries@[j].0@]
                    },
                forall|j: int|
                    0 <= j < i ==> (#[trigger] perms@[j])@.name == entries@[j].0@.skip(plen as int)
                        && perms@[j]@.value == bool_of_val(m[entries@[j].0@]),
                forall|j1: int, j2: int|
                    0 <= j1 < j2 < entries@.len() ==> (#[trigger] entries@[j1]).0@ != (
                    #[trigger] entries@[j2]).0@,
            decreases entries@.len() - i,
        {
            let key = &entries[i].0;
            let val = &entries[i].1;
            let klen = key.as_str().unicode_len();
            let member = key.as_str().substring_char(plen, klen).to_owned();
            let value = val.len() >= 1 && val[0] != 0;
            perms.push(Permission { permission: member, value });
            i += 1;
        }
        proof {
            let pp = spec_rel_prefix(uuid@, "permissions"@);
            let pviews = perms@.map_values(|p: Permission| p@);
            assert forall|ix: int| 0 <= ix < pviews.len() implies {
                &&& m.contains_key(pp + (#[trigger] pviews[ix]).name)
                &&& pviews[ix].value == bool_of_val(m[pp + pviews[ix].name])
            } by {
                let k = entries@[ix].0@;
                assert(pp + k.skip(pp.len() as int) =~= k);
            }
            assert forall|k: Seq<char>| #[trigger]
                m.contains_key(k) && pp.is_prefix_of(k) implies exists|ix: int|
                0 <= ix < pviews.len() && (#[trigger] pviews[ix]).name == k.skip(
                pp.len() as int,
            ) by {
                let j = choose|j: int|
                    0 <= j < entries@.len() && (#[trigger] entries@[j]).0@ == k;
                assert(pviews[j].name == k.skip(pp.len() as int));
            }
            assert forall|j1: int, j2: int|
                0 <= j1 < j2 < pviews.len() implies (#[trigger] pviews[j1]).name != (
            #[trigger] pviews[j2]).name by {
                assert(entries@[j1].0@ != entries@[j2].0@);
                crate::schema::lemma_prefixed_key_is_member_key(
                    uuid@,
                    "permissions"@,
                    entries@[j1].0@,
                );
                crate::schema::lemma_prefixed_key_is_member_key(
                    uuid@,
                    "permissions"@,
                    entries@[j2].0@,
                );
            }
        }
        Ok(perms)
    }

    /// Enumerates and dereferences the user's punishment links; a link to
    /// a missing or unparsable record is a `CorruptData` failure.
    #[verifier::rlimit(100)]
    fn read_user_punishments(&self, uuid: &str) -> (r: Result<
        Vec<crate::domain::Punishment>,
        StorageError,
    >)
        ensures
            match r {
                Ok(plist) => pun_links_read(
                    self@.users,
                    self@.punishments,
                    uuid@,
                    plist@.map_values(|p: crate::domain::Punishment| p@),
                ),
                Err(e) => e == StorageError::StoreError || e == StorageError::CorruptData,
            },
    {
        proof {
            storage_view_parts(self);
        }
        let ghost m = self@.users;
        let ghost puns = self@.punishments;
        let pprefix = rel_prefix(uuid, "punishments");
        let plen = pprefix.as_str().unicode_len();
        let entries = tree_scan_prefix(&self.users, pprefix.as_str())?;
        let mut plist: Vec<crate::domain::Punishment> = Vec::new();
        let mut i: usize = 0;
        while i < entries.len()
            invariant
                0 <= i <= entries@.len(),
                m == self@.users,
                puns == self@.punishments,
                plen == spec_rel_prefix(uuid@, "punishments"@).len(),
                plist@.len() == i,
                forall|j: int|
                    0 <= j < entries@.len() ==> {
                        &&& m.contains_key((#[trigger] entries@[j]).0@)
                        &&& spec_rel_prefix(uuid@, "punishments"@).is_prefix_of(entries@[j].0@)
                    },
                forall|j1: int, j2: int|
                    0 <= j1 < j2 < entries@.len() ==> (#[trigger] entries@[j1]).0@ != (
                    #[trigger] entries@[j2]).0@,
                forall|j: int|
                    0 <= j < i ==> {
                        &&& puns.contains_key((#[trigger] entries@[j]).0@.skip(plen as int))
                        &&& crate::serial::spec_decode_pun(
                            puns[entries@[j].0@.skip(plen as int)],
                        ) == Some(plist@[j]@)
                    },
            decreases entries@.len() - i,
        {
            let key = &entries[i].0;
            let klen = key.as_str().unicode_len();
            let member = key.as_str().substring_char(plen, klen).to_owned();
            let record = match tree_get(&self.punishments, member.as_str())? {
                None => {
                    return Err(StorageError::CorruptData);
                },
                Some(v) => v,
            };
            let pun = match crate::serial::decode_punishment(record.as_slice()) {
                Ok(p) => p,
                Err(e) => {
                    return Err(e);
                },
            };
            let ghost plist0 = plist@;
            plist.push(pun);
            i += 1;
            proof {
                storage_view_parts(self);
                assert(member@ == entries@[i - 1].0@.skip(plen as int));
                assert forall|j: int| 0 <= j < i implies {
                    &&& puns.contains_key((#[trigger] entries@[j]).0@.skip(plen as int))
                    &&& crate::serial::spec_decode_pun(
                        puns[entries@[j].0@.skip(plen as int)],
                    ) == Some(plist@[j]@)
                } by {
                    if j < i - 1 {
                        assert(plist@[j] == plist0[j]);
                    } else {
                        assert(plist@[j] == pun);
                        assert(record@ == puns[member@]);
                        assert(record@ == puns[entries@[j].0@.skip(plen as int)]);
                    }
                }
            }
        }
        proof {
            let pp = spec_rel_prefix(uuid@, "punishments"@);
            let pviews = plist@.map_values(|p: crate::domain::Punishment| p@);
            assert(pun_links_read(m, puns, uuid@, pviews)) by {
                assert forall|ix: int|
                    0 <= ix < pviews.len() implies pun_listed(
                    m,
                    puns,
                    uuid@,
                    #[trigger] pviews[ix],
                ) by {
                    let k = entries@[ix].0@;
                    assert(pun_link_at(m, puns, uuid@, pviews[ix], k));
                }
                assert forall|k: Seq<char>| #[trigger]
                    m.contains_key(k) && pp.is_prefix_of(k) implies link_matched(
                    m,
                    puns,
                    uuid@,
                    pviews,
                    k,
                ) by {
                    let j = choose|j: int|
                        0 <= j < entries@.len() && (#[trigger] entries@[j]).0@ == k;
                    assert(pun_link_at(m, puns, uuid@, pviews[j], k));
                }
            }
        }
        Ok(plist)
    }
}

// ---------------------------------------------------------------------------
// Login path and moderation
// ---------------------------------------------------------------------------

/// A freshly built account: the documented defaults in every field, no
/// collections, the given identity.
pub open spec fn fresh_account(um: crate::user::UserModel, uuid: Seq<char>, name: Seq<char>) -> bool {
    &&& um.uuid == uuid
    &&& um.name == name
    &&& um.email is None
    &&& um.chat
    &&& um.pms == crate::domain::PmMode::Enabled
    &&& um.suffix == Seq::<char>::empty()
    &&& um.lang == "en"@
    &&& um.scoreboard
    &&& um.coins == 0
    &&& um.friend_reqs
    &&& um.created_at.wf()
    &&& um.friends == Seq::<Seq<char>>::empty()
    &&& um.ignores == Seq::<Seq<char>>::empty()
    &&& um.inbox == Seq::<crate::domain::MailModel>::empty()
    &&& um.punishments == Seq::<crate::domain::PunModel>::empty()
    &&& um.perms == Seq::<crate::domain::PermModel>::empty()
}

/// The group a fresh account ends up with, resolved from the default
/// pointer at creation time: the configured default when it is set and
/// its group exists, and nothing when no default is set or the default
/// group is absent.
pub open spec fn default_group_resolved(
    groups: KvMap,
    g: Option<crate::domain::GroupModel>,
) -> bool {
    match val_at(groups, "default_group"@) {
        None => g is None,
        Some(b) => {
            &&& valid_utf8(b)
            &&& if group_exists(groups, decode_utf8(b)) {
                g matches Some(gm) && is_group_read(groups, decode_utf8(b), gm)
            } else {
                g is None
            }
        },
    }
}

impl Storage {
    /// Builds a fresh account with default field values and the resolved
    /// default group, then saves it whole. A failure while resolving the
    /// default — an unreadable pointer or group, or the store failing —
    /// propagates; the account's group is empty exactly when no default
    /// is set or the default group is absent.
    pub fn create_new_player(&mut self, uuid: &str, name: &str) -> (r: Result<
        crate::user::User,
        StorageError,
    >)
        ensures
            same_but_users(old(self)@, final(self)@),
            match r {
                Ok(u) => {
                    &&& final(self)@.users == spec_put_user(old(self)@.users, u@)
                    &&& fresh_account(u@, uuid@, name@)
                    &&& default_group_resolved(old(self)@.groups, u@.group)
                },
                Err(e) => e == StorageError::StoreError || e == StorageError::CorruptData,
            },
    {
        let group = match self.get_default_group_name()? {
            None => None,
            Some(group_name) => self.get_group_full(group_name.as_str())?,
        };
        let created_at = crate::codec::now_utc();
        let user = crate::user::User::new_default(uuid, name, created_at, group);
        match self.put_user(&user) {
            Ok(_) => Ok(user),
            Err(e) => Err(e),
        }
    }

    /// Resolves a name through the name index, then reads the user it
    /// points at.
    pub fn get_user_by_name(&self, name: &str) -> (r: Result<
        Option<crate::user::User>,
        StorageError,
    >)
        ensures
            match r {
                Ok(Some(u)) => {
                    &&& val_at(self@.name_index, name@) matches Some(v)
                    &&& valid_utf8(v)
                    &&& user_exists(self@.users, decode_utf8(v))
                    &&& is_user_read(self@, decode_utf8(v), u@)
                },
                Ok(None) => val_at(self@.name_index, name@) is None || (val_at(
                    self@.name_index,
                    name@,
                ) matches Some(v) && valid_utf8(v) && !user_exists(self@.users, decode_utf8(v))),
                Err(e) => e == StorageError::StoreError || e == StorageError::CorruptData,
            },
    {
        proof {
            storage_view_parts(self);
        }
        let uuid = match tree_get(&self.name_index, name)? {
            None => {
                return Ok(None);
            },
            Some(v) => match crate::codec::bytes_to_string(v) {
                Some(s) => s,
                None => {
                    return Err(StorageError::CorruptData);
                },
            },
        };
        self.get_user(uuid.as_str())
    }

    /// Creates one punishment record: a fresh id from the store's atomic
    /// counter, the full record in the punishments keyspace, a link in the
    /// subject's record, and — when it also applies to the address — a
    /// bucket entry under the subject's indexed subnet. Refused with
    /// `BadRequest` when that is asked for and the subject has no indexed
    /// address.
    #[verifier::rlimit(100)]
    pub fn create_punishment(
        &mut self,
        user_uuid: &str,
        title: &str,
        creation_date: crate::codec::Timestamp,
        expiration_date: Option<crate::codec::Timestamp>,
        reason: &str,
        also_ip: bool,
        allow_chat: bool,
        allow_ranked: bool,
        allow_unranked: bool,
        allow_join_minigames: bool,
    ) -> (r: Result<crate::domain::Punishment, StorageError>)
        requires
            title.spec_bytes().len() <= crate::codec::MAX_PREFIXED_LEN,
            reason.spec_bytes().len() <= crate::codec::MAX_PREFIXED_LEN,
            creation_date.wf(),
            expiration_date matches Some(t) ==> t.wf(),
        ensures
            final(self)@.groups == old(self)@.groups,
            final(self)@.name_index == old(self)@.name_index,
            final(self)@.ip_index == old(self)@.ip_index,
            final(self)@.id_floor >= old(self)@.id_floor,
            match r {
                Ok(p) => {
                    &&& p@.title == title@
                    &&& p@.creation_date == creation_date
                    &&& p@.expiration_date == expiration_date
                    &&& p@.reason == reason@
                    &&& p@.alsoip == also_ip
                    &&& p@.allow_chat == allow_chat
                    &&& p@.allow_ranked == allow_ranked
                    &&& p@.allow_unranked == allow_unranked
                    &&& p@.allow_join_minigames == allow_join_minigames
                    &&& p@.id as int >= old(self)@.id_floor
                    &&& final(self)@.id_floor == p@.id as int + 1
                    &&& final(self)@.punishments == old(self)@.punishments.insert(
                        crate::codec::dec_chars(p@.id as int),
                        crate::serial::pun_record_bytes(p@),
                    )
                    &&& final(self)@.users == old(self)@.users.insert(
                        spec_member_key(
                            user_uuid@,
                            "punishments"@,
                            crate::codec::dec_chars(p@.id as int),
                        ),
                        seq![1u8],
                    )
                    &&& if also_ip {
                        &&& val_at(old(self)@.users, spec_field_key(user_uuid@, "ip"@))
                            matches Some(v)
                        &&& valid_utf8(v)
                        &&& final(self)@.ip_punishments == old(self)@.ip_punishments.insert(
                            spec_field_key(
                                subnet_chars(decode_utf8(v)),
                                crate::codec::dec_chars(p@.id as int),
                            ),
                            crate::codec::u64_be_bytes(p@.id),
                        )
                    } else {
                        final(self)@.ip_punishments == old(self)@.ip_punishments
                    }
                },
                Err(e) => {
                    &&& (e == StorageError::BadRequest ==> also_ip && val_at(
                        old(self)@.users,
                        spec_field_key(user_uuid@, "ip"@),
                    ) is None && old(self)@ == final(self)@)
                    &&& (e == StorageError::CorruptData ==> also_ip && old(self)@ == final(self)@)
                    &&& (e == StorageError::BadRequest || e == StorageError::CorruptData || e
                        == StorageError::StoreError)
                },
            },
    {
        proof {
            storage_view_parts(self);
        }
        let subnet: Option<String> = if also_ip {
            let ip_key = field_key(user_uuid, "ip");
            match tree_get(&self.users, ip_key.as_str())? {
                None => {
                    return Err(StorageError::BadRequest);
                },
                Some(v) => match crate::codec::bytes_to_string(v) {
                    None => {
                        return Err(StorageError::CorruptData);
                    },
                    Some(ip) => Some(subnet_of(ip.as_str())),
                },
            }
        } else {
            None
        };
        let rid = crate::kv::db_generate_id(&mut self.db);
        proof {
            storage_view_parts(self);
        }
        let id = match rid {
            Ok(n) => n,
            Err(e) => {
                return Err(e);
            },
        };
        let pun = crate::domain::Punishment {
            id,
            title: title.to_owned(),
            creation_date,
            expiration_date,
            reason: reason.to_owned(),
            alsoip: also_ip,
            allow_chat,
            allow_ranked,
            allow_unranked,
            allow_join_minigames,
        };
        let record = crate::serial::encode_punishment(&pun);
        let member = crate::codec::u64_to_dec(id);
        let rr = tree_insert(&mut self.punishments, member.as_str(), record.as_slice());
        proof {
            storage_view_parts(self);
        }
        if let Err(e) = rr {
            return Err(e);
        }
        let link = member_key(user_uuid, "punishments", member.as_str());
        let one = byte_vec(1);
        let rl = tree_insert(&mut self.users, link.as_str(), one.as_slice());
        proof {
            storage_view_parts(self);
        }
        if let Err(e) = rl {
            return Err(e);
        }
        if let Some(sn) = subnet {
            let bucket = field_key(sn.as_str(), member.as_str());
            let idb = crate::codec::encode_u64(id);
            let rb = tree_insert(&mut self.ip_punishments, bucket.as_str(), idb.as_slice());
            proof {
                storage_view_parts(self);
            }
            if let Err(e) = rb {
                return Err(e);
            }
        }
        Ok(pun)
    }

    /// Whether the list already carries a record with this id.
    fn has_pun_id(list: &Vec<crate::domain::Punishment>, id: u64) -> (r: bool)
        ensures
            r == exists|i: int| 0 <= i < list@.len() && (#[trigger] list@[i])@.id == id,
    {
        let mut i: usize = 0;
        while i < list.len()
            invariant
                0 <= i <= list@.len(),
                forall|j: int| 0 <= j < i ==> (#[trigger] list@[j])@.id != id,
            decreases list@.len() - i,
        {
            if list[i].id == id {
                return true;
            }
            i += 1;
        }
        false
    }

    /// Fetch-or-create on login: refreshes the name and address indexes
    /// and the subject's indexed address, then merges in every punishment
    /// bucketed under the caller's subnet that the account does not
    /// already carry. The merge is read-time only: nothing of it is
    /// written back.
    #[verifier::rlimit(100)]
    pub fn get_user_connected(&mut self, uuid: &str, name: &str, ip: &str) -> (r: Result<
        crate::user::User,
        StorageError,
    >)
        ensures
            final(self)@.groups == old(self)@.groups,
            final(self)@.punishments == old(self)@.punishments,
            final(self)@.ip_punishments == old(self)@.ip_punishments,
            final(self)@.id_floor == old(self)@.id_floor,
            match r {
                Ok(u) => {
                    &&& u@.uuid == uuid@
                    &&& final(self)@.name_index == old(self)@.name_index.insert(
                        name@,
                        encode_utf8(uuid@),
                    )
                    &&& final(self)@.ip_index == old(self)@.ip_index.insert(
                        ip@,
                        encode_utf8(uuid@),
                    )
                    &&& val_at(final(self)@.users, spec_field_key(uuid@, "ip"@)) == Some(
                        encode_utf8(ip@),
                    )
                    &&& user_exists(final(self)@.users, uuid@)
                    &&& connected_read(final(self)@, uuid@, ip@, u@)
                    &&& (user_exists(old(self)@.users, uuid@) ==> final(self)@.users == old(
                        self,
                    )@.users.insert(spec_field_key(uuid@, "ip"@), encode_utf8(ip@)))
                    &&& (!user_exists(old(self)@.users, uuid@) ==> exists|
                        base: crate::user::UserModel,
                    |
                        {
                            &&& #[trigger] fresh_account(base, uuid@, name@)
                            &&& default_group_resolved(old(self)@.groups, base.group)
                            &&& final(self)@.users == spec_put_user(
                                old(self)@.users,
                                base,
                            ).insert(spec_field_key(uuid@, "ip"@), encode_utf8(ip@))
                        })
                    &&& forall|k: Seq<char>|
                        #[trigger] old(self)@.ip_punishments.contains_key(k) && (subnet_chars(ip@)
                            + seq![':']).is_prefix_of(k) ==> carries_id(
                            u@.punishments,
                            crate::codec::u64_be_value(old(self)@.ip_punishments[k]),
                        )
                },
                Err(e) => e == StorageError::StoreError || e == StorageError::CorruptData,
            },
    {
        proof {
            storage_view_parts(self);
        }
        let ghost v0 = self@;
        let ghost existed = user_exists(self@.users, uuid@);
        let mut user = match self.get_user(uuid)? {
            Some(u) => u,
            None => self.create_new_player(uuid, name)?,
        };
        proof {
            storage_view_parts(self);
        }
        let ghost base_um = user@;
        let ghost v1 = self@;
        proof {
            if existed {
                assert(is_user_read(v1, uuid@, base_um));
            } else {
                lemma_fresh_put_reads_back(v0, base_um);
                lemma_user_read_same_maps(
                    StoreView { users: spec_put_user(v0.users, base_um), ..v0 },
                    v1,
                    uuid@,
                    base_um,
                );
            }
            assert(is_user_read(v1, uuid@, base_um));
            assert(user_exists(v1.users, uuid@));
        }
        let r1 = tree_insert(&mut self.name_index, name, uuid.as_bytes());
        proof {
            storage_view_parts(self);
        }
        if let Err(e) = r1 {
            return Err(e);
        }
        let r2 = tree_insert(&mut self.ip_index, ip, uuid.as_bytes());
        proof {
            storage_view_parts(self);
        }
        if let Err(e) = r2 {
            return Err(e);
        }
        let ip_key = field_key(uuid, "ip");
        let r3 = tree_insert(&mut self.users, ip_key.as_str(), ip.as_bytes());
        proof {
            storage_view_parts(self);
        }
        if let Err(e) = r3 {
            return Err(e);
        }
        proof {
            lemma_user_read_keeps_under_ip(v1, uuid@, encode_utf8(ip@), base_um);
            lemma_user_read_same_maps(
                StoreView {
                    users: v1.users.insert(spec_field_key(uuid@, "ip"@), encode_utf8(ip@)),
                    ..v1
                },
                self@,
                uuid@,
                base_um,
            );
            assert(is_user_read(self@, uuid@, base_um));
        }
        let ghost n = base_um.punishments.len();
        proof {
            assert(user@.punishments.take(n as int) =~= base_um.punishments);
        }
        let sn = subnet_of(ip);
        let bucket_prefix = rel_prefix_of_subnet(sn.as_str());
        let ghost buckets = self@.ip_punishments;
        let entries = tree_scan_prefix(&self.ip_punishments, bucket_prefix.as_str())?;
        let mut i: usize = 0;
        while i < entries.len()
            invariant
                0 <= i <= entries@.len(),
                buckets == self@.ip_punishments,
                bucket_prefix@ == subnet_chars(ip@) + seq![':'],
                user@.uuid == uuid@,
                self@.groups == old(self)@.groups,
                self@.punishments == old(self)@.punishments,
                self@.ip_punishments == old(self)@.ip_punishments,
                self@.id_floor == old(self)@.id_floor,
                self@.name_index == old(self)@.name_index.insert(name@, encode_utf8(uuid@)),
                self@.ip_index == old(self)@.ip_index.insert(ip@, encode_utf8(uuid@)),
                val_at(self@.users, spec_field_key(uuid@, "ip"@)) == Some(encode_utf8(ip@)),
                user_exists(self@.users, uuid@),
                existed == user_exists(old(self)@.users, uuid@),
                existed ==> self@.users == old(self)@.users.insert(
                    spec_field_key(uuid@, "ip"@),
                    encode_utf8(ip@),
                ),
                !existed ==> fresh_account(base_um, uuid@, name@) && default_group_resolved(
                    old(self)@.groups,
                    base_um.group,
                ) && self@.users == spec_put_user(old(self)@.users, base_um).insert(
                    spec_field_key(uuid@, "ip"@),
                    encode_utf8(ip@),
                ),
                is_user_read(self@, uuid@, base_um),
                n == base_um.punishments.len(),
                n <= user@.punishments.len(),
                user@.punishments.take(n as int) == base_um.punishments,
                (crate::user::UserModel { punishments: base_um.punishments, ..user@ })
                    == base_um,
                forall|j: int|
                    n <= j < user@.punishments.len() ==> bucket_sourced(
                        self@,
                        ip@,
                        #[trigger] user@.punishments[j],
                    ),
                forall|j: int|
                    n <= j < user@.punishments.len() ==> !carries_id(
                        user@.punishments.take(j),
                        (#[trigger] user@.punishments[j]).id,
                    ),
                forall|j: int|
                    0 <= j < entries@.len() ==> {
                        &&& buckets.contains_key((#[trigger] entries@[j]).0@)
                        &&& bucket_prefix@.is_prefix_of(entries@[j].0@)
                        &&& entries@[j].1@ == buckets[entries@[j].0@]
                    },
                forall|j: int|
                    0 <= j < i ==> carries_id(
                        user@.punishments,
                        crate::codec::u64_be_value((#[trigger] entries@[j]).1@),
                    ),
            decreases entries@.len() - i,
        {
            let ghost user0 = user@;
            let id = match crate::codec::decode_u64(entries[i].1.as_slice()) {
                Ok(n) => n,
                Err(e) => {
                    return Err(e);
                },
            };
            let already = Self::has_pun_id(&user.punishments, id);
            proof {
                if already {
                    let w = choose|w: int|
                        0 <= w < user.punishments@.len() && (#[trigger] user.punishments@[w])@.id
                            == id;
                    assert(user@.punishments[w].id == id);
                    assert(carries_id(user@.punishments, id));
                }
            }
            if !already {
                let member = crate::codec::u64_to_dec(id);
                let record = match tree_get(&self.punishments, member.as_str())? {
                    None => {
                        return Err(StorageError::CorruptData);
                    },
                    Some(v) => v,
                };
                let pun = match crate::serial::decode_punishment(record.as_slice()) {
                    Ok(p) => p,
                    Err(e) => {
                        return Err(e);
                    },
                };
                if pun.id != id {
                    return Err(StorageError::CorruptData);
                }
                user.punishments.push(pun);
                proof {
                    storage_view_parts(self);
                    let np = user@.punishments;
                    assert(np.len() == user0.punishments.len() + 1);
                    assert forall|t: int|
                        0 <= t < user0.punishments.len() implies #[trigger] np[t]
                        == user0.punishments[t] by {
                        assert(user.punishments@[t] == user.punishments@[t]);
                    }
                    assert(np[np.len() - 1] == user.punishments@[user.punishments@.len() - 1]@);
                    assert(np[np.len() - 1].id == id);
                    assert(carries_id(np, id));
                    assert(user@.uuid == user0.uuid);
                    assert((crate::user::UserModel { punishments: base_um.punishments, ..user@ })
                        == base_um);
                    assert(np.take(n as int) =~= user0.punishments.take(n as int));
                    // the pushed record is bucket-sourced
                    assert(entries@[i as int].1@.len() >= 8);
                    assert(buckets.contains_key(entries@[i as int].0@));
                    assert(bucket_prefix@.is_prefix_of(entries@[i as int].0@));
                    assert(member@ == crate::codec::dec_chars(np[np.len() - 1].id as int));
                    assert(record@ == self@.punishments[member@]);
                    assert(crate::serial::spec_decode_pun(record@) == Some(np[np.len() - 1]));
                    assert(bucket_sourced(self@, ip@, np[np.len() - 1]));
                    // and its id was nowhere in the list it extends
                    if carries_id(user0.punishments, id) {
                        let w = choose|w: int|
                            0 <= w < user0.punishments.len() && (
                            #[trigger] user0.punishments[w]).id == id;
                        assert(false);
                    }
                    assert(np.take(np.len() - 1) =~= user0.punishments);
                    assert forall|j: int|
                        n <= j < np.len() implies bucket_sourced(
                        self@,
                        ip@,
                        #[trigger] np[j],
                    ) && !carries_id(np.take(j), np[j].id) by {
                        if j < np.len() - 1 {
                            assert(np[j] == user0.punishments[j]);
                            assert(np.take(j) =~= user0.punishments.take(j));
                        } else {
                            assert(np[j] == np[np.len() - 1]);
                        }
                    }
                }
            }
            i += 1;
            proof {
                assert forall|j: int|
                    0 <= j < i implies carries_id(
                    user@.punishments,
                    crate::codec::u64_be_value((#[trigger] entries@[j]).1@),
                ) by {
                    if j < i - 1 {
                        lemma_carries_id_grows(user0.punishments, user@.punishments);
                        assert(carries_id(
                            user0.punishments,
                            crate::codec::u64_be_value(entries@[j].1@),
                        ));
                    } else {
                        assert(carries_id(user@.punishments, id));
                        assert(crate::codec::u64_be_value(entries@[j].1@) == id);
                    }
                }
            }
        }
        proof {
            assert forall|k: Seq<char>|
                #[trigger] buckets.contains_key(k) && (subnet_chars(ip@)
                    + seq![':']).is_prefix_of(k) implies carries_id(
                user@.punishments,
                crate::codec::u64_be_value(buckets[k]),
            ) by {
                let j = choose|j: int|
                    0 <= j < entries@.len() && (#[trigger] entries@[j]).0@ == k;
                assert(carries_id(
                    user@.punishments,
                    crate::codec::u64_be_value(entries@[j].1@),
                ));
            }
            assert((crate::user::UserModel {
                punishments: user@.punishments.take(n as int),
                ..user@
            }) == base_um);
            assert(connected_read_at(self@, uuid@, ip@, user@, n as int));
            assert(connected_read(self@, uuid@, ip@, user@));
        }
        Ok(user)
    }
}

/// A punishment that reaches a connection through the subnet bucket: a
/// bucket entry under the caller's subnet names its id, and its record is
/// stored under that id and decodes to it.
pub open spec fn bucket_sourced(v: StoreView, ip: Seq<char>, pm: crate::domain::PunModel) -> bool {
    &&& v.punishments.contains_key(crate::codec::dec_chars(pm.id as int))
    &&& crate::serial::spec_decode_pun(v.punishments[crate::codec::dec_chars(pm.id as int)])
        == Some(pm)
    &&& exists|k: Seq<char>|
        {
            &&& #[trigger] v.ip_punishments.contains_key(k)
            &&& (subnet_chars(ip) + seq![':']).is_prefix_of(k)
            &&& v.ip_punishments[k].len() >= 8
            &&& crate::codec::u64_be_value(v.ip_punishments[k]) == pm.id
        }
}

/// The shape of a merged login read, with `n` marking where the account's
/// own punishment list ends: up to `n` the user is exactly a full read of
/// the stored account, and past `n` come only dereferenced subnet-bucket
/// records whose ids the list did not already carry.
pub open spec fn connected_read_at(
    v: StoreView,
    uuid: Seq<char>,
    ip: Seq<char>,
    um: crate::user::UserModel,
    n: int,
) -> bool {
    &&& 0 <= n <= um.punishments.len()
    &&& is_user_read(
        v,
        uuid,
        crate::user::UserModel { punishments: um.punishments.take(n), ..um },
    )
    &&& forall|j: int|
        n <= j < um.punishments.len() ==> bucket_sourced(v, ip, #[trigger] um.punishments[j])
    &&& forall|j: int|
        n <= j < um.punishments.len() ==> !carries_id(
            um.punishments.take(j),
            (#[trigger] um.punishments[j]).id,
        )
}

/// A merged login read: some split point makes the shape above true.
pub open spec fn connected_read(
    v: StoreView,
    uuid: Seq<char>,
    ip: Seq<char>,
    um: crate::user::UserModel,
) -> bool {
    exists|n: int| connected_read_at(v, uuid, ip, um, n)
}

/// A full read only looks at the users, groups and punishments keyspaces.
proof fn lemma_user_read_same_maps(
    v1: StoreView,
    v2: StoreView,
    uuid: Seq<char>,
    um: crate::user::UserModel,
)
    requires
        is_user_read(v1, uuid, um),
        v2.users == v1.users,
        v2.groups == v1.groups,
        v2.punishments == v1.punishments,
    ensures
        is_user_read(v2, uuid, um),
{
    assert(resolved_group_name(v2, uuid) == resolved_group_name(v1, uuid));
}

/// Setting the account's indexed address does not change what a full read
/// returns: the address field is no part of the read.
proof fn lemma_user_read_keeps_under_ip(
    v: StoreView,
    uuid: Seq<char>,
    w: Seq<u8>,
    um: crate::user::UserModel,
)
    requires
        is_user_read(v, uuid, um),
    ensures
        is_user_read(
            StoreView { users: v.users.insert(spec_field_key(uuid, "ip"@), w), ..v },
            uuid,
            um,
        ),
{
    crate::schema::lemma_schema_words();
    let ipk = spec_field_key(uuid, "ip"@);
    let m = v.users;
    let m2 = m.insert(ipk, w);
    let v2 = StoreView { users: m2, ..v };
    assert forall|f: Seq<char>| f != "ip"@ implies spec_field_key(uuid, f) != ipk by {
        if spec_field_key(uuid, f) == ipk {
            crate::schema::lemma_fk_cancel(uuid, f, "ip"@);
        }
    }
    assert forall|rel: Seq<char>, x: Seq<char>| rel.len() >= 3 implies ipk != spec_member_key(
        uuid,
        rel,
        x,
    ) && !spec_rel_prefix(uuid, rel).is_prefix_of(ipk) by {
        assert(ipk.len() == uuid.len() + 3);
        assert(spec_member_key(uuid, rel, x).len() >= uuid.len() + 5);
        if spec_rel_prefix(uuid, rel).is_prefix_of(ipk) {
            assert(spec_rel_prefix(uuid, rel).len() <= ipk.len());
            assert(false);
        }
    }
    assert(resolved_group_name(v2, uuid) == resolved_group_name(v, uuid));
    lemma_flag_keeps_under_ip(m, uuid, w, "friends"@, um.friends);
    lemma_flag_keeps_under_ip(m, uuid, w, "ignores"@, um.ignores);
    let pp = spec_rel_prefix(uuid, "permissions"@);
    assert forall|i: int| 0 <= i < um.perms.len() implies {
        &&& m2.contains_key(pp + (#[trigger] um.perms[i]).name)
        &&& um.perms[i].value == bool_of_val(m2[pp + um.perms[i].name])
    } by {
        assert(pp + um.perms[i].name =~= spec_member_key(uuid, "permissions"@, um.perms[i].name));
    }
    assert forall|k: Seq<char>|
        #[trigger] m2.contains_key(k) && pp.is_prefix_of(k) implies exists|i: int|
        0 <= i < um.perms.len() && (#[trigger] um.perms[i]).name == k.skip(pp.len() as int) by {
        assert(k != ipk);
        assert(m.contains_key(k));
    }
    let lp = spec_rel_prefix(uuid, "punishments"@);
    assert forall|i: int|
        0 <= i < um.punishments.len() implies pun_listed(
        m2,
        v2.punishments,
        uuid,
        #[trigger] um.punishments[i],
    ) by {
        assert(pun_listed(m, v.punishments, uuid, um.punishments[i]));
        let k = choose|k: Seq<char>| pun_link_at(m, v.punishments, uuid, um.punishments[i], k);
        assert(pun_link_at(m2, v2.punishments, uuid, um.punishments[i], k));
    }
    assert forall|k: Seq<char>|
        #[trigger] m2.contains_key(k) && lp.is_prefix_of(k) implies link_matched(
        m2,
        v2.punishments,
        uuid,
        um.punishments,
        k,
    ) by {
        assert(k != ipk);
        assert(m.contains_key(k));
        assert(link_matched(m, v.punishments, uuid, um.punishments, k));
        let i = choose|i: int|
            0 <= i < um.punishments.len() && pun_link_at(
                m,
                v.punishments,
                uuid,
                #[trigger] um.punishments[i],
                k,
            );
        assert(pun_link_at(m2, v2.punishments, uuid, um.punishments[i], k));
    }
}

/// One flagged relation reads the same after the address field is set.
proof fn lemma_flag_keeps_under_ip(
    m: KvMap,
    uuid: Seq<char>,
    w: Seq<u8>,
    rel: Seq<char>,
    members: Seq<Seq<char>>,
)
    requires
        flag_members_read(m, uuid, rel, members),
        rel == "friends"@ || rel == "ignores"@,
    ensures
        flag_members_read(
            m.insert(spec_field_key(uuid, "ip"@), w),
            uuid,
            rel,
            members,
        ),
{
    crate::schema::lemma_schema_words();
    let ipk = spec_field_key(uuid, "ip"@);
    let m2 = m.insert(ipk, w);
    let p = spec_rel_prefix(uuid, rel);
    assert forall|i: int|
        0 <= i < members.len() implies m2.contains_key(p + #[trigger] members[i]) && bool_of_val(
        m2[p + members[i]],
    ) by {
        assert((p + members[i]).len() >= uuid.len() + 9);
        assert(ipk.len() == uuid.len() + 3);
        assert(p + members[i] != ipk);
    }
    assert forall|k: Seq<char>|
        #[trigger] m2.contains_key(k) && p.is_prefix_of(k) && bool_of_val(m2[k]) implies exists|
            i: int,
        | 0 <= i < members.len() && #[trigger] members[i] == k.skip(p.len() as int) by {
        assert(p.len() >= uuid.len() + 9);
        if k == ipk {
            assert(p.len() <= k.len());
            assert(false);
        }
        assert(m.contains_key(k) && bool_of_val(m[k]));
    }
}

/// Saving a fresh account reads back as that account: it has no members,
/// so only the scalar fields and the group resolution are at stake, and
/// the key convention keeps them apart whatever the id holds.
#[verifier::rlimit(100)]
proof fn lemma_fresh_put_reads_back(v: StoreView, um: crate::user::UserModel)
    requires
        um.email is None,
        um.created_at.wf(),
        um.friends == Seq::<Seq<char>>::empty(),
        um.ignores == Seq::<Seq<char>>::empty(),
        um.inbox == Seq::<crate::domain::MailModel>::empty(),
        um.punishments == Seq::<crate::domain::PunModel>::empty(),
        um.perms == Seq::<crate::domain::PermModel>::empty(),
        default_group_resolved(v.groups, um.group),
    ensures
        user_exists(spec_put_user(v.users, um), um.uuid),
        is_user_read(StoreView { users: spec_put_user(v.users, um), ..v }, um.uuid, um),
{
    broadcast use vstd::utf8::encode_utf8_decode_utf8;
    broadcast use vstd::utf8::encode_utf8_valid_utf8;

    crate::schema::lemma_schema_words();
    let uuid = um.uuid;
    let m = v.users;
    let scalars = user_scalar_map(um);
    let rec = user_record_map(um);
    assert(rec == scalars);
    let m2 = spec_put_user(m, um);
    let v2 = StoreView { users: m2, ..v };
    assert forall|f1: Seq<char>, f2: Seq<char>| f1 != f2 implies spec_field_key(uuid, f1)
        != spec_field_key(uuid, f2) by {
        if spec_field_key(uuid, f1) == spec_field_key(uuid, f2) {
            crate::schema::lemma_fk_cancel(uuid, f1, f2);
        }
    }
    assert forall|rel: Seq<char>, f: Seq<char>|
        colon_free(f) implies !spec_rel_prefix(uuid, rel).is_prefix_of(
        spec_field_key(uuid, f),
    ) by {
        crate::schema::lemma_same_id_rel_prefix_vs_field(uuid, rel, f);
    }
    assert forall|k: Seq<char>| #[trigger] scalars.contains_key(k) implies (k == spec_field_key(
        uuid,
        "name"@,
    ) || k == spec_field_key(uuid, "chat"@) || k == spec_field_key(uuid, "pms"@) || k
        == spec_field_key(uuid, "suffix"@) || k == spec_field_key(uuid, "lang"@) || k
        == spec_field_key(uuid, "scoreboard"@) || k == spec_field_key(uuid, "coins"@) || k
        == spec_field_key(uuid, "friend_reqs"@) || k == spec_field_key(uuid, "created_at"@) || k
        == spec_field_key(uuid, "mails"@) || k == spec_field_key(uuid, "group"@)) by {}
    assert(user_exists(m2, uuid));
    crate::codec::lemma_u64_roundtrip(um.coins);
    crate::codec::lemma_timestamp_roundtrip(um.created_at);
    assert(scalars[spec_field_key(uuid, "name"@)] == encode_utf8(um.name));
    assert(scalars[spec_field_key(uuid, "chat"@)] == seq![crate::serial::bool_byte(um.chat)]);
    assert(scalars[spec_field_key(uuid, "pms"@)] == seq![crate::domain::pm_mode_byte(um.pms)]);
    assert(scalars[spec_field_key(uuid, "suffix"@)] == encode_utf8(um.suffix));
    assert(scalars[spec_field_key(uuid, "lang"@)] == encode_utf8(um.lang));
    assert(scalars[spec_field_key(uuid, "coins"@)] == crate::codec::u64_be_bytes(um.coins));
    assert(scalars[spec_field_key(uuid, "created_at"@)] == timestamp_bytes(um.created_at));
    assert(scalars[spec_field_key(uuid, "mails"@)] == crate::serial::inbox_bytes(um.inbox));
    assert(crate::serial::inbox_bytes(um.inbox) =~= Seq::<u8>::empty());
    assert(crate::serial::spec_decode_inbox(Seq::<u8>::empty(), 0) == Some(
        Seq::<crate::domain::MailModel>::empty(),
    ));
    assert(!scalars.contains_key(spec_field_key(uuid, "email"@)));
    assert(!m2.contains_key(spec_field_key(uuid, "email"@)));
    match um.group {
        Some(g) => {
            assert(scalars[spec_field_key(uuid, "group"@)] == encode_utf8(g.name));
            assert(val_at(m2, spec_field_key(uuid, "group"@)) == Some(encode_utf8(g.name)));
            assert(resolved_group_name(v2, uuid) == Some(g.name));
        },
        None => {
            assert(!scalars.contains_key(spec_field_key(uuid, "group"@)));
            assert(!m2.contains_key(spec_field_key(uuid, "group"@)));
        },
    }
    assert(group_resolution_read(v2, uuid, um.group));
    assert(scalars[spec_field_key(uuid, "scoreboard"@)] == seq![
        crate::serial::bool_byte(um.scoreboard),
    ]);
    assert(scalars[spec_field_key(uuid, "friend_reqs"@)] == seq![
        crate::serial::bool_byte(um.friend_reqs),
    ]);
    assert forall|k: Seq<char>|
        #[trigger] m2.contains_key(k) implies !(spec_rel_prefix(uuid, "friends"@).is_prefix_of(k)
        || spec_rel_prefix(uuid, "ignores"@).is_prefix_of(k) || spec_rel_prefix(
        uuid,
        "permissions"@,
    ).is_prefix_of(k) || spec_rel_prefix(uuid, "punishments"@).is_prefix_of(k)) by {
        if rec.contains_key(k) {
            // a scalar key: no relation prefix reaches it
        } else {
            // a survivor of the old map would have been cleared
            if spec_rel_prefix(uuid, "friends"@).is_prefix_of(k) || spec_rel_prefix(
                uuid,
                "ignores"@,
            ).is_prefix_of(k) || spec_rel_prefix(uuid, "permissions"@).is_prefix_of(k)
                || spec_rel_prefix(uuid, "punishments"@).is_prefix_of(k) {
                assert(user_owned_keys(uuid).contains(k));
                assert(!m2.contains_key(k));
            }
        }
    }
    assert(flag_members_read(m2, uuid, "friends"@, um.friends));
    assert(flag_members_read(m2, uuid, "ignores"@, um.ignores));
    assert(perm_members_read(m2, uuid, um.perms));
    assert(pun_links_read(m2, v2.punishments, uuid, um.punishments));
}

/// Some record in the list carries this id.
pub open spec fn carries_id(plist: Seq<crate::domain::PunModel>, id: u64) -> bool {
    exists|i: int| 0 <= i < plist.len() && (#[trigger] plist[i]).id == id
}

/// A list that only grew still carries every id it carried.
proof fn lemma_carries_id_grows(
    a: Seq<crate::domain::PunModel>,
    b: Seq<crate::domain::PunModel>,
)
    requires
        a.len() <= b.len(),
        forall|i: int| 0 <= i < a.len() ==> #[trigger] b[i] == a[i],
    ensures
        forall|id: u64| carries_id(a, id) ==> carries_id(b, id),
{
    assert forall|id: u64| carries_id(a, id) implies carries_id(b, id) by {
        let i = choose|i: int| 0 <= i < a.len() && (#[trigger] a[i]).id == id;
        assert(b[i].id == id);
    }
}

/// The bucket prefix whose scan enumerates one subnet.
fn rel_prefix_of_subnet(subnet: &str) -> (k: String)
    ensures
        k@ == subnet@ + seq![':'],
{
    let mut k = subnet.to_owned();
    k.append(":");
    proof {
        reveal_strlit(":");
        assert(":"@ =~= seq![':']);
        assert(k@ =~= subnet@ + seq![':']);
    }
    k
}

} // verus!
