//! The engine's laws: what holds across operations, proved once over the
//! store's view. Each proof function here is stated over the same spec
//! functions the repository contracts use, so its conclusions compose with
//! those contracts at every call site.

use vstd::prelude::*;

use crate::codec::{dec_chars, lemma_dec_chars_digits, lemma_timestamp_roundtrip,
    lemma_u64_roundtrip, timestamp_bytes, u64_be_bytes, u64_be_value};
use crate::domain::{pm_mode_byte, pm_mode_of_byte, PermModel, PunModel};
use crate::kv::StoreView;
use crate::repo::{bool_of_val, carries_id, flag_members_read, group_exists,
    group_resolution_read, insert_flag_members, insert_links, insert_perms, is_group_read,
    is_user_read, perm_members_read, pun_link_at, pun_links_read, pun_listed, link_matched,
    read_bool_or, read_str_or, resolved_group_name, spec_put_user, subnet_chars, user_exists,
    user_owned_keys, user_record_map, user_scalar_map, val_at, KvMap};
use crate::schema::{colon_free, lemma_field_key_vs_member_key, lemma_fk_cancel,
    lemma_member_key_strip, lemma_mk_cancel, lemma_rel_prefix_vs_field_key,
    lemma_rel_prefix_vs_member_key, lemma_schema_words, spec_field_key, spec_member_key,
    spec_rel_prefix};
use crate::serial::{bool_byte, inbox_bytes, lemma_inbox_roundtrip, lemma_pun_record_roundtrip,
    pun_record_bytes, spec_decode_inbox, spec_decode_pun};
use crate::user::UserModel;

verus! {

use vstd::utf8::{decode_utf8, encode_utf8, valid_utf8, encode_utf8_decode_utf8,
    encode_utf8_valid_utf8};

// ---------------------------------------------------------------------------
// What a user must look like to live in the schema
// ---------------------------------------------------------------------------

/// A user whose identity and members fit the key convention: no part
/// carries the separator, no collection repeats a member, every date is
/// real and every inbox entry fits its record.
pub open spec fn um_storable(um: UserModel) -> bool {
    &&& colon_free(um.uuid)
    &&& um.created_at.wf()
    &&& forall|i: int| 0 <= i < um.friends.len() ==> colon_free(#[trigger] um.friends[i])
    &&& forall|i: int, j: int|
        0 <= i < j < um.friends.len() ==> #[trigger] um.friends[i] != #[trigger] um.friends[j]
    &&& forall|i: int| 0 <= i < um.ignores.len() ==> colon_free(#[trigger] um.ignores[i])
    &&& forall|i: int, j: int|
        0 <= i < j < um.ignores.len() ==> #[trigger] um.ignores[i] != #[trigger] um.ignores[j]
    &&& forall|i: int| 0 <= i < um.perms.len() ==> colon_free((#[trigger] um.perms[i]).name)
    &&& forall|i: int, j: int|
        0 <= i < j < um.perms.len() ==> (#[trigger] um.perms[i]).name != (
        #[trigger] um.perms[j]).name
    &&& forall|i: int| 0 <= i < um.inbox.len() ==> (#[trigger] um.inbox[i]).wf()
    &&& forall|i: int, j: int|
        0 <= i < j < um.punishments.len() ==> (#[trigger] um.punishments[i]).id != (
        #[trigger] um.punishments[j]).id
}

/// Every punishment the user carries has its record stored under its
/// decimal id, byte for byte.
pub open spec fn records_present(puns: KvMap, plist: Seq<PunModel>) -> bool {
    forall|i: int|
        0 <= i < plist.len() ==> {
            &&& (#[trigger] plist[i]).wf()
            &&& puns.contains_key(dec_chars(plist[i].id as int))
            &&& puns[dec_chars(plist[i].id as int)] == pun_record_bytes(plist[i])
        }
}

/// The groups keyspace agrees with the user's resolved group: an explicit
/// group reads back as itself, and a user without one sees no usable
/// default.
pub open spec fn group_env_matches(v: StoreView, um: UserModel) -> bool {
    match um.group {
        Some(g) => group_exists(v.groups, g.name) && is_group_read(v.groups, g.name, g),
        None => match val_at(v.groups, "default_group"@) {
            None => true,
            Some(b) => valid_utf8(b) && !group_exists(v.groups, decode_utf8(b)),
        },
    }
}

// ---------------------------------------------------------------------------
// Walking the record map
// ---------------------------------------------------------------------------



proof fn lemma_ifm_preserves(
    base: KvMap,
    uuid: Seq<char>,
    rel: Seq<char>,
    members: Seq<Seq<char>>,
    k: Seq<char>,
)
    requires
        forall|i: int|
            0 <= i < members.len() ==> k != spec_member_key(uuid, rel, #[trigger] members[i]),
    ensures
        insert_flag_members(base, uuid, rel, members).contains_key(k) == base.contains_key(k),
        base.contains_key(k) ==> insert_flag_members(base, uuid, rel, members)[k] == base[k],
    decreases members.len(),
{
    if members.len() > 0 {
        assert forall|i: int|
            0 <= i < members.drop_last().len() implies k != spec_member_key(
            uuid,
            rel,
            #[trigger] members.drop_last()[i],
        ) by {
            assert(members.drop_last()[i] == members[i]);
        }
        lemma_ifm_preserves(base, uuid, rel, members.drop_last(), k);
        assert(k != spec_member_key(uuid, rel, members.last()));
    }
}

proof fn lemma_ifm_member(
    base: KvMap,
    uuid: Seq<char>,
    rel: Seq<char>,
    members: Seq<Seq<char>>,
    j: int,
)
    requires
        0 <= j < members.len(),
        forall|t: int| j < t < members.len() ==> #[trigger] members[t] != members[j],
    ensures
        insert_flag_members(base, uuid, rel, members).contains_key(
            spec_member_key(uuid, rel, members[j]),
        ),
        insert_flag_members(base, uuid, rel, members)[spec_member_key(uuid, rel, members[j])]
            == seq![1u8],
    decreases members.len(),
{
    if j == members.len() - 1 {
        assert(members.last() == members[j]);
    } else {
        assert forall|t: int|
            j < t < members.drop_last().len() implies #[trigger] members.drop_last()[t]
            != members.drop_last()[j] by {
            assert(members.drop_last()[t] == members[t]);
        }
        assert(members.drop_last()[j] == members[j]);
        lemma_ifm_member(base, uuid, rel, members.drop_last(), j);
        if spec_member_key(uuid, rel, members.last()) == spec_member_key(uuid, rel, members[j]) {
            lemma_mk_cancel(uuid, rel, members.last(), members[j]);
        }
    }
}

proof fn lemma_ifm_new_keys(
    base: KvMap,
    uuid: Seq<char>,
    rel: Seq<char>,
    members: Seq<Seq<char>>,
    k: Seq<char>,
)
    requires
        insert_flag_members(base, uuid, rel, members).contains_key(k),
        !base.contains_key(k),
    ensures
        exists|i: int|
            0 <= i < members.len() && k == spec_member_key(uuid, rel, #[trigger] members[i]),
    decreases members.len(),
{
    if members.len() > 0 {
        if k == spec_member_key(uuid, rel, members.last()) {
            assert(members[members.len() - 1] == members.last());
        } else {
            lemma_ifm_new_keys(base, uuid, rel, members.drop_last(), k);
            let i = choose|i: int|
                0 <= i < members.drop_last().len() && k == spec_member_key(
                    uuid,
                    rel,
                    #[trigger] members.drop_last()[i],
                );
            assert(members[i] == members.drop_last()[i]);
        }
    }
}

proof fn lemma_perms_preserves(
    base: KvMap,
    uuid: Seq<char>,
    perms: Seq<PermModel>,
    k: Seq<char>,
)
    requires
        forall|i: int|
            0 <= i < perms.len() ==> k != spec_member_key(
                uuid,
                "permissions"@,
                (#[trigger] perms[i]).name,
            ),
    ensures
        insert_perms(base, uuid, perms).contains_key(k) == base.contains_key(k),
        base.contains_key(k) ==> insert_perms(base, uuid, perms)[k] == base[k],
    decreases perms.len(),
{
    if perms.len() > 0 {
        assert forall|i: int|
            0 <= i < perms.drop_last().len() implies k != spec_member_key(
            uuid,
            "permissions"@,
            (#[trigger] perms.drop_last()[i]).name,
        ) by {
            assert(perms.drop_last()[i] == perms[i]);
        }
        lemma_perms_preserves(base, uuid, perms.drop_last(), k);
        assert(k != spec_member_key(uuid, "permissions"@, perms.last().name));
    }
}

proof fn lemma_perms_member(base: KvMap, uuid: Seq<char>, perms: Seq<PermModel>, j: int)
    requires
        0 <= j < perms.len(),
        forall|t: int| j < t < perms.len() ==> (#[trigger] perms[t]).name != perms[j].name,
    ensures
        insert_perms(base, uuid, perms).contains_key(
            spec_member_key(uuid, "permissions"@, perms[j].name),
        ),
        insert_perms(base, uuid, perms)[spec_member_key(uuid, "permissions"@, perms[j].name)]
            == seq![bool_byte(perms[j].value)],
    decreases perms.len(),
{
    if j == perms.len() - 1 {
        assert(perms.last() == perms[j]);
    } else {
        assert forall|t: int|
            j < t < perms.drop_last().len() implies (#[trigger] perms.drop_last()[t]).name
            != perms.drop_last()[j].name by {
            assert(perms.drop_last()[t] == perms[t]);
        }
        assert(perms.drop_last()[j] == perms[j]);
        lemma_perms_member(base, uuid, perms.drop_last(), j);
        if spec_member_key(uuid, "permissions"@, perms.last().name) == spec_member_key(
            uuid,
            "permissions"@,
            perms[j].name,
        ) {
            lemma_mk_cancel(uuid, "permissions"@, perms.last().name, perms[j].name);
        }
    }
}

proof fn lemma_perms_new_keys(base: KvMap, uuid: Seq<char>, perms: Seq<PermModel>, k: Seq<char>)
    requires
        insert_perms(base, uuid, perms).contains_key(k),
        !base.contains_key(k),
    ensures
        exists|i: int|
            0 <= i < perms.len() && k == spec_member_key(
                uuid,
                "permissions"@,
                (#[trigger] perms[i]).name,
            ),
    decreases perms.len(),
{
    if perms.len() > 0 {
        if k == spec_member_key(uuid, "permissions"@, perms.last().name) {
            assert(perms[perms.len() - 1] == perms.last());
        } else {
            lemma_perms_new_keys(base, uuid, perms.drop_last(), k);
            let i = choose|i: int|
                0 <= i < perms.drop_last().len() && k == spec_member_key(
                    uuid,
                    "permissions"@,
                    (#[trigger] perms.drop_last()[i]).name,
                );
            assert(perms[i] == perms.drop_last()[i]);
        }
    }
}

proof fn lemma_links_preserves(base: KvMap, uuid: Seq<char>, puns: Seq<PunModel>, k: Seq<char>)
    requires
        forall|i: int|
            0 <= i < puns.len() ==> k != spec_member_key(
                uuid,
                "punishments"@,
                dec_chars((#[trigger] puns[i]).id as int),
            ),
    ensures
        insert_links(base, uuid, puns).contains_key(k) == base.contains_key(k),
        base.contains_key(k) ==> insert_links(base, uuid, puns)[k] == base[k],
    decreases puns.len(),
{
    if puns.len() > 0 {
        assert forall|i: int|
            0 <= i < puns.drop_last().len() implies k != spec_member_key(
            uuid,
            "punishments"@,
            dec_chars((#[trigger] puns.drop_last()[i]).id as int),
        ) by {
            assert(puns.drop_last()[i] == puns[i]);
        }
        lemma_links_preserves(base, uuid, puns.drop_last(), k);
        assert(k != spec_member_key(uuid, "punishments"@, dec_chars(puns.last().id as int)));
    }
}

proof fn lemma_links_member(base: KvMap, uuid: Seq<char>, puns: Seq<PunModel>, j: int)
    requires
        0 <= j < puns.len(),
        forall|t: int| j < t < puns.len() ==> (#[trigger] puns[t]).id != puns[j].id,
    ensures
        insert_links(base, uuid, puns).contains_key(
            spec_member_key(uuid, "punishments"@, dec_chars(puns[j].id as int)),
        ),
        insert_links(base, uuid, puns)[spec_member_key(
            uuid,
            "punishments"@,
            dec_chars(puns[j].id as int),
        )] == seq![1u8],
    decreases puns.len(),
{
    if j == puns.len() - 1 {
        assert(puns.last() == puns[j]);
    } else {
        assert forall|t: int|
            j < t < puns.drop_last().len() implies (#[trigger] puns.drop_last()[t]).id
            != puns.drop_last()[j].id by {
            assert(puns.drop_last()[t] == puns[t]);
        }
        assert(puns.drop_last()[j] == puns[j]);
        lemma_links_member(base, uuid, puns.drop_last(), j);
        if spec_member_key(uuid, "punishments"@, dec_chars(puns.last().id as int))
            == spec_member_key(uuid, "punishments"@, dec_chars(puns[j].id as int)) {
            lemma_mk_cancel(
                uuid,
                "punishments"@,
                dec_chars(puns.last().id as int),
                dec_chars(puns[j].id as int),
            );
            crate::codec::lemma_dec_chars_injective(puns.last().id as int, puns[j].id as int);
        }
    }
}

proof fn lemma_links_new_keys(base: KvMap, uuid: Seq<char>, puns: Seq<PunModel>, k: Seq<char>)
    requires
        insert_links(base, uuid, puns).contains_key(k),
        !base.contains_key(k),
    ensures
        exists|i: int|
            0 <= i < puns.len() && k == spec_member_key(
                uuid,
                "punishments"@,
                dec_chars((#[trigger] puns[i]).id as int),
            ),
    decreases puns.len(),
{
    if puns.len() > 0 {
        if k == spec_member_key(uuid, "punishments"@, dec_chars(puns.last().id as int)) {
            assert(puns[puns.len() - 1] == puns.last());
        } else {
            lemma_links_new_keys(base, uuid, puns.drop_last(), k);
            let i = choose|i: int|
                0 <= i < puns.drop_last().len() && k == spec_member_key(
                    uuid,
                    "punishments"@,
                    dec_chars((#[trigger] puns.drop_last()[i]).id as int),
                );
            assert(puns[i] == puns.drop_last()[i]);
        }
    }
}


/// A decimal rendering never carries the key separator.
proof fn lemma_dec_colon_free(n: int)
    requires
        n >= 0,
    ensures
        colon_free(dec_chars(n)),
{
    lemma_dec_chars_digits(n);
    assert forall|t: int| 0 <= t < dec_chars(n).len() implies dec_chars(n)[t] != ':' by {
        assert(48 <= dec_chars(n)[t] as u32 <= 57);
        assert((':') as u32 == 58);
    }
}

// ---------------------------------------------------------------------------
// The write-read round trip
// ---------------------------------------------------------------------------

/// Writing a whole user and then reading it back yields the user: every
/// scalar exactly, every collection as the same member set, the inbox in
/// order, the punishments by their stored records, and the same resolved
/// group — provided the punishment records are stored and the groups
/// keyspace matches the user's resolution. No default-on-absence rule
/// fires for a freshly written record.
#[verifier::rlimit(100)]
pub proof fn lemma_put_then_read(v: StoreView, um: UserModel)
    requires
        um_storable(um),
        records_present(v.punishments, um.punishments),
        group_env_matches(v, um),
    ensures
        user_exists(spec_put_user(v.users, um), um.uuid),
        is_user_read(StoreView { users: spec_put_user(v.users, um), ..v }, um.uuid, um),
{
    broadcast use encode_utf8_decode_utf8;
    broadcast use encode_utf8_valid_utf8;

    lemma_schema_words();
    let uuid = um.uuid;
    let m = v.users;
    let scalars = user_scalar_map(um);
    let s1 = insert_flag_members(scalars, uuid, "friends"@, um.friends);
    let s2 = insert_flag_members(s1, uuid, "ignores"@, um.ignores);
    let s3 = insert_perms(s2, uuid, um.perms);
    let rec = user_record_map(um);
    assert(rec == insert_links(s3, uuid, um.punishments));
    let m2 = spec_put_user(m, um);
    let owned = user_owned_keys(uuid);
    let v2 = StoreView { users: m2, ..v };

    assert forall|f1: Seq<char>, f2: Seq<char>| f1 != f2 implies spec_field_key(uuid, f1)
        != spec_field_key(uuid, f2) by {
        if spec_field_key(uuid, f1) == spec_field_key(uuid, f2) {
            lemma_fk_cancel(uuid, f1, f2);
        }
    }
    assert forall|f: Seq<char>, r: Seq<char>, x: Seq<char>|
        colon_free(f) && colon_free(r) && colon_free(x) implies spec_field_key(uuid, f)
        != spec_member_key(uuid, r, x) by {
        lemma_field_key_vs_member_key(uuid, f, uuid, r, x);
    }
    assert forall|r1: Seq<char>, r2: Seq<char>, x: Seq<char>|
        colon_free(r1) && colon_free(r2) && colon_free(x) implies (spec_rel_prefix(
        uuid,
        r1,
    ).is_prefix_of(spec_member_key(uuid, r2, x)) <==> r1 == r2) by {
        lemma_rel_prefix_vs_member_key(uuid, r1, uuid, r2, x);
    }
    assert forall|r: Seq<char>, f: Seq<char>|
        colon_free(r) && colon_free(f) implies !spec_rel_prefix(uuid, r).is_prefix_of(
        spec_field_key(uuid, f),
    ) by {
        lemma_rel_prefix_vs_field_key(uuid, r, uuid, f);
    }
    assert forall|i: int|
        0 <= i < um.punishments.len() implies colon_free(
        dec_chars((#[trigger] um.punishments[i]).id as int),
    ) by {
        lemma_dec_colon_free(um.punishments[i].id as int);
    }

    // Which keys the scalar stage holds.
    assert forall|k: Seq<char>| #[trigger] scalars.contains_key(k) implies (k == spec_field_key(
        uuid,
        "name"@,
    ) || k == spec_field_key(uuid, "chat"@) || k == spec_field_key(uuid, "pms"@) || k
        == spec_field_key(uuid, "suffix"@) || k == spec_field_key(uuid, "lang"@) || k
        == spec_field_key(uuid, "scoreboard"@) || k == spec_field_key(uuid, "coins"@) || k
        == spec_field_key(uuid, "friend_reqs"@) || k == spec_field_key(uuid, "created_at"@) || k
        == spec_field_key(uuid, "mails"@) || k == spec_field_key(uuid, "email"@) || k
        == spec_field_key(uuid, "group"@)) by {}

    // A field key survives the member stages untouched.
    assert forall|f: Seq<char>| colon_free(f) implies {
        &&& rec.contains_key(spec_field_key(uuid, f)) == scalars.contains_key(
            spec_field_key(uuid, f),
        )
        &&& scalars.contains_key(spec_field_key(uuid, f)) ==> rec[spec_field_key(uuid, f)]
            == scalars[spec_field_key(uuid, f)]
    } by {
        let k = spec_field_key(uuid, f);
        lemma_ifm_preserves(scalars, uuid, "friends"@, um.friends, k);
        lemma_ifm_preserves(s1, uuid, "ignores"@, um.ignores, k);
        lemma_perms_preserves(s2, uuid, um.perms, k);
        lemma_links_preserves(s3, uuid, um.punishments, k);
    }

    // A field key of the always-written set is not owned, so the write
    // pins its value in the result.
    assert forall|f: Seq<char>|
        colon_free(f) && f != "email"@ && f != "group"@ && scalars.contains_key(
            spec_field_key(uuid, f),
        ) implies #[trigger] m2.contains_key(spec_field_key(uuid, f)) && m2[spec_field_key(
        uuid,
        f,
    )] == scalars[spec_field_key(uuid, f)] by {}
    assert forall|f: Seq<char>|
        colon_free(f) && scalars.contains_key(spec_field_key(uuid, f)) implies
        #[trigger] m2.contains_key(spec_field_key(uuid, f)) && m2[spec_field_key(uuid, f)]
        == scalars[spec_field_key(uuid, f)] by {}

    // Scalar values, one by one.
    assert(scalars.contains_key(spec_field_key(uuid, "name"@)) && scalars[spec_field_key(
        uuid,
        "name"@,
    )] == encode_utf8(um.name));
    assert(scalars[spec_field_key(uuid, "chat"@)] == seq![bool_byte(um.chat)]);
    assert(scalars[spec_field_key(uuid, "pms"@)] == seq![pm_mode_byte(um.pms)]);
    assert(scalars[spec_field_key(uuid, "suffix"@)] == encode_utf8(um.suffix));
    assert(scalars[spec_field_key(uuid, "lang"@)] == encode_utf8(um.lang));
    assert(scalars[spec_field_key(uuid, "scoreboard"@)] == seq![bool_byte(um.scoreboard)]);
    assert(scalars[spec_field_key(uuid, "coins"@)] == u64_be_bytes(um.coins));
    assert(scalars[spec_field_key(uuid, "friend_reqs"@)] == seq![bool_byte(um.friend_reqs)]);
    assert(scalars[spec_field_key(uuid, "created_at"@)] == timestamp_bytes(um.created_at));
    assert(scalars[spec_field_key(uuid, "mails"@)] == inbox_bytes(um.inbox));
    match um.email {
        Some(e) => {
            assert(scalars[spec_field_key(uuid, "email"@)] == encode_utf8(e));
        },
        None => {
            assert(!scalars.contains_key(spec_field_key(uuid, "email"@)));
            assert(!m2.contains_key(spec_field_key(uuid, "email"@)));
        },
    }
    match um.group {
        Some(g) => {
            assert(scalars[spec_field_key(uuid, "group"@)] == encode_utf8(g.name));
        },
        None => {
            assert(!scalars.contains_key(spec_field_key(uuid, "group"@)));
            assert(!m2.contains_key(spec_field_key(uuid, "group"@)));
        },
    }

    // user_exists and the scalar read clauses.
    assert(user_exists(m2, uuid));
    lemma_u64_roundtrip(um.coins);
    lemma_timestamp_roundtrip(um.created_at);
    assert(read_str_or(m2, spec_field_key(uuid, "name"@), Seq::<char>::empty()) == um.name);
    assert(read_bool_or(m2, spec_field_key(uuid, "chat"@), true) == um.chat);
    assert(pm_mode_of_byte(pm_mode_byte(um.pms)) == Some(um.pms));
    assert(read_str_or(m2, spec_field_key(uuid, "suffix"@), Seq::<char>::empty()) == um.suffix);
    assert(read_str_or(m2, spec_field_key(uuid, "lang"@), "en"@) == um.lang);
    assert(read_bool_or(m2, spec_field_key(uuid, "scoreboard"@), true) == um.scoreboard);
    assert(read_bool_or(m2, spec_field_key(uuid, "friend_reqs"@), true) == um.friend_reqs);

    // The inbox decodes to itself.
    lemma_inbox_roundtrip(Seq::<u8>::empty(), um.inbox);
    assert(Seq::<u8>::empty() + inbox_bytes(um.inbox) =~= inbox_bytes(um.inbox));
    assert(spec_decode_inbox(inbox_bytes(um.inbox), 0) == Some(um.inbox));

    // The flagged relations read back as the same member sets.
    lemma_put_members_read(v, um, "friends"@, um.friends, scalars, s1, s2, s3);
    lemma_put_members_read(v, um, "ignores"@, um.ignores, scalars, s1, s2, s3);
    assert(flag_members_read(m2, uuid, "friends"@, um.friends));
    assert(flag_members_read(m2, uuid, "ignores"@, um.ignores));

    // The permission set reads back.
    lemma_put_perms_read(v, um, scalars, s1, s2, s3);

    // The punishment links dereference to the same records.
    lemma_put_links_read(v, um, scalars, s1, s2, s3);

    // Group resolution lands where the environment says.
    match um.group {
        Some(g) => {
            assert(val_at(m2, spec_field_key(uuid, "group"@)) == Some(encode_utf8(g.name)));
            assert(resolved_group_name(v2, uuid) == Some(g.name));
            assert(group_resolution_read(v2, uuid, um.group));
        },
        None => {
            assert(val_at(m2, spec_field_key(uuid, "group"@)) is None);
            assert(group_resolution_read(v2, uuid, um.group));
        },
    }
}

/// The member keys of one flagged relation, as they land in the result.
#[verifier::rlimit(100)]
proof fn lemma_put_members_read(
    v: StoreView,
    um: UserModel,
    rel: Seq<char>,
    members: Seq<Seq<char>>,
    scalars: KvMap,
    s1: KvMap,
    s2: KvMap,
    s3: KvMap,
)
    requires
        um_storable(um),
        rel == "friends"@ || rel == "ignores"@,
        members == (if rel == "friends"@ {
            um.friends
        } else {
            um.ignores
        }),
        scalars == user_scalar_map(um),
        s1 == insert_flag_members(scalars, um.uuid, "friends"@, um.friends),
        s2 == insert_flag_members(s1, um.uuid, "ignores"@, um.ignores),
        s3 == insert_perms(s2, um.uuid, um.perms),
    ensures
        flag_members_read(spec_put_user(v.users, um), um.uuid, rel, members),
{
    lemma_schema_words();
    let uuid = um.uuid;
    let m2 = spec_put_user(v.users, um);
    let rec = user_record_map(um);
    assert(rec == insert_links(s3, uuid, um.punishments));
    let p = spec_rel_prefix(uuid, rel);
    assert forall|i: int|
        0 <= i < um.punishments.len() implies colon_free(
        dec_chars((#[trigger] um.punishments[i]).id as int),
    ) by {
        lemma_dec_colon_free(um.punishments[i].id as int);
    }
    // Soundness: each member's key is present and set.
    assert forall|i: int|
        0 <= i < members.len() implies m2.contains_key(p + #[trigger] members[i]) && bool_of_val(
        m2[p + members[i]],
    ) by {
        let k = spec_member_key(uuid, rel, members[i]);
        lemma_member_key_strip(uuid, rel, members[i]);
        assert(p + members[i] =~= k);
        if rel == "friends"@ {
            lemma_ifm_member(scalars, uuid, rel, members, i);
            assert forall|t: int|
                0 <= t < um.ignores.len() implies k != spec_member_key(
                uuid,
                "ignores"@,
                #[trigger] um.ignores[t],
            ) by {
                lemma_rel_prefix_vs_member_key(uuid, rel, uuid, "ignores"@, um.ignores[t]);
            }
            lemma_ifm_preserves(s1, uuid, "ignores"@, um.ignores, k);
        } else {
            lemma_ifm_member(s1, uuid, rel, members, i);
        }
        assert forall|t: int|
            0 <= t < um.perms.len() implies k != spec_member_key(
            uuid,
            "permissions"@,
            (#[trigger] um.perms[t]).name,
        ) by {
            lemma_rel_prefix_vs_member_key(
                uuid,
                rel,
                uuid,
                "permissions"@,
                um.perms[t].name,
            );
            lemma_member_key_strip(uuid, "permissions"@, um.perms[t].name);
        }
        lemma_perms_preserves(s2, uuid, um.perms, k);
        assert forall|t: int|
            0 <= t < um.punishments.len() implies k != spec_member_key(
            uuid,
            "punishments"@,
            dec_chars((#[trigger] um.punishments[t]).id as int),
        ) by {
            lemma_rel_prefix_vs_member_key(
                uuid,
                rel,
                uuid,
                "punishments"@,
                dec_chars(um.punishments[t].id as int),
            );
            lemma_member_key_strip(
                uuid,
                "punishments"@,
                dec_chars(um.punishments[t].id as int),
            );
        }
        lemma_links_preserves(s3, uuid, um.punishments, k);
        assert(rec.contains_key(k) && rec[k] == seq![1u8]);
        assert(m2.contains_key(k) && m2[k] == seq![1u8]);
    }
    // Completeness: every set key under the prefix is a member.
    assert forall|k: Seq<char>|
        #[trigger] m2.contains_key(k) && p.is_prefix_of(k) && bool_of_val(m2[k]) implies exists|
            i: int,
        | 0 <= i < members.len() && #[trigger] members[i] == k.skip(p.len() as int) by {
        assert(user_owned_keys(uuid).contains(k));
        assert(rec.contains_key(k));
        if scalars.contains_key(k) {
            lemma_scalar_key_not_prefixed(um, rel, k);
        }
        lemma_rec_member_source(v, um, rel, members, scalars, s1, s2, s3, k);
        let i = choose|i: int|
            0 <= i < members.len() && k == spec_member_key(uuid, rel, #[trigger] members[i]);
        lemma_member_key_strip(uuid, rel, members[i]);
    }
}

/// The user's own permission set, as it lands in the result.
#[verifier::rlimit(100)]
proof fn lemma_put_perms_read(
    v: StoreView,
    um: UserModel,
    scalars: KvMap,
    s1: KvMap,
    s2: KvMap,
    s3: KvMap,
)
    requires
        um_storable(um),
        scalars == user_scalar_map(um),
        s1 == insert_flag_members(scalars, um.uuid, "friends"@, um.friends),
        s2 == insert_flag_members(s1, um.uuid, "ignores"@, um.ignores),
        s3 == insert_perms(s2, um.uuid, um.perms),
    ensures
        perm_members_read(spec_put_user(v.users, um), um.uuid, um.perms),
{
    lemma_schema_words();
    let uuid = um.uuid;
    let m2 = spec_put_user(v.users, um);
    let rec = user_record_map(um);
    assert(rec == insert_links(s3, uuid, um.punishments));
    let p = spec_rel_prefix(uuid, "permissions"@);
    assert forall|i: int|
        0 <= i < um.punishments.len() implies colon_free(
        dec_chars((#[trigger] um.punishments[i]).id as int),
    ) by {
        lemma_dec_colon_free(um.punishments[i].id as int);
    }
    assert forall|i: int| 0 <= i < um.perms.len() implies {
        &&& m2.contains_key(p + (#[trigger] um.perms[i]).name)
        &&& um.perms[i].value == bool_of_val(m2[p + um.perms[i].name])
    } by {
        let k = spec_member_key(uuid, "permissions"@, um.perms[i].name);
        lemma_member_key_strip(uuid, "permissions"@, um.perms[i].name);
        assert(p + um.perms[i].name =~= k);
        lemma_perms_member(s2, uuid, um.perms, i);
        assert forall|t: int|
            0 <= t < um.punishments.len() implies k != spec_member_key(
            uuid,
            "punishments"@,
            dec_chars((#[trigger] um.punishments[t]).id as int),
        ) by {
            lemma_rel_prefix_vs_member_key(
                uuid,
                "permissions"@,
                uuid,
                "punishments"@,
                dec_chars(um.punishments[t].id as int),
            );
        }
        lemma_links_preserves(s3, uuid, um.punishments, k);
        assert(rec.contains_key(k) && rec[k] == seq![bool_byte(um.perms[i].value)]);
        assert(bool_of_val(seq![bool_byte(um.perms[i].value)]) == um.perms[i].value);
    }
    assert forall|k: Seq<char>|
        #[trigger] m2.contains_key(k) && p.is_prefix_of(k) implies exists|i: int|
        0 <= i < um.perms.len() && (#[trigger] um.perms[i]).name == k.skip(p.len() as int) by {
        assert(user_owned_keys(uuid).contains(k));
        assert(rec.contains_key(k));
        if scalars.contains_key(k) {
            lemma_scalar_key_not_prefixed(um, "permissions"@, k);
        }
        if s2.contains_key(k) {
            if s1.contains_key(k) {
                lemma_ifm_new_keys(scalars, uuid, "friends"@, um.friends, k);
                let i = choose|i: int|
                    0 <= i < um.friends.len() && k == spec_member_key(
                        uuid,
                        "friends"@,
                        #[trigger] um.friends[i],
                    );
                lemma_rel_prefix_vs_member_key(
                    uuid,
                    "permissions"@,
                    uuid,
                    "friends"@,
                    um.friends[i],
                );
                assert(false);
            } else {
                lemma_ifm_new_keys(s1, uuid, "ignores"@, um.ignores, k);
                let i = choose|i: int|
                    0 <= i < um.ignores.len() && k == spec_member_key(
                        uuid,
                        "ignores"@,
                        #[trigger] um.ignores[i],
                    );
                lemma_rel_prefix_vs_member_key(
                    uuid,
                    "permissions"@,
                    uuid,
                    "ignores"@,
                    um.ignores[i],
                );
                assert(false);
            }
        } else if s3.contains_key(k) {
            lemma_perms_new_keys(s2, uuid, um.perms, k);
            let i = choose|i: int|
                0 <= i < um.perms.len() && k == spec_member_key(
                    uuid,
                    "permissions"@,
                    (#[trigger] um.perms[i]).name,
                );
            lemma_member_key_strip(uuid, "permissions"@, um.perms[i].name);
        } else {
            lemma_links_new_keys(s3, uuid, um.punishments, k);
            let i = choose|i: int|
                0 <= i < um.punishments.len() && k == spec_member_key(
                    uuid,
                    "punishments"@,
                    dec_chars((#[trigger] um.punishments[i]).id as int),
                );
            lemma_rel_prefix_vs_member_key(
                uuid,
                "permissions"@,
                uuid,
                "punishments"@,
                dec_chars(um.punishments[i].id as int),
            );
            assert(false);
        }
    }
}

/// The punishment links, as they land in the result, against the records
/// keyspace.
#[verifier::rlimit(100)]
proof fn lemma_put_links_read(
    v: StoreView,
    um: UserModel,
    scalars: KvMap,
    s1: KvMap,
    s2: KvMap,
    s3: KvMap,
)
    requires
        um_storable(um),
        records_present(v.punishments, um.punishments),
        scalars == user_scalar_map(um),
        s1 == insert_flag_members(scalars, um.uuid, "friends"@, um.friends),
        s2 == insert_flag_members(s1, um.uuid, "ignores"@, um.ignores),
        s3 == insert_perms(s2, um.uuid, um.perms),
    ensures
        pun_links_read(spec_put_user(v.users, um), v.punishments, um.uuid, um.punishments),
{
    lemma_schema_words();
    let uuid = um.uuid;
    let m2 = spec_put_user(v.users, um);
    let rec = user_record_map(um);
    assert(rec == insert_links(s3, uuid, um.punishments));
    let p = spec_rel_prefix(uuid, "punishments"@);
    assert forall|i: int|
        0 <= i < um.punishments.len() implies colon_free(
        dec_chars((#[trigger] um.punishments[i]).id as int),
    ) by {
        lemma_dec_colon_free(um.punishments[i].id as int);
    }
    assert forall|i: int|
        0 <= i < um.punishments.len() implies pun_listed(
        m2,
        v.punishments,
        uuid,
        #[trigger] um.punishments[i],
    ) by {
        let mem = dec_chars(um.punishments[i].id as int);
        let k = spec_member_key(uuid, "punishments"@, mem);
        lemma_member_key_strip(uuid, "punishments"@, mem);
        lemma_links_member(s3, uuid, um.punishments, i);
        assert(rec.contains_key(k));
        assert(m2.contains_key(k));
        lemma_pun_record_roundtrip(um.punishments[i]);
        assert(pun_link_at(m2, v.punishments, uuid, um.punishments[i], k));
    }
    assert forall|k: Seq<char>|
        #[trigger] m2.contains_key(k) && p.is_prefix_of(k) implies link_matched(
        m2,
        v.punishments,
        uuid,
        um.punishments,
        k,
    ) by {
        assert(user_owned_keys(uuid).contains(k));
        assert(rec.contains_key(k));
        if scalars.contains_key(k) {
            lemma_scalar_key_not_prefixed(um, "punishments"@, k);
        }
        if s2.contains_key(k) {
            if s1.contains_key(k) {
                lemma_ifm_new_keys(scalars, uuid, "friends"@, um.friends, k);
                let i = choose|i: int|
                    0 <= i < um.friends.len() && k == spec_member_key(
                        uuid,
                        "friends"@,
                        #[trigger] um.friends[i],
                    );
                lemma_rel_prefix_vs_member_key(
                    uuid,
                    "punishments"@,
                    uuid,
                    "friends"@,
                    um.friends[i],
                );
                assert(false);
            } else {
                lemma_ifm_new_keys(s1, uuid, "ignores"@, um.ignores, k);
                let i = choose|i: int|
                    0 <= i < um.ignores.len() && k == spec_member_key(
                        uuid,
                        "ignores"@,
                        #[trigger] um.ignores[i],
                    );
                lemma_rel_prefix_vs_member_key(
                    uuid,
                    "punishments"@,
                    uuid,
                    "ignores"@,
                    um.ignores[i],
                );
                assert(false);
            }
        } else if s3.contains_key(k) {
            lemma_perms_new_keys(s2, uuid, um.perms, k);
            let i = choose|i: int|
                0 <= i < um.perms.len() && k == spec_member_key(
                    uuid,
                    "permissions"@,
                    (#[trigger] um.perms[i]).name,
                );
            lemma_rel_prefix_vs_member_key(
                uuid,
                "punishments"@,
                uuid,
                "permissions"@,
                um.perms[i].name,
            );
            assert(false);
        } else {
            lemma_links_new_keys(s3, uuid, um.punishments, k);
            let i = choose|i: int|
                0 <= i < um.punishments.len() && k == spec_member_key(
                    uuid,
                    "punishments"@,
                    dec_chars((#[trigger] um.punishments[i]).id as int),
                );
            lemma_member_key_strip(
                uuid,
                "punishments"@,
                dec_chars(um.punishments[i].id as int),
            );
            lemma_pun_record_roundtrip(um.punishments[i]);
            assert(pun_link_at(m2, v.punishments, uuid, um.punishments[i], k));
        }
    }
}

/// A key the scalar stage holds is never captured by a relation prefix.
proof fn lemma_scalar_key_not_prefixed(um: UserModel, rel: Seq<char>, k: Seq<char>)
    requires
        um_storable(um),
        colon_free(rel),
        user_scalar_map(um).contains_key(k),
    ensures
        !spec_rel_prefix(um.uuid, rel).is_prefix_of(k),
{
    lemma_schema_words();
    let uuid = um.uuid;
    assert(k == spec_field_key(uuid, "name"@) || k == spec_field_key(uuid, "chat"@) || k
        == spec_field_key(uuid, "pms"@) || k == spec_field_key(uuid, "suffix"@) || k
        == spec_field_key(uuid, "lang"@) || k == spec_field_key(uuid, "scoreboard"@) || k
        == spec_field_key(uuid, "coins"@) || k == spec_field_key(uuid, "friend_reqs"@) || k
        == spec_field_key(uuid, "created_at"@) || k == spec_field_key(uuid, "mails"@) || k
        == spec_field_key(uuid, "email"@) || k == spec_field_key(uuid, "group"@));
    lemma_rel_prefix_vs_field_key(uuid, rel, uuid, "name"@);
    lemma_rel_prefix_vs_field_key(uuid, rel, uuid, "chat"@);
    lemma_rel_prefix_vs_field_key(uuid, rel, uuid, "pms"@);
    lemma_rel_prefix_vs_field_key(uuid, rel, uuid, "suffix"@);
    lemma_rel_prefix_vs_field_key(uuid, rel, uuid, "lang"@);
    lemma_rel_prefix_vs_field_key(uuid, rel, uuid, "scoreboard"@);
    lemma_rel_prefix_vs_field_key(uuid, rel, uuid, "coins"@);
    lemma_rel_prefix_vs_field_key(uuid, rel, uuid, "friend_reqs"@);
    lemma_rel_prefix_vs_field_key(uuid, rel, uuid, "created_at"@);
    lemma_rel_prefix_vs_field_key(uuid, rel, uuid, "mails"@);
    lemma_rel_prefix_vs_field_key(uuid, rel, uuid, "email"@);
    lemma_rel_prefix_vs_field_key(uuid, rel, uuid, "group"@);
}

/// A record key under one flagged relation's prefix names one of that
/// relation's members.
proof fn lemma_rec_member_source(
    v: StoreView,
    um: UserModel,
    rel: Seq<char>,
    members: Seq<Seq<char>>,
    scalars: KvMap,
    s1: KvMap,
    s2: KvMap,
    s3: KvMap,
    k: Seq<char>,
)
    requires
        um_storable(um),
        rel == "friends"@ || rel == "ignores"@,
        members == (if rel == "friends"@ {
            um.friends
        } else {
            um.ignores
        }),
        scalars == user_scalar_map(um),
        s1 == insert_flag_members(scalars, um.uuid, "friends"@, um.friends),
        s2 == insert_flag_members(s1, um.uuid, "ignores"@, um.ignores),
        s3 == insert_perms(s2, um.uuid, um.perms),
        user_record_map(um).contains_key(k),
        !scalars.contains_key(k),
        spec_rel_prefix(um.uuid, rel).is_prefix_of(k),
    ensures
        exists|i: int|
            0 <= i < members.len() && k == spec_member_key(um.uuid, rel, #[trigger] members[i]),
{
    lemma_schema_words();
    let uuid = um.uuid;
    let rec = user_record_map(um);
    assert(rec == insert_links(s3, uuid, um.punishments));
    assert forall|i: int|
        0 <= i < um.punishments.len() implies colon_free(
        dec_chars((#[trigger] um.punishments[i]).id as int),
    ) by {
        lemma_dec_colon_free(um.punishments[i].id as int);
    }
    if s3.contains_key(k) {
        if s2.contains_key(k) {
            if s1.contains_key(k) {
                if rel == "friends"@ {
                    lemma_ifm_new_keys(scalars, uuid, "friends"@, um.friends, k);
                } else {
                    lemma_ifm_new_keys(scalars, uuid, "friends"@, um.friends, k);
                    let i = choose|i: int|
                        0 <= i < um.friends.len() && k == spec_member_key(
                            uuid,
                            "friends"@,
                            #[trigger] um.friends[i],
                        );
                    lemma_rel_prefix_vs_member_key(
                        uuid,
                        rel,
                        uuid,
                        "friends"@,
                        um.friends[i],
                    );
                    assert(false);
                }
            } else {
                lemma_ifm_new_keys(s1, uuid, "ignores"@, um.ignores, k);
                let i = choose|i: int|
                    0 <= i < um.ignores.len() && k == spec_member_key(
                        uuid,
                        "ignores"@,
                        #[trigger] um.ignores[i],
                    );
                if rel == "friends"@ {
                    lemma_rel_prefix_vs_member_key(
                        uuid,
                        rel,
                        uuid,
                        "ignores"@,
                        um.ignores[i],
                    );
                    assert(false);
                }
            }
        } else {
            lemma_perms_new_keys(s2, uuid, um.perms, k);
            let i = choose|i: int|
                0 <= i < um.perms.len() && k == spec_member_key(
                    uuid,
                    "permissions"@,
                    (#[trigger] um.perms[i]).name,
                );
            lemma_rel_prefix_vs_member_key(uuid, rel, uuid, "permissions"@, um.perms[i].name);
            assert(false);
        }
    } else {
        lemma_links_new_keys(s3, uuid, um.punishments, k);
        let i = choose|i: int|
            0 <= i < um.punishments.len() && k == spec_member_key(
                uuid,
                "punishments"@,
                dec_chars((#[trigger] um.punishments[i]).id as int),
            );
        lemma_rel_prefix_vs_member_key(
            uuid,
            rel,
            uuid,
            "punishments"@,
            dec_chars(um.punishments[i].id as int),
        );
        assert(false);
    }
}


// ---------------------------------------------------------------------------
// Identifiers, propagation, agreement, resolution
// ---------------------------------------------------------------------------

/// Punishment ids grow strictly: each creation returns an id at or above
/// the store's floor and leaves the floor just past it, and no operation
/// lowers the floor, so a later creation can never repeat an earlier id.
pub proof fn lemma_punishment_ids_increase(
    floor0: int,
    id1: u64,
    floor1: int,
    floor_mid: int,
    id2: u64,
)
    requires
        id1 as int >= floor0,
        floor1 == id1 as int + 1,
        floor_mid >= floor1,
        id2 as int >= floor_mid,
    ensures
        id2 > id1,
{
}

/// A punishment bucketed under a subnet reaches every merged read for
/// that subnet: if the bucket entry written for `id` is in the keyspace,
/// the merged punishment list of any connection whose address shares the
/// subnet carries `id`.
pub proof fn lemma_bucket_propagates(
    buckets: KvMap,
    ip: Seq<char>,
    id: u64,
    plist: Seq<PunModel>,
)
    requires
        buckets.contains_key(spec_field_key(subnet_chars(ip), dec_chars(id as int))),
        buckets[spec_field_key(subnet_chars(ip), dec_chars(id as int))] == u64_be_bytes(id),
        forall|k: Seq<char>|
            #[trigger] buckets.contains_key(k) && (subnet_chars(ip) + seq![':']).is_prefix_of(k)
                ==> carries_id(plist, u64_be_value(buckets[k])),
    ensures
        carries_id(plist, id),
{
    let k = spec_field_key(subnet_chars(ip), dec_chars(id as int));
    assert((subnet_chars(ip) + seq![':']).is_prefix_of(k));
    lemma_u64_roundtrip(id);
}

/// Two full reads of one user from one store state agree: the scalars and
/// the inbox are equal outright, and each collection holds the same
/// members — the store fixes the sets, not the order the scan hands them
/// out in.
pub proof fn lemma_user_reads_agree(v: StoreView, uuid: Seq<char>, a: UserModel, b: UserModel)
    requires
        is_user_read(v, uuid, a),
        is_user_read(v, uuid, b),
    ensures
        a.uuid == b.uuid,
        a.name == b.name,
        a.email == b.email,
        a.chat == b.chat,
        a.pms == b.pms,
        a.suffix == b.suffix,
        a.lang == b.lang,
        a.scoreboard == b.scoreboard,
        a.coins == b.coins,
        a.friend_reqs == b.friend_reqs,
        a.created_at == b.created_at,
        a.inbox == b.inbox,
        forall|x: Seq<char>| a.friends.contains(x) <==> b.friends.contains(x),
        forall|x: Seq<char>| a.ignores.contains(x) <==> b.ignores.contains(x),
        forall|pm: PunModel| carries_record(a.punishments, pm) <==> carries_record(
            b.punishments,
            pm,
        ),
{
    let m = v.users;
    assert forall|x: Seq<char>| a.friends.contains(x) implies b.friends.contains(x) by {
        lemma_members_agree_one(m, uuid, "friends"@, a.friends, b.friends, x);
    }
    assert forall|x: Seq<char>| b.friends.contains(x) implies a.friends.contains(x) by {
        lemma_members_agree_one(m, uuid, "friends"@, b.friends, a.friends, x);
    }
    assert forall|x: Seq<char>| a.ignores.contains(x) implies b.ignores.contains(x) by {
        lemma_members_agree_one(m, uuid, "ignores"@, a.ignores, b.ignores, x);
    }
    assert forall|x: Seq<char>| b.ignores.contains(x) implies a.ignores.contains(x) by {
        lemma_members_agree_one(m, uuid, "ignores"@, b.ignores, a.ignores, x);
    }
    assert forall|pm: PunModel| carries_record(a.punishments, pm) implies carries_record(
        b.punishments,
        pm,
    ) by {
        lemma_links_agree_one(m, v.punishments, uuid, a.punishments, b.punishments, pm);
    }
    assert forall|pm: PunModel| carries_record(b.punishments, pm) implies carries_record(
        a.punishments,
        pm,
    ) by {
        lemma_links_agree_one(m, v.punishments, uuid, b.punishments, a.punishments, pm);
    }
}

/// Some position of the list holds exactly this record.
pub open spec fn carries_record(plist: Seq<PunModel>, pm: PunModel) -> bool {
    exists|i: int| 0 <= i < plist.len() && #[trigger] plist[i] == pm
}

proof fn lemma_members_agree_one(
    m: KvMap,
    uuid: Seq<char>,
    rel: Seq<char>,
    xs: Seq<Seq<char>>,
    ys: Seq<Seq<char>>,
    x: Seq<char>,
)
    requires
        flag_members_read(m, uuid, rel, xs),
        flag_members_read(m, uuid, rel, ys),
        xs.contains(x),
    ensures
        ys.contains(x),
{
    let i = choose|i: int| 0 <= i < xs.len() && xs[i] == x;
    let p = spec_rel_prefix(uuid, rel);
    let k = p + x;
    assert(m.contains_key(k) && bool_of_val(m[k]));
    lemma_member_key_strip(uuid, rel, x);
    assert(p.is_prefix_of(k));
    let j = choose|j: int| 0 <= j < ys.len() && #[trigger] ys[j] == k.skip(p.len() as int);
    assert(k.skip(p.len() as int) =~= x);
    assert(ys[j] == x);
}

proof fn lemma_links_agree_one(
    m: KvMap,
    puns: KvMap,
    uuid: Seq<char>,
    xs: Seq<PunModel>,
    ys: Seq<PunModel>,
    pm: PunModel,
)
    requires
        pun_links_read(m, puns, uuid, xs),
        pun_links_read(m, puns, uuid, ys),
        carries_record(xs, pm),
    ensures
        carries_record(ys, pm),
{
    let i = choose|i: int| 0 <= i < xs.len() && #[trigger] xs[i] == pm;
    assert(pun_listed(m, puns, uuid, xs[i]));
    let k = choose|k: Seq<char>| pun_link_at(m, puns, uuid, pm, k);
    assert(m.contains_key(k) && spec_rel_prefix(uuid, "punishments"@).is_prefix_of(k));
    assert(link_matched(m, puns, uuid, ys, k));
    let j = choose|j: int|
        0 <= j < ys.len() && pun_link_at(m, puns, uuid, #[trigger] ys[j], k);
    let p = spec_rel_prefix(uuid, "punishments"@);
    assert(spec_decode_pun(puns[k.skip(p.len() as int)]) == Some(ys[j]));
    assert(spec_decode_pun(puns[k.skip(p.len() as int)]) == Some(pm));
}

/// Group resolution falls back: a user with no explicit reference
/// resolves to whatever the default pointer holds at read time, so
/// setting a default later changes the resolution without the user
/// record being rewritten.
pub proof fn lemma_default_group_resolution(v: StoreView, uuid: Seq<char>, name_bytes: Seq<u8>)
    requires
        val_at(v.users, spec_field_key(uuid, "group"@)) is None,
    ensures
        val_at(v.groups, "default_group"@) is None ==> resolved_group_name(v, uuid) is None,
        resolved_group_name(
            StoreView { groups: v.groups.insert("default_group"@, name_bytes), ..v },
            uuid,
        ) == Some(decode_utf8(name_bytes)),
{
}

} // verus!

