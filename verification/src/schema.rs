//! The key-naming convention: a scalar field of an entity lives under
//! `"{id}:{field}"`, a member of a repeated relation under
//! `"{id}:{relation}:{member}"`, so a prefix scan over `"{id}:{relation}:"`
//! enumerates the collection. Ids, field and relation names and members
//! carry no `':'`, which makes the mapping injective; the lemmas here state
//! that and are what the repository proofs lean on.

use vstd::prelude::*;

verus! {

use vstd::string::StringExecFns;

/// Text that carries no key separator.
pub open spec fn colon_free(s: Seq<char>) -> bool {
    forall|i: int| 0 <= i < s.len() ==> s[i] != ':'
}

/// The key of one scalar field.
pub open spec fn spec_field_key(id: Seq<char>, field: Seq<char>) -> Seq<char> {
    id + seq![':'] + field
}

/// The key of one member of a repeated relation.
pub open spec fn spec_member_key(id: Seq<char>, rel: Seq<char>, member: Seq<char>) -> Seq<char> {
    id + seq![':'] + rel + seq![':'] + member
}

/// The prefix whose scan enumerates a repeated relation.
pub open spec fn spec_rel_prefix(id: Seq<char>, rel: Seq<char>) -> Seq<char> {
    id + seq![':'] + rel + seq![':']
}

pub fn field_key(id: &str, field: &str) -> (k: String)
    ensures
        k@ == spec_field_key(id@, field@),
{
    let mut k = id.to_owned();
    k.append(":");
    k.append(field);
    proof {
        reveal_strlit(":");
        assert(":"@ =~= seq![':']);
        assert(k@ =~= spec_field_key(id@, field@));
    }
    k
}

pub fn member_key(id: &str, rel: &str, member: &str) -> (k: String)
    ensures
        k@ == spec_member_key(id@, rel@, member@),
{
    let mut k = id.to_owned();
    k.append(":");
    k.append(rel);
    k.append(":");
    k.append(member);
    proof {
        reveal_strlit(":");
        assert(":"@ =~= seq![':']);
        assert(k@ =~= spec_member_key(id@, rel@, member@));
    }
    k
}

pub fn rel_prefix(id: &str, rel: &str) -> (k: String)
    ensures
        k@ == spec_rel_prefix(id@, rel@),
{
    let mut k = id.to_owned();
    k.append(":");
    k.append(rel);
    k.append(":");
    proof {
        reveal_strlit(":");
        assert(":"@ =~= seq![':']);
        assert(k@ =~= spec_rel_prefix(id@, rel@));
    }
    k
}

/// A field key has exactly one separator, at the end of the id.
pub proof fn lemma_field_key_colons(id: Seq<char>, field: Seq<char>)
    requires
        colon_free(id),
        colon_free(field),
    ensures
        forall|i: int|
            0 <= i < spec_field_key(id, field).len() ==> ((#[trigger] spec_field_key(id, field)[i]
                == ':') <==> i == id.len()),
{
    let k = spec_field_key(id, field);
    assert forall|i: int| 0 <= i < k.len() implies ((#[trigger] k[i] == ':') <==> i == id.len()) by {
        if i < id.len() {
            assert(k[i] == id[i]);
        } else if i == id.len() {
            assert(k[i] == ':');
        } else {
            assert(k[i] == field[i - id.len() - 1]);
        }
    }
}

/// A member key has exactly two separators: after the id and after the
/// relation name.
pub proof fn lemma_member_key_colons(id: Seq<char>, rel: Seq<char>, member: Seq<char>)
    requires
        colon_free(id),
        colon_free(rel),
        colon_free(member),
    ensures
        forall|i: int|
            0 <= i < spec_member_key(id, rel, member).len() ==> ((#[trigger] spec_member_key(
                id,
                rel,
                member,
            )[i] == ':') <==> (i == id.len() || i == id.len() as int + 1 + rel.len())),
{
    let k = spec_member_key(id, rel, member);
    assert forall|i: int|
        0 <= i < k.len() implies ((#[trigger] k[i] == ':') <==> (i == id.len() || i == id.len() + 1
        + rel.len())) by {
        if i < id.len() {
            assert(k[i] == id[i]);
        } else if i == id.len() {
            assert(k[i] == ':');
        } else if i < id.len() as int + 1 + rel.len() {
            assert(k[i] == rel[i - id.len() - 1]);
        } else if i == id.len() as int + 1 + rel.len() {
            assert(k[i] == ':');
        } else {
            assert(k[i] == member[i - id.len() - 1 - rel.len() - 1]);
        }
    }
}

/// Two equal field keys name one field of one entity.
pub proof fn lemma_field_key_injective(a: Seq<char>, f: Seq<char>, b: Seq<char>, g: Seq<char>)
    requires
        colon_free(a),
        colon_free(f),
        colon_free(b),
        colon_free(g),
        spec_field_key(a, f) == spec_field_key(b, g),
    ensures
        a == b,
        f == g,
{
    let k = spec_field_key(a, f);
    lemma_field_key_colons(a, f);
    lemma_field_key_colons(b, g);
    assert(k[a.len() as int] == ':');
    assert(spec_field_key(b, g)[b.len() as int] == ':');
    if a.len() < b.len() {
        assert(k[a.len() as int] != ':');
        assert(false);
    } else if b.len() < a.len() {
        assert(k[b.len() as int] != ':');
        assert(false);
    }
    assert(a =~= k.subrange(0, a.len() as int));
    assert(b =~= k.subrange(0, b.len() as int));
    assert(f =~= k.subrange(a.len() as int + 1, k.len() as int));
    assert(g =~= k.subrange(b.len() as int + 1, k.len() as int));
}

/// A relation prefix never reaches into a scalar field key.
pub proof fn lemma_rel_prefix_vs_field_key(
    a: Seq<char>,
    rel: Seq<char>,
    b: Seq<char>,
    f: Seq<char>,
)
    requires
        colon_free(a),
        colon_free(rel),
        colon_free(b),
        colon_free(f),
    ensures
        !spec_rel_prefix(a, rel).is_prefix_of(spec_field_key(b, f)),
{
    let p = spec_rel_prefix(a, rel);
    let k = spec_field_key(b, f);
    lemma_field_key_colons(b, f);
    if p.is_prefix_of(k) {
        assert(p.len() <= k.len());
        assert(k[a.len() as int] == p[a.len() as int]);
        assert(p[a.len() as int] == ':');
        assert(k[a.len() as int + 1 + rel.len()] == p[a.len() as int + 1 + rel.len()]);
        assert(p[a.len() as int + 1 + rel.len()] == ':');
        assert(a.len() == b.len());
        assert(a.len() as int + 1 + rel.len() == b.len());
        assert(false);
    }
}

/// A relation prefix captures exactly the member keys of its own entity
/// and relation.
pub proof fn lemma_rel_prefix_vs_member_key(
    a: Seq<char>,
    r1: Seq<char>,
    b: Seq<char>,
    r2: Seq<char>,
    m: Seq<char>,
)
    requires
        colon_free(a),
        colon_free(r1),
        colon_free(b),
        colon_free(r2),
        colon_free(m),
    ensures
        spec_rel_prefix(a, r1).is_prefix_of(spec_member_key(b, r2, m)) <==> (a == b && r1 == r2),
{
    let p = spec_rel_prefix(a, r1);
    let k = spec_member_key(b, r2, m);
    lemma_member_key_colons(b, r2, m);
    if p.is_prefix_of(k) {
        assert(k[a.len() as int] == p[a.len() as int]);
        assert(p[a.len() as int] == ':');
        assert(a.len() == b.len() || a.len() == b.len() as int + 1 + r2.len());
        assert(k[a.len() as int + 1 + r1.len()] == p[a.len() as int + 1 + r1.len()]);
        assert(p[a.len() as int + 1 + r1.len()] == ':');
        if a.len() == b.len() as int + 1 + r2.len() {
            assert(a.len() as int + 1 + r1.len() > b.len() as int + 1 + r2.len());
            assert(a.len() as int + 1 + r1.len() < k.len());
            assert(false);
        }
        assert(a.len() == b.len());
        assert(a.len() as int + 1 + r1.len() == b.len() as int + 1 + r2.len());
        assert(a =~= k.subrange(0, a.len() as int));
        assert(b =~= k.subrange(0, b.len() as int));
        assert(r1 =~= p.subrange(a.len() as int + 1, a.len() as int + 1 + r1.len()));
        assert(r2 =~= k.subrange(b.len() as int + 1, b.len() as int + 1 + r2.len()));
        assert forall|i: int| 0 <= i < r1.len() implies r1[i] == r2[i] by {
            assert(p[a.len() as int + 1 + i] == k[a.len() as int + 1 + i]);
        }
        assert(r1 =~= r2);
    }
    if a == b && r1 == r2 {
        assert forall|i: int| 0 <= i < p.len() implies p[i] == k[i] by {}
        assert(p.is_prefix_of(k));
    }
}

/// The member a relation prefix leaves when stripped off its own member
/// key.
pub proof fn lemma_member_key_strip(id: Seq<char>, rel: Seq<char>, member: Seq<char>)
    ensures
        spec_member_key(id, rel, member).skip(spec_rel_prefix(id, rel).len() as int) == member,
        spec_rel_prefix(id, rel).is_prefix_of(spec_member_key(id, rel, member)),
{
    assert(spec_member_key(id, rel, member).skip(spec_rel_prefix(id, rel).len() as int)
        =~= member);
    assert(spec_rel_prefix(id, rel).is_prefix_of(spec_member_key(id, rel, member)));
}

/// A key under a relation prefix is the member key of what it ends in.
pub proof fn lemma_prefixed_key_is_member_key(id: Seq<char>, rel: Seq<char>, k: Seq<char>)
    requires
        spec_rel_prefix(id, rel).is_prefix_of(k),
    ensures
        k == spec_member_key(id, rel, k.skip(spec_rel_prefix(id, rel).len() as int)),
{
    assert(k =~= spec_member_key(id, rel, k.skip(spec_rel_prefix(id, rel).len() as int)));
}

/// A relation prefix never reaches a key without separators.
pub proof fn lemma_rel_prefix_vs_plain_key(a: Seq<char>, rel: Seq<char>, k: Seq<char>)
    requires
        colon_free(k),
    ensures
        !spec_rel_prefix(a, rel).is_prefix_of(k),
{
    let p = spec_rel_prefix(a, rel);
    if p.is_prefix_of(k) {
        assert(k[a.len() as int] == p[a.len() as int]);
        assert(p[a.len() as int] == ':');
        assert(false);
    }
}

/// A field key is never a key without separators.
pub proof fn lemma_field_key_vs_plain_key(a: Seq<char>, f: Seq<char>, k: Seq<char>)
    requires
        colon_free(k),
    ensures
        spec_field_key(a, f) != k,
{
    if spec_field_key(a, f) == k {
        assert(k[a.len() as int] == ':');
        assert(false);
    }
}

/// A field key never equals a member key when all parts are separator
/// free.
pub proof fn lemma_field_key_vs_member_key(
    a: Seq<char>,
    f: Seq<char>,
    b: Seq<char>,
    rel: Seq<char>,
    m: Seq<char>,
)
    requires
        colon_free(a),
        colon_free(f),
        colon_free(b),
        colon_free(rel),
        colon_free(m),
    ensures
        spec_field_key(a, f) != spec_member_key(b, rel, m),
{
    let k1 = spec_field_key(a, f);
    let k2 = spec_member_key(b, rel, m);
    lemma_field_key_colons(a, f);
    lemma_member_key_colons(b, rel, m);
    if k1 == k2 {
        assert(k1[b.len() as int] == ':');
        assert(k1[b.len() as int + 1 + rel.len()] == ':');
        assert(b.len() == a.len() && b.len() as int + 1 + rel.len() == a.len());
        assert(false);
    }
}


/// Cancelling the shared front: two member keys of one entity and
/// relation carry equal members.
pub(crate) proof fn lemma_mk_cancel(uuid: Seq<char>, rel: Seq<char>, a: Seq<char>, b: Seq<char>)
    requires
        spec_member_key(uuid, rel, a) == spec_member_key(uuid, rel, b),
    ensures
        a == b,
{
    let base = spec_rel_prefix(uuid, rel).len() as int;
    assert(a =~= spec_member_key(uuid, rel, a).skip(base));
    assert(b =~= spec_member_key(uuid, rel, b).skip(base));
}

/// Cancelling the shared front: two field keys of one entity carry equal
/// field names.
pub(crate) proof fn lemma_fk_cancel(uuid: Seq<char>, a: Seq<char>, b: Seq<char>)
    requires
        spec_field_key(uuid, a) == spec_field_key(uuid, b),
    ensures
        a == b,
{
    let base = uuid.len() as int + 1;
    assert(a =~= spec_field_key(uuid, a).skip(base));
    assert(b =~= spec_field_key(uuid, b).skip(base));
}

/// A relation prefix of an entity never reaches one of its own scalar
/// field keys, whatever the entity id holds: the prefix's final separator
/// would have to sit inside the separator-free field name.
pub(crate) proof fn lemma_same_id_rel_prefix_vs_field(
    id: Seq<char>,
    rel: Seq<char>,
    f: Seq<char>,
)
    requires
        colon_free(f),
    ensures
        !spec_rel_prefix(id, rel).is_prefix_of(spec_field_key(id, f)),
{
    let p = spec_rel_prefix(id, rel);
    let k = spec_field_key(id, f);
    if p.is_prefix_of(k) {
        let i = p.len() - 1;
        assert(p[i as int] == ':');
        assert(k[i as int] == p[i as int]);
        assert(i as int == id.len() as int + 1 + rel.len());
        assert(rel.len() < f.len());
        assert(k[i as int] == f[rel.len() as int]);
        assert(false);
    }
}

/// The separator-free spellings of the schema's own words.
pub(crate) proof fn lemma_schema_words()
    ensures
        colon_free("name"@),
        colon_free("email"@),
        colon_free("chat"@),
        colon_free("pms"@),
        colon_free("suffix"@),
        colon_free("lang"@),
        colon_free("scoreboard"@),
        colon_free("coins"@),
        colon_free("friend_reqs"@),
        colon_free("created_at"@),
        colon_free("mails"@),
        colon_free("group"@),
        colon_free("friends"@),
        colon_free("ignores"@),
        colon_free("permissions"@),
        colon_free("punishments"@),
        colon_free("ip"@),
        "ip"@.len() == 2,
        "name"@ != "chat"@ && "name"@ != "lang"@ && "chat"@ != "lang"@,
        "scoreboard"@ != "created_at"@,
        "coins"@ != "mails"@ && "coins"@ != "email"@ && "coins"@ != "group"@,
        "mails"@ != "email"@ && "mails"@ != "group"@ && "email"@ != "group"@,
        "friends"@ != "ignores"@,
        "permissions"@ != "punishments"@,
        "permissions"@ != "friend_reqs"@,
        "name"@.len() == 4 && "email"@.len() == 5 && "chat"@.len() == 4 && "pms"@.len() == 3,
        "suffix"@.len() == 6 && "lang"@.len() == 4 && "scoreboard"@.len() == 10,
        "coins"@.len() == 5 && "friend_reqs"@.len() == 11 && "created_at"@.len() == 10,
        "mails"@.len() == 5 && "group"@.len() == 5,
        "friends"@.len() == 7 && "ignores"@.len() == 7 && "permissions"@.len() == 11,
        "punishments"@.len() == 11,
{
    reveal_strlit("name");
    reveal_strlit("email");
    reveal_strlit("chat");
    reveal_strlit("pms");
    reveal_strlit("suffix");
    reveal_strlit("lang");
    reveal_strlit("scoreboard");
    reveal_strlit("coins");
    reveal_strlit("friend_reqs");
    reveal_strlit("created_at");
    reveal_strlit("mails");
    reveal_strlit("group");
    reveal_strlit("friends");
    reveal_strlit("ignores");
    reveal_strlit("permissions");
    reveal_strlit("punishments");
    reveal_strlit("ip");
    assert(("name"@)[0] != ("chat"@)[0]);
    assert(("name"@)[0] != ("lang"@)[0]);
    assert(("chat"@)[0] != ("lang"@)[0]);
    assert(("scoreboard"@)[0] != ("created_at"@)[0]);
    assert(("coins"@)[0] != ("mails"@)[0]);
    assert(("coins"@)[0] != ("email"@)[0]);
    assert(("coins"@)[0] != ("group"@)[0]);
    assert(("mails"@)[0] != ("email"@)[0]);
    assert(("mails"@)[0] != ("group"@)[0]);
    assert(("email"@)[0] != ("group"@)[0]);
    assert(("friends"@)[0] != ("ignores"@)[0]);
    assert(("permissions"@)[1] != ("punishments"@)[1]);
    assert(("permissions"@)[0] != ("friend_reqs"@)[0]);
    assert forall|i: int| 0 <= i < ("name"@).len() implies ("name"@)[i] != ':' by {}
    assert forall|i: int| 0 <= i < ("email"@).len() implies ("email"@)[i] != ':' by {}
    assert forall|i: int| 0 <= i < ("chat"@).len() implies ("chat"@)[i] != ':' by {}
    assert forall|i: int| 0 <= i < ("pms"@).len() implies ("pms"@)[i] != ':' by {}
    assert forall|i: int| 0 <= i < ("suffix"@).len() implies ("suffix"@)[i] != ':' by {}
    assert forall|i: int| 0 <= i < ("lang"@).len() implies ("lang"@)[i] != ':' by {}
    assert forall|i: int| 0 <= i < ("scoreboard"@).len() implies ("scoreboard"@)[i] != ':' by {}
    assert forall|i: int| 0 <= i < ("coins"@).len() implies ("coins"@)[i] != ':' by {}
    assert forall|i: int| 0 <= i < ("friend_reqs"@).len() implies ("friend_reqs"@)[i] != ':' by {}
    assert forall|i: int| 0 <= i < ("created_at"@).len() implies ("created_at"@)[i] != ':' by {}
    assert forall|i: int| 0 <= i < ("mails"@).len() implies ("mails"@)[i] != ':' by {}
    assert forall|i: int| 0 <= i < ("group"@).len() implies ("group"@)[i] != ':' by {}
    assert forall|i: int| 0 <= i < ("friends"@).len() implies ("friends"@)[i] != ':' by {}
    assert forall|i: int| 0 <= i < ("ignores"@).len() implies ("ignores"@)[i] != ':' by {}
    assert forall|i: int| 0 <= i < ("permissions"@).len() implies ("permissions"@)[i] != ':' by {}
    assert forall|i: int|
        0 <= i < ("punishments"@).len() implies ("punishments"@)[i] != ':' by {}
    assert forall|i: int| 0 <= i < ("ip"@).len() implies ("ip"@)[i] != ':' by {}
}

} // verus!
