use player_store::codec::Timestamp;
use player_store::domain::{Group, Mail, Permission, PmMode};
use player_store::errors::StorageError;
use player_store::kv::Storage;
use player_store::repo::subnet_of;
use player_store::user::User;

fn ts(year: u16, month: u8, day: u8) -> Timestamp {
    Timestamp { year, month, day, hour: 12, minute: 30, second: 5 }
}

fn fresh() -> Storage {
    Storage::open_temporary().expect("temporary store")
}

#[test]
fn missing_user_reads_as_none() {
    let st = fresh();
    assert!(st.get_user("nobody").unwrap().is_none());
    assert!(st.get_user_by_name("nobody").unwrap().is_none());
}

#[test]
fn put_then_get_round_trips_every_field() {
    let mut st = fresh();
    let user = User {
        uuid: "u-100".to_string(),
        name: "Steve".to_string(),
        email: Some("steve@example.test".to_string()),
        chat: false,
        pms: PmMode::FriendsOnly,
        suffix: "*".to_string(),
        lang: "fr".to_string(),
        scoreboard: false,
        coins: 4200,
        friend_reqs: false,
        created_at: ts(2021, 7, 14),
        friends: vec!["u-200".to_string(), "u-300".to_string()],
        ignores: vec!["u-400".to_string()],
        inbox: vec![
            Mail::Message {
                sender: "u-200".to_string(),
                submission_date: ts(2022, 1, 2),
                message: "hello".to_string(),
                deleted: false,
            },
            Mail::Coins {
                sender: "console".to_string(),
                submission_date: ts(2022, 3, 4),
                message: "welcome bonus".to_string(),
                deleted: false,
                coins: 500,
                claimed: false,
            },
        ],
        punishments: vec![],
        perms: vec![
            Permission { permission: "chat.use".to_string(), value: true },
            Permission { permission: "fly".to_string(), value: false },
        ],
        group: None,
    };
    st.put_user(&user).unwrap();
    let read = st.get_user("u-100").unwrap().expect("user exists");
    assert_eq!(read.uuid, "u-100");
    assert_eq!(read.name, "Steve");
    assert_eq!(read.email.as_deref(), Some("steve@example.test"));
    assert!(!read.chat);
    assert_eq!(read.pms, PmMode::FriendsOnly);
    assert_eq!(read.suffix, "*");
    assert_eq!(read.lang, "fr");
    assert!(!read.scoreboard);
    assert_eq!(read.coins, 4200);
    assert!(!read.friend_reqs);
    assert_eq!(read.created_at, ts(2021, 7, 14));
    let mut friends = read.friends.clone();
    friends.sort();
    assert_eq!(friends, vec!["u-200".to_string(), "u-300".to_string()]);
    assert_eq!(read.ignores, vec!["u-400".to_string()]);
    assert_eq!(read.inbox.len(), 2);
    match &read.inbox[0] {
        Mail::Message { sender, message, deleted, .. } => {
            assert_eq!(sender, "u-200");
            assert_eq!(message, "hello");
            assert!(!deleted);
        },
        _ => panic!("first entry should be a message"),
    }
    match &read.inbox[1] {
        Mail::Coins { coins, claimed, .. } => {
            assert_eq!(*coins, 500);
            assert!(!claimed);
        },
        _ => panic!("second entry should be a coins grant"),
    }
    let mut perm_names: Vec<String> =
        read.perms.iter().map(|p| p.permission.clone()).collect();
    perm_names.sort();
    assert_eq!(perm_names, vec!["chat.use".to_string(), "fly".to_string()]);
    for p in &read.perms {
        if p.permission == "chat.use" {
            assert!(p.value);
        } else {
            assert!(!p.value);
        }
    }
    assert!(read.group.is_none());
}

#[test]
fn rewriting_a_user_drops_stale_members() {
    let mut st = fresh();
    let mut user = User::new_default("u-1", "Ada", ts(2020, 1, 1), None);
    user.friends = vec!["old-friend".to_string()];
    user.email = Some("ada@example.test".to_string());
    st.put_user(&user).unwrap();
    user.friends = vec!["new-friend".to_string()];
    user.email = None;
    st.put_user(&user).unwrap();
    let read = st.get_user("u-1").unwrap().unwrap();
    assert_eq!(read.friends, vec!["new-friend".to_string()]);
    assert!(read.email.is_none());
}

#[test]
fn punishment_ids_strictly_increase() {
    let mut st = fresh();
    st.create_new_player("u-1", "Ada").unwrap();
    let p1 = st
        .create_punishment("u-1", "warn", ts(2023, 1, 1), None, "rude", false, true, true, true, true)
        .unwrap();
    let p2 = st
        .create_punishment("u-1", "mute", ts(2023, 1, 2), None, "spam", false, false, true, true, true)
        .unwrap();
    let p3 = st
        .create_punishment("u-1", "ban", ts(2023, 1, 3), None, "worse", false, false, false, false, false)
        .unwrap();
    assert!(p2.id > p1.id);
    assert!(p3.id > p2.id);
}

#[test]
fn punishment_round_trips_through_links() {
    let mut st = fresh();
    st.create_new_player("u-1", "Ada").unwrap();
    let p = st
        .create_punishment(
            "u-1",
            "ban",
            ts(2023, 5, 6),
            Some(ts(2024, 5, 6)),
            "griefing",
            false,
            false,
            false,
            true,
            true,
        )
        .unwrap();
    let read = st.get_user("u-1").unwrap().unwrap();
    assert_eq!(read.punishments.len(), 1);
    let q = &read.punishments[0];
    assert_eq!(q.id, p.id);
    assert_eq!(q.title, "ban");
    assert_eq!(q.creation_date, ts(2023, 5, 6));
    assert_eq!(q.expiration_date, Some(ts(2024, 5, 6)));
    assert_eq!(q.reason, "griefing");
    assert!(!q.alsoip);
    assert!(!q.allow_chat);
    assert!(!q.allow_ranked);
    assert!(q.allow_unranked);
    assert!(q.allow_join_minigames);
}

#[test]
fn ip_punishment_needs_an_indexed_address() {
    let mut st = fresh();
    st.create_new_player("u-1", "Ada").unwrap();
    let err = st
        .create_punishment("u-1", "ban", ts(2023, 1, 1), None, "vpn", true, true, true, true, true)
        .unwrap_err();
    assert_eq!(err, StorageError::BadRequest);
}

#[test]
fn ip_punishment_reaches_the_subnet() {
    // create u1 with name "Steve" and address 1.2.3.4; punish it with
    // also_ip; a new u2 connecting from 1.2.3.99 sees the punishment.
    let mut st = fresh();
    st.get_user_connected("u1", "Steve", "1.2.3.4").unwrap();
    let p = st
        .create_punishment("u1", "ban", ts(2023, 2, 2), None, "alt hopping", true, false, false, false, false)
        .unwrap();
    let u2 = st.get_user_connected("u2", "Alex", "1.2.3.99").unwrap();
    assert!(u2.punishments.iter().any(|q| q.id == p.id));
    // the merge is read-time only: nothing was written into u2's links
    let u2_plain = st.get_user("u2").unwrap().unwrap();
    assert!(u2_plain.punishments.is_empty());
    // another subnet stays clean
    let u3 = st.get_user_connected("u3", "Kim", "1.2.9.7").unwrap();
    assert!(!u3.punishments.iter().any(|q| q.id == p.id));
}

#[test]
fn name_index_follows_the_last_connection() {
    let mut st = fresh();
    st.get_user_connected("u-7", "Nina", "9.9.9.9").unwrap();
    let by_name = st.get_user_by_name("Nina").unwrap().expect("indexed");
    let direct = st.get_user("u-7").unwrap().expect("exists");
    assert_eq!(by_name.uuid, direct.uuid);
    assert_eq!(by_name.name, direct.name);
    assert_eq!(by_name.coins, direct.coins);
    assert_eq!(by_name.created_at, direct.created_at);
    // last write wins
    st.get_user_connected("u-8", "Nina", "9.9.9.8").unwrap();
    let moved = st.get_user_by_name("Nina").unwrap().expect("indexed");
    assert_eq!(moved.uuid, "u-8");
}

#[test]
fn group_resolution_follows_the_default_pointer() {
    // no explicit group, no default: None; setting a default changes the
    // next read without the user record being rewritten.
    let mut st = fresh();
    st.create_new_player("u-1", "Ada").unwrap();
    assert!(st.get_user("u-1").unwrap().unwrap().group.is_none());
    assert!(st.get_default_group_name().unwrap().is_none());
    let grp = Group {
        name: "mod".to_string(),
        prefix: "[M]".to_string(),
        suffix: "".to_string(),
        perms: vec![Permission { permission: "kick".to_string(), value: true }],
        last_modification: ts(2023, 3, 3),
    };
    st.put_group(&grp).unwrap();
    st.set_default_group("mod").unwrap();
    assert_eq!(st.get_default_group_name().unwrap().as_deref(), Some("mod"));
    let read = st.get_user("u-1").unwrap().unwrap();
    let g = read.group.expect("default resolved");
    assert_eq!(g.name, "mod");
    assert_eq!(g.prefix, "[M]");
}

#[test]
fn explicit_group_keeps_its_permission_set() {
    // default unset; a group with two permissions; a user pointing at it
    // explicitly reads that permission set back unchanged.
    let mut st = fresh();
    assert!(st.get_default_group_name().unwrap().is_none());
    let grp = Group {
        name: "mod".to_string(),
        prefix: "[M]".to_string(),
        suffix: "!".to_string(),
        perms: vec![
            Permission { permission: "kick".to_string(), value: true },
            Permission { permission: "ban".to_string(), value: false },
        ],
        last_modification: ts(2023, 3, 3),
    };
    st.put_group(&grp).unwrap();
    let full = st.get_group_full("mod").unwrap().expect("stored");
    assert_eq!(full.perms.len(), 2);
    let mut user = User::new_default("u-2", "Bea", ts(2022, 2, 2), Some(full));
    user.group = st.get_group_full("mod").unwrap();
    st.put_user(&user).unwrap();
    let read = st.get_user("u-2").unwrap().unwrap();
    let g = read.group.expect("explicit group");
    assert_eq!(g.name, "mod");
    let mut names: Vec<String> = g.perms.iter().map(|p| p.permission.clone()).collect();
    names.sort();
    assert_eq!(names, vec!["ban".to_string(), "kick".to_string()]);
    for p in &g.perms {
        assert_eq!(p.value, p.permission == "kick");
    }
}

#[test]
fn group_rewrite_replaces_permissions() {
    let mut st = fresh();
    let mut grp = Group {
        name: "vip".to_string(),
        prefix: "".to_string(),
        suffix: "".to_string(),
        perms: vec![Permission { permission: "old.perk".to_string(), value: true }],
        last_modification: ts(2023, 1, 1),
    };
    st.put_group(&grp).unwrap();
    grp.perms = vec![Permission { permission: "new.perk".to_string(), value: true }];
    st.put_group(&grp).unwrap();
    let read = st.get_group_full("vip").unwrap().unwrap();
    assert_eq!(read.perms.len(), 1);
    assert_eq!(read.perms[0].permission, "new.perk");
}

#[test]
fn missing_group_reads_as_none() {
    let st = fresh();
    assert!(st.get_group_full("ghost").unwrap().is_none());
}

#[test]
fn subnet_strips_the_last_segment() {
    assert_eq!(subnet_of("1.2.3.4"), "1.2.3");
    assert_eq!(subnet_of("10.0.0.250"), "10.0.0");
    assert_eq!(subnet_of("nodots"), "");
}

#[test]
fn broken_punishment_link_is_corrupt_data() {
    // a link pointing at a record the punishments keyspace does not hold
    // must surface as CorruptData on read, never be silently skipped
    let mut st = fresh();
    let mut user = User::new_default("u-1", "Ada", ts(2020, 1, 1), None);
    user.punishments = vec![player_store::domain::Punishment {
        id: 424242,
        title: "phantom".to_string(),
        creation_date: ts(2020, 1, 1),
        expiration_date: None,
        reason: "never stored".to_string(),
        alsoip: false,
        allow_chat: true,
        allow_ranked: true,
        allow_unranked: true,
        allow_join_minigames: true,
    }];
    st.put_user(&user).unwrap();
    match st.get_user("u-1") {
        Err(e) => assert_eq!(e, StorageError::CorruptData),
        Ok(_) => panic!("a broken link must not read back"),
    }
}

#[test]
fn schema_version_round_trips() {
    let mut st = fresh();
    assert!(st.get_schema_version().unwrap().is_none());
    st.set_schema_version(3).unwrap();
    assert_eq!(st.get_schema_version().unwrap(), Some(3));
}

#[test]
fn created_at_of_a_fresh_account_is_a_real_date() {
    let mut st = fresh();
    let u = st.create_new_player("u-1", "Ada").unwrap();
    assert!(1 <= u.created_at.month && u.created_at.month <= 12);
    assert!(1 <= u.created_at.day && u.created_at.day <= 31);
    assert!(u.created_at.hour <= 23 && u.created_at.minute <= 59 && u.created_at.second <= 59);
}

#[test]
fn fresh_account_takes_the_configured_default_group() {
    let mut st = fresh();
    let grp = Group {
        name: "member".to_string(),
        prefix: "".to_string(),
        suffix: "".to_string(),
        perms: vec![Permission { permission: "play".to_string(), value: true }],
        last_modification: ts(2023, 4, 4),
    };
    st.put_group(&grp).unwrap();
    st.set_default_group("member").unwrap();
    let u = st.create_new_player("u-5", "Eve").unwrap();
    assert_eq!(u.group.expect("default group resolved").name, "member");
    // a default pointing at a group that is gone resolves to nothing
    st.set_default_group("ghost").unwrap();
    let v = st.create_new_player("u-6", "Fay").unwrap();
    assert!(v.group.is_none());
}
