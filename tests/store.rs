use fitness_tracker::record::{from_bytes, to_bytes, Activity, Challenge, Follow, User};
use fitness_tracker::store::{IdGenerator, Store};
use fitness_tracker::stable::{ByteMap, CounterCell};
use ic_stable_structures::memory_manager::{MemoryId, MemoryManager};
use ic_stable_structures::{Cell, DefaultMemoryImpl, StableBTreeMap};

fn open_counter(memory: DefaultMemoryImpl) -> IdGenerator {
    let manager = MemoryManager::init(memory);
    IdGenerator::open(CounterCell { cell: Cell::init(manager.get(MemoryId::new(0)), 0).unwrap() })
}

fn open_map(memory: DefaultMemoryImpl) -> ByteMap {
    let manager = MemoryManager::init(memory);
    ByteMap { map: StableBTreeMap::init(manager.get(MemoryId::new(0))) }
}

fn user(id: u64, name: &str, points: u64) -> User {
    User {
        id,
        name: name.to_string(),
        email: format!("{}@x.com", name),
        points,
        created_at: 7,
    }
}

#[test]
fn next_ids_are_consecutive() {
    let mut ids = open_counter(DefaultMemoryImpl::default());
    assert_eq!(ids.peek(), 0);
    let got: Vec<u64> = (0..5).map(|_| ids.next_id().unwrap()).collect();
    assert_eq!(got, vec![0, 1, 2, 3, 4]);
    assert_eq!(ids.peek(), 5);
}

#[test]
fn ids_resume_after_restart() {
    let memory = DefaultMemoryImpl::default();
    {
        let mut ids = open_counter(memory.clone());
        assert_eq!(ids.next_id(), Some(0));
        assert_eq!(ids.next_id(), Some(1));
        assert_eq!(ids.next_id(), Some(2));
    }
    let mut reopened = open_counter(memory);
    assert_eq!(reopened.peek(), 3);
    assert_eq!(reopened.next_id(), Some(3));
    assert_eq!(reopened.next_id(), Some(4));
}

#[test]
fn user_round_trip() {
    for u in [
        user(0, "", 0),
        user(u64::MAX, &"n".repeat(1000), u64::MAX),
        User { id: 3, name: "Zoë ✓".to_string(), email: String::new(), points: 1, created_at: 0 },
    ] {
        let bytes = to_bytes(&u);
        let back: User = from_bytes(&bytes).unwrap();
        assert_eq!(back.id, u.id);
        assert_eq!(back.name, u.name);
        assert_eq!(back.email, u.email);
        assert_eq!(back.points, u.points);
        assert_eq!(back.created_at, u.created_at);
    }
}

#[test]
fn encoding_is_a_candid_message() {
    let bytes = to_bytes(&user(1, "Alice", 5));
    assert_eq!(&bytes[0..4], b"DIDL");
    assert!(bytes.len() > 4);
}

#[test]
fn activity_round_trip() {
    for a in [
        Activity { id: 0, user_id: 0, activity_type: String::new(), duration: 0, date: 0, created_at: 0 },
        Activity {
            id: 9,
            user_id: u64::MAX,
            activity_type: "r".repeat(900),
            duration: 45,
            date: 20240101,
            created_at: u64::MAX,
        },
    ] {
        let back: Activity = from_bytes(&to_bytes(&a)).unwrap();
        assert_eq!(back.id, a.id);
        assert_eq!(back.user_id, a.user_id);
        assert_eq!(back.activity_type, a.activity_type);
        assert_eq!(back.duration, a.duration);
        assert_eq!(back.date, a.date);
        assert_eq!(back.created_at, a.created_at);
    }
}

#[test]
fn challenge_round_trip() {
    for c in [
        Challenge {
            id: 0,
            creator_id: 0,
            title: String::new(),
            description: String::new(),
            participants: vec![],
            created_at: 0,
        },
        Challenge {
            id: 4,
            creator_id: 1,
            title: "t".repeat(500),
            description: "Run every day".to_string(),
            participants: vec![1, 2, 2, u64::MAX],
            created_at: 99,
        },
    ] {
        let back: Challenge = from_bytes(&to_bytes(&c)).unwrap();
        assert_eq!(back.id, c.id);
        assert_eq!(back.creator_id, c.creator_id);
        assert_eq!(back.title, c.title);
        assert_eq!(back.description, c.description);
        assert_eq!(back.participants, c.participants);
        assert_eq!(back.created_at, c.created_at);
    }
}

#[test]
fn follow_round_trip() {
    for f in [
        Follow { id: 0, follower_id: 0, following_id: 0, created_at: 0 },
        Follow { id: u64::MAX, follower_id: 1, following_id: u64::MAX, created_at: 12 },
    ] {
        let back: Follow = from_bytes(&to_bytes(&f)).unwrap();
        assert_eq!(back.id, f.id);
        assert_eq!(back.follower_id, f.follower_id);
        assert_eq!(back.following_id, f.following_id);
        assert_eq!(back.created_at, f.created_at);
    }
}

#[test]
fn bytes_of_another_kind_do_not_decode() {
    let bytes = to_bytes(&Follow { id: 1, follower_id: 2, following_id: 3, created_at: 4 });
    assert!(from_bytes::<User>(&bytes).is_none());
    assert!(from_bytes::<User>(&vec![1, 2, 3]).is_none());
}

#[test]
fn insert_then_lookup_survives_other_insert() {
    let mut store: Store<User> = Store::open(open_map(DefaultMemoryImpl::default())).unwrap();
    store.insert(3, &user(3, "Carol", 8));
    store.insert(5, &user(5, "Eve", 1));
    let got = store.lookup(3).unwrap();
    assert_eq!(got.id, 3);
    assert_eq!(got.name, "Carol");
    assert_eq!(got.email, "Carol@x.com");
    assert_eq!(got.points, 8);
    assert_eq!(got.created_at, 7);
}

#[test]
fn lookup_of_absent_id_is_none() {
    let mut store: Store<User> = Store::open(open_map(DefaultMemoryImpl::default())).unwrap();
    assert!(store.lookup(0).is_none());
    assert!(!store.contains(0));
    store.insert(1, &user(1, "A", 0));
    assert!(store.lookup(0).is_none());
    assert!(store.lookup(2).is_none());
    assert!(store.contains(1));
}

#[test]
fn scan_lists_last_values_in_ascending_order() {
    let mut store: Store<User> = Store::open(open_map(DefaultMemoryImpl::default())).unwrap();
    assert!(store.scan().is_empty());
    store.insert(7, &user(7, "G", 1));
    store.insert(2, &user(2, "B", 2));
    store.insert(4, &user(4, "D", 3));
    store.insert(2, &user(2, "B2", 20));
    let all = store.scan();
    let ids: Vec<u64> = all.iter().map(|u| u.id).collect();
    assert_eq!(ids, vec![2, 4, 7]);
    assert_eq!(all[0].name, "B2");
    assert_eq!(all[0].points, 20);
}

#[test]
fn store_reopens_with_its_records() {
    let memory = DefaultMemoryImpl::default();
    {
        let mut store: Store<Challenge> = Store::open(open_map(memory.clone())).unwrap();
        let c = Challenge {
            id: 1,
            creator_id: 0,
            title: "Plank".to_string(),
            description: "Hold it".to_string(),
            participants: vec![0, 3],
            created_at: 5,
        };
        store.insert(1, &c);
    }
    let store: Store<Challenge> = Store::open(open_map(memory)).unwrap();
    let c = store.lookup(1).unwrap();
    assert_eq!(c.title, "Plank");
    assert_eq!(c.participants, vec![0, 3]);
    assert_eq!(store.scan().len(), 1);
}

#[test]
fn ids_stop_at_the_last_value() {
    let manager = MemoryManager::init(DefaultMemoryImpl::default());
    let cell = Cell::init(manager.get(MemoryId::new(0)), u64::MAX - 1).unwrap();
    let mut ids = IdGenerator::open(CounterCell { cell });
    assert_eq!(ids.next_id(), Some(u64::MAX - 1));
    assert_eq!(ids.next_id(), None);
    assert_eq!(ids.peek(), u64::MAX);
}

#[test]
fn store_rejects_entries_that_are_not_its_records() {
    let memory = DefaultMemoryImpl::default();
    let mut map = open_map(memory.clone());
    map.map.insert(1, vec![1, 2, 3]);
    assert!(Store::<User>::open(map).is_none());

    let mut map = open_map(DefaultMemoryImpl::default());
    map.map.insert(4, to_bytes(&user(5, "E", 0)));
    assert!(Store::<User>::open(map).is_none());

    let mut map = open_map(DefaultMemoryImpl::default());
    map.map.insert(5, to_bytes(&user(5, "E", 0)));
    let store = Store::<User>::open(map).unwrap();
    assert_eq!(store.lookup(5).unwrap().name, "E");
}
