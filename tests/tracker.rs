use fitness_tracker::derived::{activities_of, followers_of, ranking, top_by_points};
use fitness_tracker::record::{Activity, Follow, User};
use fitness_tracker::tracker::{
    ActivityPayload, ChallengePayload, FitnessTracker, FollowPayload, TrackerError, UserPayload,
};
use fitness_tracker::stable::{ByteMap, CounterCell};
use ic_stable_structures::memory_manager::{MemoryId, MemoryManager};
use ic_stable_structures::{Cell, DefaultMemoryImpl, StableBTreeMap};

fn open_tracker(memory: DefaultMemoryImpl) -> FitnessTracker {
    let manager = MemoryManager::init(memory);
    let map = |id: u8| ByteMap { map: StableBTreeMap::init(manager.get(MemoryId::new(id))) };
    let counter = CounterCell { cell: Cell::init(manager.get(MemoryId::new(0)), 0).unwrap() };
    FitnessTracker::open(counter, map(1), map(2), map(3), map(4)).unwrap()
}

fn tracker() -> FitnessTracker {
    open_tracker(DefaultMemoryImpl::default())
}

fn new_user(t: &mut FitnessTracker, name: &str) -> User {
    t.create_user(
        UserPayload { name: name.to_string(), email: format!("{}@x.com", name) },
        100,
    )
    .unwrap()
}

fn activity(t: &mut FitnessTracker, user_id: u64) -> Result<Activity, TrackerError> {
    t.create_activity(
        ActivityPayload { user_id, activity_type: "run".to_string(), duration: 30, date: 20240105 },
        200,
    )
}

fn points_user(id: u64, points: u64) -> User {
    User { id, name: format!("u{}", id), email: "u@x".to_string(), points, created_at: 0 }
}

#[test]
fn end_to_end_follow_and_missing_user() {
    let mut t = tracker();
    let a = t
        .create_user(UserPayload { name: "Alice".to_string(), email: "a@x.com".to_string() }, 1)
        .unwrap();
    assert_eq!(a.id, 0);
    assert_eq!(a.points, 0);
    assert_eq!(a.name, "Alice");
    assert_eq!(a.email, "a@x.com");
    let b = t
        .create_user(UserPayload { name: "Bob".to_string(), email: "b@x.com".to_string() }, 2)
        .unwrap();
    assert_eq!(b.id, 1);
    let f = t.follow_user(FollowPayload { follower_id: 1, following_id: 0 }, 3).unwrap();
    assert_eq!(f.follower_id, 1);
    assert_eq!(f.following_id, 0);
    let followers = t.get_user_followers(0);
    assert_eq!(followers.len(), 1);
    assert_eq!(followers[0].follower_id, 1);
    assert_eq!(activity(&mut t, 2).unwrap_err(), TrackerError::UserNotFound);
    assert!(t.get_activities().is_empty());
}

#[test]
fn ids_are_shared_across_kinds() {
    let mut t = tracker();
    let u = new_user(&mut t, "A");
    let a = activity(&mut t, u.id).unwrap();
    let c = t
        .create_challenge(
            ChallengePayload { creator_id: u.id, title: "T".to_string(), description: "D".to_string() },
            5,
        )
        .unwrap();
    let v = new_user(&mut t, "B");
    let f = t.follow_user(FollowPayload { follower_id: v.id, following_id: u.id }, 6).unwrap();
    assert_eq!((u.id, a.id, c.id, v.id, f.id), (0, 1, 2, 3, 4));
    assert_eq!(t.peek_next_id(), 5);
    assert_eq!(a.created_at, 200);
    assert_eq!(c.created_at, 5);
    assert!(c.participants.is_empty());
}

#[test]
fn tracker_resumes_after_restart() {
    let memory = DefaultMemoryImpl::default();
    {
        let mut t = open_tracker(memory.clone());
        new_user(&mut t, "A");
        new_user(&mut t, "B");
    }
    let mut t = open_tracker(memory);
    assert_eq!(t.get_users().len(), 2);
    let c = new_user(&mut t, "C");
    assert_eq!(c.id, 2);
}

#[test]
fn missing_foreign_user_changes_nothing() {
    let mut t = tracker();
    let u = new_user(&mut t, "A");
    assert_eq!(activity(&mut t, 9).unwrap_err(), TrackerError::UserNotFound);
    let c = t.create_challenge(
        ChallengePayload { creator_id: 9, title: "T".to_string(), description: "D".to_string() },
        1,
    );
    assert_eq!(c.unwrap_err(), TrackerError::UserNotFound);
    let f = t.follow_user(FollowPayload { follower_id: 9, following_id: u.id }, 1);
    assert_eq!(f.unwrap_err(), TrackerError::UserNotFound);
    let f = t.follow_user(FollowPayload { follower_id: u.id, following_id: 9 }, 1);
    assert_eq!(f.unwrap_err(), TrackerError::UserNotFound);
    assert!(t.get_activities().is_empty());
    assert!(t.get_challenges().is_empty());
    assert!(t.get_user_followers(u.id).is_empty());
    assert_eq!(t.get_users().len(), 1);
    assert_eq!(t.peek_next_id(), 1);
}

#[test]
fn self_follow_is_rejected() {
    let mut t = tracker();
    let u = new_user(&mut t, "A");
    let r = t.follow_user(FollowPayload { follower_id: u.id, following_id: u.id }, 1);
    assert_eq!(r.unwrap_err(), TrackerError::SelfFollow);
    let r = t.follow_user(FollowPayload { follower_id: 5, following_id: 5 }, 1);
    assert!(r.is_err());
    assert!(t.get_user_followers(u.id).is_empty());
    assert_eq!(t.peek_next_id(), 1);
}

#[test]
fn following_twice_is_allowed() {
    let mut t = tracker();
    let a = new_user(&mut t, "A");
    let b = new_user(&mut t, "B");
    t.follow_user(FollowPayload { follower_id: b.id, following_id: a.id }, 1).unwrap();
    t.follow_user(FollowPayload { follower_id: b.id, following_id: a.id }, 2).unwrap();
    let ids: Vec<u64> = t.get_user_followers(a.id).iter().map(|f| f.id).collect();
    assert_eq!(ids, vec![2, 3]);
    assert!(t.get_user_followers(b.id).is_empty());
}

#[test]
fn user_input_is_validated() {
    let mut t = tracker();
    let r = t.create_user(UserPayload { name: String::new(), email: "a@x".to_string() }, 1);
    assert_eq!(r.unwrap_err(), TrackerError::MissingField);
    let r = t.create_user(UserPayload { name: "A".to_string(), email: String::new() }, 1);
    assert_eq!(r.unwrap_err(), TrackerError::MissingField);
    let r = t.create_user(UserPayload { name: "A".to_string(), email: "ax.com".to_string() }, 1);
    assert_eq!(r.unwrap_err(), TrackerError::InvalidEmail);
    assert!(t.get_users().is_empty());
    assert_eq!(t.peek_next_id(), 0);
    let ok = t.create_user(UserPayload { name: "A".to_string(), email: "@".to_string() }, 1);
    assert!(ok.is_ok());
}

#[test]
fn join_challenge_appends_participant() {
    let mut t = tracker();
    let a = new_user(&mut t, "A");
    let b = new_user(&mut t, "B");
    let c = t
        .create_challenge(
            ChallengePayload { creator_id: a.id, title: "T".to_string(), description: "D".to_string() },
            1,
        )
        .unwrap();
    assert_eq!(t.join_challenge(c.id, b.id).unwrap().participants, vec![b.id]);
    let again = t.join_challenge(c.id, b.id).unwrap();
    assert_eq!(again.participants, vec![b.id, b.id]);
    assert_eq!(again.title, "T");
    assert_eq!(t.join_challenge(99, b.id).unwrap_err(), TrackerError::ChallengeNotFound);
    assert_eq!(t.join_challenge(c.id, 99).unwrap_err(), TrackerError::UserNotFound);
    let stored = t.get_challenges();
    assert_eq!(stored.len(), 1);
    assert_eq!(stored[0].participants, vec![b.id, b.id]);
    assert_eq!(t.peek_next_id(), 3);
}

#[test]
fn user_activities_are_filtered() {
    let mut t = tracker();
    let a = new_user(&mut t, "A");
    let b = new_user(&mut t, "B");
    activity(&mut t, a.id).unwrap();
    activity(&mut t, b.id).unwrap();
    activity(&mut t, a.id).unwrap();
    let ids: Vec<u64> = t.get_user_activities(a.id).iter().map(|x| x.id).collect();
    assert_eq!(ids, vec![2, 4]);
    assert_eq!(t.get_user_activities(b.id).len(), 1);
    assert!(t.get_user_activities(7).is_empty());
    assert_eq!(t.get_activities().len(), 3);
}

#[test]
fn filters_keep_order() {
    let all: Vec<Activity> = [(1, 5), (2, 6), (3, 5)]
        .iter()
        .map(|&(id, user_id)| Activity {
            id,
            user_id,
            activity_type: "swim".to_string(),
            duration: 1,
            date: 1,
            created_at: 1,
        })
        .collect();
    let ids: Vec<u64> = activities_of(&all, 5).iter().map(|x| x.id).collect();
    assert_eq!(ids, vec![1, 3]);
    let follows: Vec<Follow> = [(1, 0, 9), (2, 3, 8), (3, 4, 9)]
        .iter()
        .map(|&(id, follower_id, following_id)| Follow { id, follower_id, following_id, created_at: 0 })
        .collect();
    let ids: Vec<u64> = followers_of(&follows, 9).iter().map(|x| x.id).collect();
    assert_eq!(ids, vec![1, 3]);
}

#[test]
fn leaderboard_orders_by_points_then_position() {
    let users: Vec<User> = [5, 0, 100, 100, 3]
        .iter()
        .enumerate()
        .map(|(i, &p)| points_user(i as u64, p))
        .collect();
    assert_eq!(ranking(&users), vec![2, 3, 0, 4, 1]);
    let top = top_by_points(&users);
    let got: Vec<(u64, u64)> = top.iter().map(|u| (u.id, u.points)).collect();
    assert_eq!(got, vec![(2, 100), (3, 100), (0, 5), (4, 3), (1, 0)]);
}

#[test]
fn leaderboard_keeps_ten() {
    let users: Vec<User> = (0..13).map(|i| points_user(i, i % 4)).collect();
    let top = top_by_points(&users);
    assert_eq!(top.len(), 10);
    let ids: Vec<u64> = top.iter().map(|u| u.id).collect();
    assert_eq!(ids, vec![3, 7, 11, 2, 6, 10, 1, 5, 9, 0]);
    assert!(top_by_points(&Vec::new()).is_empty());
}

#[test]
fn tracker_leaderboard_ties_keep_creation_order() {
    let mut t = tracker();
    for i in 0..12 {
        new_user(&mut t, &format!("p{}", i));
    }
    let ids: Vec<u64> = t.get_leaderboard().iter().map(|u| u.id).collect();
    assert_eq!(ids, (0..10).collect::<Vec<u64>>());
}

#[test]
fn error_messages() {
    assert_eq!(TrackerError::UserNotFound.message(), "User with the given ID does not exist.");
    assert_eq!(TrackerError::ChallengeNotFound.message(), "Challenge not found.");
    assert_eq!(
        TrackerError::SelfFollow.message(),
        "Invalid input: User cannot follow themselves."
    );
    assert_eq!(
        TrackerError::MissingField.message(),
        "Invalid input: Ensure 'name' and 'email' are provided."
    );
    assert_eq!(
        TrackerError::InvalidEmail.message(),
        "Invalid input: Ensure 'email' is a valid email address."
    );
    assert_eq!(TrackerError::IdsExhausted.message(), "Cannot increment ID counter");
}

#[test]
fn creation_fails_when_ids_run_out() {
    let manager = MemoryManager::init(DefaultMemoryImpl::default());
    let map = |id: u8| ByteMap { map: StableBTreeMap::init(manager.get(MemoryId::new(id))) };
    let counter = CounterCell { cell: Cell::init(manager.get(MemoryId::new(0)), u64::MAX).unwrap() };
    let mut t = FitnessTracker::open(counter, map(1), map(2), map(3), map(4)).unwrap();
    let r = t.create_user(UserPayload { name: "A".to_string(), email: "a@x".to_string() }, 1);
    assert_eq!(r.unwrap_err(), TrackerError::IdsExhausted);
    assert!(t.get_users().is_empty());
    assert_eq!(t.peek_next_id(), u64::MAX);
}
