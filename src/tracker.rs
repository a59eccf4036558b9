//! The fitness tracker: users, activities, challenges and follows, each kept
//! in its own store, all numbered by one shared identifier generator.
use crate::record::{
    Activity, ActivityView, Challenge, ChallengeView, Follow, FollowView, Record, User, UserView,
};
use crate::derived::{
    activities_of, by_user, followers_of, is_ranking, targeting, top_by_points, LEADERBOARD_SIZE,
};
use crate::stable::{cell_value, map_contents, ByteMap, CounterCell};
use crate::store::{holds_records, lists_in_order, views, IdGenerator, Store};
use vstd::prelude::*;
use vstd::std_specs::iter::IteratorSpec;

verus! {

/// Why an operation was rejected.
#[derive(Clone, Copy, Debug, PartialEq, Eq, Structural)]
pub enum TrackerError {
    /// A required text field is empty.
    MissingField,
    /// The email address has no `@`.
    InvalidEmail,
    /// A referenced user does not exist.
    UserNotFound,
    /// The referenced challenge does not exist.
    ChallengeNotFound,
    /// A user tried to follow themselves.
    SelfFollow,
    /// Every identifier has been issued.
    IdsExhausted,
}

/// The message reported for `e`.
pub open spec fn message_text(e: TrackerError) -> Seq<char> {
    match e {
        TrackerError::MissingField => "Invalid input: Ensure 'name' and 'email' are provided."@,
        TrackerError::InvalidEmail => "Invalid input: Ensure 'email' is a valid email address."@,
        TrackerError::UserNotFound => "User with the given ID does not exist."@,
        TrackerError::ChallengeNotFound => "Challenge not found."@,
        TrackerError::SelfFollow => "Invalid input: User cannot follow themselves."@,
        TrackerError::IdsExhausted => "Cannot increment ID counter"@,
    }
}

impl TrackerError {
    /// The message reported to callers.
    pub fn message(&self) -> (r: String)
        ensures
            r@ == message_text(*self),
    {
        match self {
            TrackerError::MissingField => String::from_str(
                "Invalid input: Ensure 'name' and 'email' are provided.",
            ),
            TrackerError::InvalidEmail => String::from_str(
                "Invalid input: Ensure 'email' is a valid email address.",
            ),
            TrackerError::UserNotFound => String::from_str("User with the given ID does not exist."),
            TrackerError::ChallengeNotFound => String::from_str("Challenge not found."),
            TrackerError::SelfFollow => String::from_str(
                "Invalid input: User cannot follow themselves.",
            ),
            TrackerError::IdsExhausted => String::from_str("Cannot increment ID counter"),
        }
    }
}

/// The fields of a new user.
pub struct UserPayload {
    pub name: String,
    pub email: String,
}

/// The fields of a new activity.
pub struct ActivityPayload {
    pub user_id: u64,
    pub activity_type: String,
    pub duration: u64,
    pub date: u64,
}

/// The fields of a new challenge.
pub struct ChallengePayload {
    pub creator_id: u64,
    pub title: String,
    pub description: String,
}

/// The two sides of a new follow.
pub struct FollowPayload {
    pub follower_id: u64,
    pub following_id: u64,
}

/// Whether `s` holds an `@`.
fn contains_at(s: &String) -> (r: bool)
    ensures
        r == s@.contains('@'),
{
    broadcast use vstd::string::next_postcondition, vstd::string::axiom_spec_iter;

    let mut it = s.as_str().chars();
    let ghost mut seen: int = 0;
    loop
        invariant
            0 <= seen <= s@.len(),
            it.remaining() == s@.skip(seen),
            forall|j: int| 0 <= j < seen ==> s@[j] != '@',
        decreases s@.len() - seen,
    {
        match it.next() {
            Some(c) => {
                if c == '@' {
                    assert(s@[seen] == '@');
                    return true;
                }
                proof {
                    seen = seen + 1;
                }
            },
            None => {
                assert forall|j: int| 0 <= j < s@.len() implies s@[j] != '@' by {}
                return false;
            },
        }
    }
}

/// The tracker's state: one store per record kind and the shared generator.
pub struct FitnessTracker {
    ids: IdGenerator,
    users: Store<User>,
    activities: Store<Activity>,
    challenges: Store<Challenge>,
    follows: Store<Follow>,
}

impl FitnessTracker {
    /// The identifier that the next created record receives.
    pub closed spec fn next_id(&self) -> u64 {
        self.ids.current()
    }

    pub closed spec fn users(&self) -> Map<u64, UserView> {
        self.users@
    }

    pub closed spec fn activities(&self) -> Map<u64, ActivityView> {
        self.activities@
    }

    pub closed spec fn challenges(&self) -> Map<u64, ChallengeView> {
        self.challenges@
    }

    pub closed spec fn follows(&self) -> Map<u64, FollowView> {
        self.follows@
    }

    pub closed spec fn wf(&self) -> bool {
        &&& self.users.wf()
        &&& self.activities.wf()
        &&& self.challenges.wf()
        &&& self.follows.wf()
    }

    /// A tracker over an opened counter and four opened maps, for users,
    /// activities, challenges and follows. `Some` exactly when every entry of
    /// each map holds a record of its kind stored under its own identifier.
    pub fn open(
        counter: CounterCell,
        users: ByteMap,
        activities: ByteMap,
        challenges: ByteMap,
        follows: ByteMap,
    ) -> (r: Option<FitnessTracker>)
        ensures
            r is Some <==> holds_records::<User>(map_contents(users)) && holds_records::<
                Activity,
            >(map_contents(activities)) && holds_records::<Challenge>(map_contents(challenges))
                && holds_records::<Follow>(map_contents(follows)),
            r is Some ==> {
                let t = r->0;
                &&& t.wf()
                &&& t.next_id() == cell_value(counter)
                &&& t.users().dom() == map_contents(users).dom()
                &&& t.activities().dom() == map_contents(activities).dom()
                &&& t.challenges().dom() == map_contents(challenges).dom()
                &&& t.follows().dom() == map_contents(follows).dom()
            },
    {
        let ids = IdGenerator::open(counter);
        let users = Store::<User>::open(users)?;
        let activities = Store::<Activity>::open(activities)?;
        let challenges = Store::<Challenge>::open(challenges)?;
        let follows = Store::<Follow>::open(follows)?;
        Some(FitnessTracker { ids, users, activities, challenges, follows })
    }

    /// The identifier that the next created record receives.
    pub fn peek_next_id(&self) -> (r: u64)
        ensures
            r == self.next_id(),
    {
        self.ids.peek()
    }

    /// Registers a user with no points. The name and the email must be
    /// non-empty, and the email must hold an `@`. On any error nothing
    /// changes.
    pub fn create_user(&mut self, payload: UserPayload, now: u64) -> (r: Result<
        User,
        TrackerError,
    >)
        requires
            old(self).wf(),
        ensures
            final(self).wf(),
            final(self).activities() == old(self).activities(),
            final(self).challenges() == old(self).challenges(),
            final(self).follows() == old(self).follows(),
            r == Err::<User, TrackerError>(TrackerError::MissingField) <==> payload.name@.len() == 0
                || payload.email@.len() == 0,
            r == Err::<User, TrackerError>(TrackerError::InvalidEmail) <==> payload.name@.len() > 0
                && payload.email@.len() > 0 && !payload.email@.contains('@'),
            r == Err::<User, TrackerError>(TrackerError::IdsExhausted) <==> payload.name@.len() > 0
                && payload.email@.contains('@') && old(self).next_id() == u64::MAX,
            r is Ok <==> payload.name@.len() > 0 && payload.email@.contains('@') && old(self).next_id() < u64::MAX,
            r is Ok ==> {
                &&& r->Ok_0@ == (UserView {
                    id: old(self).next_id(),
                    name: payload.name@,
                    email: payload.email@,
                    points: 0,
                    created_at: now,
                })
                &&& final(self).users() == old(self).users().insert(r->Ok_0.id, r->Ok_0@)
                &&& final(self).next_id() == old(self).next_id() + 1
            },
            r is Err ==> final(self).users() == old(self).users() && final(self).next_id() == old(self).next_id(),
    {
        if payload.name.as_str().is_empty() || payload.email.as_str().is_empty() {
            return Err(TrackerError::MissingField);
        }
        if !contains_at(&payload.email) {
            return Err(TrackerError::InvalidEmail);
        }
        let id = match self.ids.next_id() {
            Some(id) => id,
            None => {
                return Err(TrackerError::IdsExhausted);
            },
        };
        let user = User {
            id,
            name: payload.name,
            email: payload.email,
            points: 0,
            created_at: now,
        };
        self.users.insert(id, &user);
        Ok(user)
    }

    /// Logs an activity for an existing user. On any error nothing changes.
    pub fn create_activity(&mut self, payload: ActivityPayload, now: u64) -> (r: Result<
        Activity,
        TrackerError,
    >)
        requires
            old(self).wf(),
        ensures
            final(self).wf(),
            final(self).users() == old(self).users(),
            final(self).challenges() == old(self).challenges(),
            final(self).follows() == old(self).follows(),
            r == Err::<Activity, TrackerError>(TrackerError::UserNotFound) <==> !old(self).users().contains_key(payload.user_id),
            r == Err::<Activity, TrackerError>(TrackerError::IdsExhausted) <==> old(self).users().contains_key(payload.user_id) && old(self).next_id() == u64::MAX,
            r is Ok <==> old(self).users().contains_key(payload.user_id) && old(self).next_id()
                < u64::MAX,
            r is Ok ==> {
                &&& r->Ok_0@ == (ActivityView {
                    id: old(self).next_id(),
                    user_id: payload.user_id,
                    activity_type: payload.activity_type@,
                    duration: payload.duration,
                    date: payload.date,
                    created_at: now,
                })
                &&& final(self).activities() == old(self).activities().insert(
                    r->Ok_0.id,
                    r->Ok_0@,
                )
                &&& final(self).next_id() == old(self).next_id() + 1
            },
            r is Err ==> final(self).activities() == old(self).activities() && final(self).next_id() == old(self).next_id(),
    {
        if !self.users.contains(payload.user_id) {
            return Err(TrackerError::UserNotFound);
        }
        let id = match self.ids.next_id() {
            Some(id) => id,
            None => {
                return Err(TrackerError::IdsExhausted);
            },
        };
        let activity = Activity {
            id,
            user_id: payload.user_id,
            activity_type: payload.activity_type,
            duration: payload.duration,
            date: payload.date,
            created_at: now,
        };
        self.activities.insert(id, &activity);
        Ok(activity)
    }

    /// Opens a challenge, with no participants, created by an existing user.
    /// On any error nothing changes.
    pub fn create_challenge(&mut self, payload: ChallengePayload, now: u64) -> (r: Result<
        Challenge,
        TrackerError,
    >)
        requires
            old(self).wf(),
        ensures
            final(self).wf(),
            final(self).users() == old(self).users(),
            final(self).activities() == old(self).activities(),
            final(self).follows() == old(self).follows(),
            r == Err::<Challenge, TrackerError>(TrackerError::UserNotFound) <==> !old(self).users().contains_key(payload.creator_id),
            r == Err::<Challenge, TrackerError>(TrackerError::IdsExhausted) <==> old(self).users().contains_key(payload.creator_id) && old(self).next_id() == u64::MAX,
            r is Ok <==> old(self).users().contains_key(payload.creator_id) && old(self).next_id()
                < u64::MAX,
            r is Ok ==> {
                &&& r->Ok_0@ == (ChallengeView {
                    id: old(self).next_id(),
                    creator_id: payload.creator_id,
                    title: payload.title@,
                    description: payload.description@,
                    participants: Seq::empty(),
                    created_at: now,
                })
                &&& final(self).challenges() == old(self).challenges().insert(
                    r->Ok_0.id,
                    r->Ok_0@,
                )
                &&& final(self).next_id() == old(self).next_id() + 1
            },
            r is Err ==> final(self).challenges() == old(self).challenges() && final(self).next_id() == old(self).next_id(),
    {
        if !self.users.contains(payload.creator_id) {
            return Err(TrackerError::UserNotFound);
        }
        let id = match self.ids.next_id() {
            Some(id) => id,
            None => {
                return Err(TrackerError::IdsExhausted);
            },
        };
        let challenge = Challenge {
            id,
            creator_id: payload.creator_id,
            title: payload.title,
            description: payload.description,
            participants: Vec::new(),
            created_at: now,
        };
        self.challenges.insert(id, &challenge);
        Ok(challenge)
    }

    /// Adds an existing user to the participants of an existing challenge.
    /// A user may join the same challenge more than once. On any error
    /// nothing changes.
    pub fn join_challenge(&mut self, challenge_id: u64, user_id: u64) -> (r: Result<
        Challenge,
        TrackerError,
    >)
        requires
            old(self).wf(),
        ensures
            final(self).wf(),
            final(self).next_id() == old(self).next_id(),
            final(self).users() == old(self).users(),
            final(self).activities() == old(self).activities(),
            final(self).follows() == old(self).follows(),
            r == Err::<Challenge, TrackerError>(TrackerError::ChallengeNotFound) <==> !old(self).challenges().contains_key(challenge_id),
            r == Err::<Challenge, TrackerError>(TrackerError::UserNotFound) <==> old(self).challenges().contains_key(challenge_id) && !old(self).users().contains_key(user_id),
            r is Ok <==> old(self).challenges().contains_key(challenge_id) && old(self).users().contains_key(user_id),
            r is Ok ==> {
                let c = old(self).challenges()[challenge_id];
                &&& r->Ok_0@ == (ChallengeView { participants: c.participants.push(user_id), ..c })
                &&& final(self).challenges() == old(self).challenges().insert(
                    challenge_id,
                    r->Ok_0@,
                )
            },
            r is Err ==> final(self).challenges() == old(self).challenges(),
    {
        let mut challenge = match self.challenges.lookup(challenge_id) {
            Some(c) => c,
            None => {
                return Err(TrackerError::ChallengeNotFound);
            },
        };
        if !self.users.contains(user_id) {
            return Err(TrackerError::UserNotFound);
        }
        challenge.participants.push(user_id);
        self.challenges.insert(challenge_id, &challenge);
        Ok(challenge)
    }

    /// Records that one existing user follows another. Both users must
    /// exist, and a user cannot follow themselves; following the same user
    /// twice is allowed. On any error nothing changes.
    pub fn follow_user(&mut self, payload: FollowPayload, now: u64) -> (r: Result<
        Follow,
        TrackerError,
    >)
        requires
            old(self).wf(),
        ensures
            final(self).wf(),
            final(self).users() == old(self).users(),
            final(self).activities() == old(self).activities(),
            final(self).challenges() == old(self).challenges(),
            payload.follower_id == payload.following_id ==> r is Err,
            r == Err::<Follow, TrackerError>(TrackerError::UserNotFound) <==> !old(self).users().contains_key(payload.follower_id) || !old(self).users().contains_key(
                payload.following_id,
            ),
            r == Err::<Follow, TrackerError>(TrackerError::SelfFollow) <==> old(self).users().contains_key(payload.follower_id) && old(self).users().contains_key(
                payload.following_id,
            ) && payload.follower_id == payload.following_id,
            r == Err::<Follow, TrackerError>(TrackerError::IdsExhausted) <==> old(self).users().contains_key(payload.follower_id) && old(self).users().contains_key(
                payload.following_id,
            ) && payload.follower_id != payload.following_id && old(self).next_id() == u64::MAX,
            r is Ok <==> old(self).users().contains_key(payload.follower_id) && old(self).users().contains_key(payload.following_id) && payload.follower_id
                != payload.following_id && old(self).next_id() < u64::MAX,
            r is Ok ==> {
                &&& r->Ok_0@ == (FollowView {
                    id: old(self).next_id(),
                    follower_id: payload.follower_id,
                    following_id: payload.following_id,
                    created_at: now,
                })
                &&& final(self).follows() == old(self).follows().insert(r->Ok_0.id, r->Ok_0@)
                &&& final(self).next_id() == old(self).next_id() + 1
            },
            r is Err ==> final(self).follows() == old(self).follows() && final(self).next_id()
                == old(self).next_id(),
    {
        if !self.users.contains(payload.follower_id) {
            return Err(TrackerError::UserNotFound);
        }
        if !self.users.contains(payload.following_id) {
            return Err(TrackerError::UserNotFound);
        }
        if payload.follower_id == payload.following_id {
            return Err(TrackerError::SelfFollow);
        }
        let id = match self.ids.next_id() {
            Some(id) => id,
            None => {
                return Err(TrackerError::IdsExhausted);
            },
        };
        let follow = Follow {
            id,
            follower_id: payload.follower_id,
            following_id: payload.following_id,
            created_at: now,
        };
        self.follows.insert(id, &follow);
        Ok(follow)
    }

    /// Every user, by ascending identifier.
    pub fn get_users(&self) -> (r: Vec<User>)
        requires
            self.wf(),
        ensures
            lists_in_order::<User>(views(r@), self.users()),
    {
        self.users.scan()
    }

    /// Every activity, by ascending identifier.
    pub fn get_activities(&self) -> (r: Vec<Activity>)
        requires
            self.wf(),
        ensures
            lists_in_order::<Activity>(views(r@), self.activities()),
    {
        self.activities.scan()
    }

    /// Every challenge, by ascending identifier.
    pub fn get_challenges(&self) -> (r: Vec<Challenge>)
        requires
            self.wf(),
        ensures
            lists_in_order::<Challenge>(views(r@), self.challenges()),
    {
        self.challenges.scan()
    }

    /// The activities logged by `user_id`, by ascending identifier.
    pub fn get_user_activities(&self, user_id: u64) -> (r: Vec<Activity>)
        requires
            self.wf(),
        ensures
            exists|all: Seq<ActivityView>|
                lists_in_order::<Activity>(all, self.activities()) && views(r@) == all.filter(
                    by_user(user_id),
                ),
    {
        let all = self.activities.scan();
        activities_of(&all, user_id)
    }

    /// The follows whose target is `user_id`, by ascending identifier.
    pub fn get_user_followers(&self, user_id: u64) -> (r: Vec<Follow>)
        requires
            self.wf(),
        ensures
            exists|all: Seq<FollowView>|
                lists_in_order::<Follow>(all, self.follows()) && views(r@) == all.filter(
                    targeting(user_id),
                ),
    {
        let all = self.follows.scan();
        followers_of(&all, user_id)
    }

    /// At most `LEADERBOARD_SIZE` users, from most points to fewest, lower
    /// identifiers first among equal points.
    pub fn get_leaderboard(&self) -> (r: Vec<User>)
        requires
            self.wf(),
        ensures
            exists|all: Seq<User>|
                {
                    &&& lists_in_order::<User>(views(all), self.users())
                    &&& r@.len() == if all.len() < LEADERBOARD_SIZE {
                        all.len()
                    } else {
                        LEADERBOARD_SIZE as nat
                    }
                    &&& exists|order: Seq<int>|
                        is_ranking(views(all), order) && forall|i: int|
                            0 <= i < r@.len() ==> #[trigger] r@[i]@ == all[order[i]]@
                },
    {
        let all = self.users.scan();
        let r = top_by_points(&all);
        assert(lists_in_order::<User>(views(all@), self.users()));
        r
    }
}

} // verus!
