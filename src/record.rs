//! The stored record types and their encoding.
use crate::codec::{candid_of, decode_fields, encode_fields, texts_view};
use vstd::prelude::*;

verus! {

/// A record with a stable identifier field that can be written as a pair of
/// integer and text sequences.
pub trait Record: Sized + View {
    /// The identifier stored in the record.
    spec fn key_of(v: Self::V) -> u64;

    /// The integer fields, in encoding order.
    spec fn nums_of(v: Self::V) -> Seq<u64>;

    /// The text fields, in encoding order.
    spec fn texts_of(v: Self::V) -> Seq<Seq<char>>;

    fn key(&self) -> (r: u64)
        ensures
            r == Self::key_of(self@),
    ;

    fn to_fields(&self) -> (r: (Vec<u64>, Vec<String>))
        ensures
            r.0@ == Self::nums_of(self@),
            texts_view(r.1@) == Self::texts_of(self@),
    ;

    fn from_fields(nums: Vec<u64>, texts: Vec<String>) -> (r: Option<Self>)
        ensures
            forall|v: Self::V|
                #[trigger] Self::nums_of(v) == nums@ && Self::texts_of(v) == texts_view(texts@)
                    ==> r is Some && r->0@ == v,
    ;

    fn duplicate(&self) -> (r: Self)
        ensures
            r@ == self@,
    ;
}

/// The bytes under which a record is stored.
pub open spec fn encoding<T: Record>(v: T::V) -> Seq<u8> {
    candid_of(T::nums_of(v), T::texts_of(v))
}

/// Encodes a record.
pub fn to_bytes<T: Record>(r: &T) -> (b: Vec<u8>)
    ensures
        b@ == encoding::<T>(r@),
{
    let (nums, texts) = r.to_fields();
    match encode_fields(nums, texts) {
        Some(b) => b,
        None => {
            // The encoder does not fail on a pair of integer and text vectors.
            assert(false);
            Vec::new()
        },
    }
}

/// Decodes a record: the encoding of any record decodes to that record.
pub fn from_bytes<T: Record>(b: &Vec<u8>) -> (r: Option<T>)
    ensures
        forall|v: T::V| #[trigger] encoding::<T>(v) == b@ ==> r is Some && r->0@ == v,
{
    match decode_fields(b) {
        Some((nums, texts)) => {
            let r = T::from_fields(nums, texts);
            assert forall|v: T::V| #[trigger] encoding::<T>(v) == b@ implies r is Some && r->0@
                == v by {
                assert(candid_of(T::nums_of(v), T::texts_of(v)) == b@);
            }
            r
        },
        None => None,
    }
}

fn copy_text(s: &String) -> (r: String)
    ensures
        r@ == s@,
{
    s.clone()
}

fn copy_ids(v: &Vec<u64>) -> (r: Vec<u64>)
    ensures
        r@ == v@,
{
    let mut r: Vec<u64> = Vec::new();
    let mut i: usize = 0;
    while i < v.len()
        invariant
            i <= v@.len(),
            r@ == v@.take(i as int),
        decreases v@.len() - i,
    {
        r.push(v[i]);
        i = i + 1;
        assert(r@ =~= v@.take(i as int));
    }
    assert(r@ =~= v@);
    r
}

/// A registered user.
#[derive(Clone, Debug)]
pub struct User {
    pub id: u64,
    pub name: String,
    pub email: String,
    pub points: u64,
    pub created_at: u64,
}

pub struct UserView {
    pub id: u64,
    pub name: Seq<char>,
    pub email: Seq<char>,
    pub points: u64,
    pub created_at: u64,
}

impl View for User {
    type V = UserView;

    open spec fn view(&self) -> UserView {
        UserView {
            id: self.id,
            name: self.name@,
            email: self.email@,
            points: self.points,
            created_at: self.created_at,
        }
    }
}

impl Record for User {
    open spec fn key_of(v: UserView) -> u64 {
        v.id
    }

    open spec fn nums_of(v: UserView) -> Seq<u64> {
        seq![v.id, v.points, v.created_at]
    }

    open spec fn texts_of(v: UserView) -> Seq<Seq<char>> {
        seq![v.name, v.email]
    }

    fn key(&self) -> (r: u64) {
        self.id
    }

    fn to_fields(&self) -> (r: (Vec<u64>, Vec<String>)) {
        let nums = vec![self.id, self.points, self.created_at];
        let texts = vec![copy_text(&self.name), copy_text(&self.email)];
        assert(texts_view(texts@) =~= Self::texts_of(self@));
        assert(nums@ =~= Self::nums_of(self@));
        (nums, texts)
    }

    fn from_fields(nums: Vec<u64>, texts: Vec<String>) -> (r: Option<User>) {
        if nums.len() != 3 || texts.len() != 2 {
            assert forall|v: UserView| #[trigger] Self::nums_of(v) == nums@ && Self::texts_of(v)
                == texts_view(texts@) implies false by {
                assert(Self::nums_of(v).len() == 3);
                assert(texts_view(texts@).len() == texts@.len());
            }
            return None;
        }
        let u = User {
            id: nums[0],
            points: nums[1],
            created_at: nums[2],
            name: copy_text(&texts[0]),
            email: copy_text(&texts[1]),
        };
        assert forall|v: UserView| #[trigger]
            Self::nums_of(v) == nums@ && Self::texts_of(v) == texts_view(texts@) implies u@ == v by {
            assert(Self::nums_of(v)[0] == nums@[0] && Self::nums_of(v)[1] == nums@[1]
                && Self::nums_of(v)[2] == nums@[2]);
            assert(Self::texts_of(v)[0] == texts_view(texts@)[0] && Self::texts_of(v)[1]
                == texts_view(texts@)[1]);
        }
        Some(u)
    }

    fn duplicate(&self) -> (r: User) {
        User {
            id: self.id,
            name: copy_text(&self.name),
            email: copy_text(&self.email),
            points: self.points,
            created_at: self.created_at,
        }
    }
}

/// A logged workout.
#[derive(Clone, Debug)]
pub struct Activity {
    pub id: u64,
    pub user_id: u64,
    pub activity_type: String,
    /// Duration in minutes.
    pub duration: u64,
    pub date: u64,
    pub created_at: u64,
}

pub struct ActivityView {
    pub id: u64,
    pub user_id: u64,
    pub activity_type: Seq<char>,
    pub duration: u64,
    pub date: u64,
    pub created_at: u64,
}

impl View for Activity {
    type V = ActivityView;

    open spec fn view(&self) -> ActivityView {
        ActivityView {
            id: self.id,
            user_id: self.user_id,
            activity_type: self.activity_type@,
            duration: self.duration,
            date: self.date,
            created_at: self.created_at,
        }
    }
}

impl Record for Activity {
    open spec fn key_of(v: ActivityView) -> u64 {
        v.id
    }

    open spec fn nums_of(v: ActivityView) -> Seq<u64> {
        seq![v.id, v.user_id, v.duration, v.date, v.created_at]
    }

    open spec fn texts_of(v: ActivityView) -> Seq<Seq<char>> {
        seq![v.activity_type]
    }

    fn key(&self) -> (r: u64) {
        self.id
    }

    fn to_fields(&self) -> (r: (Vec<u64>, Vec<String>)) {
        let nums = vec![self.id, self.user_id, self.duration, self.date, self.created_at];
        let texts = vec![copy_text(&self.activity_type)];
        assert(texts_view(texts@) =~= Self::texts_of(self@));
        assert(nums@ =~= Self::nums_of(self@));
        (nums, texts)
    }

    fn from_fields(nums: Vec<u64>, texts: Vec<String>) -> (r: Option<Activity>) {
        if nums.len() != 5 || texts.len() != 1 {
            assert forall|v: ActivityView| #[trigger] Self::nums_of(v) == nums@ && Self::texts_of(v)
                == texts_view(texts@) implies false by {
                assert(Self::nums_of(v).len() == 5);
                assert(texts_view(texts@).len() == texts@.len());
            }
            return None;
        }
        let a = Activity {
            id: nums[0],
            user_id: nums[1],
            duration: nums[2],
            date: nums[3],
            created_at: nums[4],
            activity_type: copy_text(&texts[0]),
        };
        assert forall|v: ActivityView| #[trigger]
            Self::nums_of(v) == nums@ && Self::texts_of(v) == texts_view(texts@) implies a@ == v by {
            assert(Self::nums_of(v)[0] == nums@[0] && Self::nums_of(v)[1] == nums@[1]
                && Self::nums_of(v)[2] == nums@[2] && Self::nums_of(v)[3] == nums@[3]
                && Self::nums_of(v)[4] == nums@[4]);
            assert(Self::texts_of(v)[0] == texts_view(texts@)[0]);
        }
        Some(a)
    }

    fn duplicate(&self) -> (r: Activity) {
        Activity {
            id: self.id,
            user_id: self.user_id,
            activity_type: copy_text(&self.activity_type),
            duration: self.duration,
            date: self.date,
            created_at: self.created_at,
        }
    }
}

/// A challenge that users can join.
#[derive(Clone, Debug)]
pub struct Challenge {
    pub id: u64,
    pub creator_id: u64,
    pub title: String,
    pub description: String,
    pub participants: Vec<u64>,
    pub created_at: u64,
}

pub struct ChallengeView {
    pub id: u64,
    pub creator_id: u64,
    pub title: Seq<char>,
    pub description: Seq<char>,
    pub participants: Seq<u64>,
    pub created_at: u64,
}

impl View for Challenge {
    type V = ChallengeView;

    open spec fn view(&self) -> ChallengeView {
        ChallengeView {
            id: self.id,
            creator_id: self.creator_id,
            title: self.title@,
            description: self.description@,
            participants: self.participants@,
            created_at: self.created_at,
        }
    }
}

impl Record for Challenge {
    open spec fn key_of(v: ChallengeView) -> u64 {
        v.id
    }

    /// The fixed fields first, then the participants.
    open spec fn nums_of(v: ChallengeView) -> Seq<u64> {
        seq![v.id, v.creator_id, v.created_at] + v.participants
    }

    open spec fn texts_of(v: ChallengeView) -> Seq<Seq<char>> {
        seq![v.title, v.description]
    }

    fn key(&self) -> (r: u64) {
        self.id
    }

    fn to_fields(&self) -> (r: (Vec<u64>, Vec<String>)) {
        let mut nums = vec![self.id, self.creator_id, self.created_at];
        let mut i: usize = 0;
        while i < self.participants.len()
            invariant
                i <= self.participants@.len(),
                nums@ == seq![self.id, self.creator_id, self.created_at]
                    + self.participants@.take(i as int),
            decreases self.participants@.len() - i,
        {
            nums.push(self.participants[i]);
            i = i + 1;
            assert(nums@ =~= seq![self.id, self.creator_id, self.created_at]
                + self.participants@.take(i as int));
        }
        assert(self.participants@.take(i as int) =~= self.participants@);
        let texts = vec![copy_text(&self.title), copy_text(&self.description)];
        assert(texts_view(texts@) =~= Self::texts_of(self@));
        (nums, texts)
    }

    fn from_fields(nums: Vec<u64>, texts: Vec<String>) -> (r: Option<Challenge>) {
        if nums.len() < 3 || texts.len() != 2 {
            assert forall|v: ChallengeView| #[trigger] Self::nums_of(v) == nums@ && Self::texts_of(v)
                == texts_view(texts@) implies false by {
                assert(Self::nums_of(v).len() >= 3);
                assert(texts_view(texts@).len() == texts@.len());
            }
            return None;
        }
        let mut participants: Vec<u64> = Vec::new();
        let mut i: usize = 3;
        while i < nums.len()
            invariant
                3 <= i <= nums@.len(),
                participants@ == nums@.subrange(3, i as int),
            decreases nums@.len() - i,
        {
            participants.push(nums[i]);
            i = i + 1;
            assert(participants@ =~= nums@.subrange(3, i as int));
        }
        let c = Challenge {
            id: nums[0],
            creator_id: nums[1],
            created_at: nums[2],
            title: copy_text(&texts[0]),
            description: copy_text(&texts[1]),
            participants,
        };
        assert forall|v: ChallengeView| #[trigger]
            Self::nums_of(v) == nums@ && Self::texts_of(v) == texts_view(texts@) implies c@ == v by {
            let n = Self::nums_of(v);
            assert(n[0] == nums@[0] && n[1] == nums@[1] && n[2] == nums@[2]);
            assert(v.participants =~= n.subrange(3, n.len() as int));
            assert(Self::texts_of(v)[0] == texts_view(texts@)[0] && Self::texts_of(v)[1]
                == texts_view(texts@)[1]);
        }
        Some(c)
    }

    fn duplicate(&self) -> (r: Challenge) {
        Challenge {
            id: self.id,
            creator_id: self.creator_id,
            title: copy_text(&self.title),
            description: copy_text(&self.description),
            participants: copy_ids(&self.participants),
            created_at: self.created_at,
        }
    }
}

/// One user following another.
#[derive(Clone, Debug)]
pub struct Follow {
    pub id: u64,
    pub follower_id: u64,
    pub following_id: u64,
    pub created_at: u64,
}

pub struct FollowView {
    pub id: u64,
    pub follower_id: u64,
    pub following_id: u64,
    pub created_at: u64,
}

impl View for Follow {
    type V = FollowView;

    open spec fn view(&self) -> FollowView {
        FollowView {
            id: self.id,
            follower_id: self.follower_id,
            following_id: self.following_id,
            created_at: self.created_at,
        }
    }
}

impl Record for Follow {
    open spec fn key_of(v: FollowView) -> u64 {
        v.id
    }

    open spec fn nums_of(v: FollowView) -> Seq<u64> {
        seq![v.id, v.follower_id, v.following_id, v.created_at]
    }

    open spec fn texts_of(v: FollowView) -> Seq<Seq<char>> {
        Seq::empty()
    }

    fn key(&self) -> (r: u64) {
        self.id
    }

    fn to_fields(&self) -> (r: (Vec<u64>, Vec<String>)) {
        let nums = vec![self.id, self.follower_id, self.following_id, self.created_at];
        let texts: Vec<String> = Vec::new();
        assert(texts_view(texts@) =~= Self::texts_of(self@));
        assert(nums@ =~= Self::nums_of(self@));
        (nums, texts)
    }

    fn from_fields(nums: Vec<u64>, texts: Vec<String>) -> (r: Option<Follow>) {
        if nums.len() != 4 || texts.len() != 0 {
            assert forall|v: FollowView| #[trigger] Self::nums_of(v) == nums@ && Self::texts_of(v)
                == texts_view(texts@) implies false by {
                assert(Self::nums_of(v).len() == 4);
                assert(texts_view(texts@).len() == texts@.len());
            }
            return None;
        }
        let f = Follow {
            id: nums[0],
            follower_id: nums[1],
            following_id: nums[2],
            created_at: nums[3],
        };
        assert forall|v: FollowView| #[trigger]
            Self::nums_of(v) == nums@ && Self::texts_of(v) == texts_view(texts@) implies f@ == v by {
            assert(Self::nums_of(v)[0] == nums@[0] && Self::nums_of(v)[1] == nums@[1]
                && Self::nums_of(v)[2] == nums@[2] && Self::nums_of(v)[3] == nums@[3]);
        }
        Some(f)
    }

    fn duplicate(&self) -> (r: Follow) {
        Follow {
            id: self.id,
            follower_id: self.follower_id,
            following_id: self.following_id,
            created_at: self.created_at,
        }
    }
}

} // verus!
