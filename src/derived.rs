//! Read-only views computed from the records of a scan.
use crate::record::{Activity, ActivityView, Follow, FollowView, Record, User, UserView};
use crate::store::views;
use vstd::prelude::*;

verus! {

/// The activities logged by `user_id`.
pub open spec fn by_user(user_id: u64) -> spec_fn(ActivityView) -> bool {
    |a: ActivityView| a.user_id == user_id
}

/// The follows whose target is `user_id`.
pub open spec fn targeting(user_id: u64) -> spec_fn(FollowView) -> bool {
    |f: FollowView| f.following_id == user_id
}

/// The activities of `all` logged by `user_id`, in their order in `all`.
pub fn activities_of(all: &Vec<Activity>, user_id: u64) -> (r: Vec<Activity>)
    ensures
        views(r@) == views(all@).filter(by_user(user_id)),
{
    let mut out: Vec<Activity> = Vec::new();
    let mut i: usize = 0;
    while i < all.len()
        invariant
            i <= all@.len(),
            views(out@) == views(all@).take(i as int).filter(by_user(user_id)),
        decreases all@.len() - i,
    {
        let ghost before = views(all@).take(i as int);
        assert(views(all@).take(i as int + 1) =~= before.push(all@[i as int]@));
        proof {
            before.lemma_filter_push(all@[i as int]@, by_user(user_id));
        }
        if all[i].user_id == user_id {
            let a = all[i].duplicate();
            out.push(a);
            assert(views(out@) =~= views(out@).drop_last().push(a@));
            assert(views(out@).drop_last() =~= before.filter(by_user(user_id)));
        }
        i = i + 1;
    }
    assert(views(all@).take(i as int) =~= views(all@));
    out
}

/// The follows of `all` whose target is `user_id`, in their order in `all`.
pub fn followers_of(all: &Vec<Follow>, user_id: u64) -> (r: Vec<Follow>)
    ensures
        views(r@) == views(all@).filter(targeting(user_id)),
{
    let mut out: Vec<Follow> = Vec::new();
    let mut i: usize = 0;
    while i < all.len()
        invariant
            i <= all@.len(),
            views(out@) == views(all@).take(i as int).filter(targeting(user_id)),
        decreases all@.len() - i,
    {
        let ghost before = views(all@).take(i as int);
        assert(views(all@).take(i as int + 1) =~= before.push(all@[i as int]@));
        proof {
            before.lemma_filter_push(all@[i as int]@, targeting(user_id));
        }
        if all[i].following_id == user_id {
            let f = all[i].duplicate();
            out.push(f);
            assert(views(out@) =~= views(out@).drop_last().push(f@));
            assert(views(out@).drop_last() =~= before.filter(targeting(user_id)));
        }
        i = i + 1;
    }
    assert(views(all@).take(i as int) =~= views(all@));
    out
}

/// The largest number of users on a leaderboard.
pub const LEADERBOARD_SIZE: usize = 10;

/// Position `a` of `s` ranks before position `b`: more points, or as many
/// and earlier.
pub open spec fn ranks_before(s: Seq<UserView>, a: int, b: int) -> bool {
    s[a].points > s[b].points || (s[a].points == s[b].points && a < b)
}

/// Position `p` occurs in `order`.
pub open spec fn holds_position(order: Seq<int>, p: int) -> bool {
    exists|i: int| 0 <= i < order.len() && order[i] == p
}

/// Position `p` occurs in `order`.
spec fn holds_index(order: Seq<usize>, p: int) -> bool {
    exists|i: int| 0 <= i < order.len() && order[i] as int == p
}

/// `order` lists the positions of `s`, each once, from best to worst.
pub open spec fn is_ranking(s: Seq<UserView>, order: Seq<int>) -> bool {
    &&& order.len() == s.len()
    &&& forall|i: int| 0 <= i < order.len() ==> 0 <= #[trigger] order[i] < s.len()
    &&& forall|p: int| 0 <= p < s.len() ==> #[trigger] holds_position(order, p)
    &&& forall|i: int, j: int|
        0 <= i < j < order.len() ==> ranks_before(s, #[trigger] order[i], #[trigger] order[j])
}

/// The positions of `users` from most points to fewest; among equal points,
/// earlier positions first.
pub fn ranking(users: &Vec<User>) -> (r: Vec<usize>)
    ensures
        is_ranking(views(users@), r@.map_values(|p: usize| p as int)),
{
    let ghost s = views(users@);
    let mut order: Vec<usize> = Vec::new();
    let mut n: usize = 0;
    while n < users.len()
        invariant
            n <= users@.len(),
            s == views(users@),
            order@.len() == n,
            forall|i: int| 0 <= i < order@.len() ==> #[trigger] order@[i] < n,
            forall|p: int| 0 <= p < n ==> #[trigger] holds_index(order@, p),
            forall|i: int, j: int|
                0 <= i < j < order@.len() ==> ranks_before(
                    s,
                    #[trigger] order@[i] as int,
                    #[trigger] order@[j] as int,
                ),
        decreases users@.len() - n,
    {
        let points = users[n].points;
        let mut pos: usize = 0;
        while pos < order.len() && users[order[pos]].points >= points
            invariant
                n < users@.len(),
                s == views(users@),
                order@.len() == n,
                pos <= order@.len(),
                forall|i: int| 0 <= i < order@.len() ==> #[trigger] order@[i] < n,
                forall|i: int| 0 <= i < pos ==> s[#[trigger] order@[i] as int].points >= points,
            decreases order@.len() - pos,
        {
            pos = pos + 1;
        }
        let ghost old_order = order@;
        order.insert(pos, n);
        proof {
            assert(order@ == old_order.insert(pos as int, n));
            assert forall|i: int, j: int| 0 <= i < j < order@.len() implies ranks_before(
                s,
                #[trigger] order@[i] as int,
                #[trigger] order@[j] as int,
            ) by {
                if j < pos {
                    assert(order@[i] == old_order[i] && order@[j] == old_order[j]);
                } else if j == pos {
                    assert(order@[i] == old_order[i]);
                } else if i == pos {
                    assert(order@[j] == old_order[j - 1]);
                    assert(s[old_order[pos as int] as int].points < points);
                    if j - 1 > pos {
                        assert(ranks_before(s, old_order[pos as int] as int, old_order[j - 1] as int));
                    }
                } else if i < pos {
                    assert(order@[i] == old_order[i] && order@[j] == old_order[j - 1]);
                } else {
                    assert(order@[i] == old_order[i - 1] && order@[j] == old_order[j - 1]);
                }
            }
            assert forall|p: int| 0 <= p < n + 1 implies #[trigger] holds_index(order@, p) by {
                if p == n {
                    assert(order@[pos as int] as int == p);
                } else {
                    assert(holds_index(old_order, p));
                    let i = choose|i: int| 0 <= i < old_order.len() && old_order[i] as int == p;
                    if i < pos {
                        assert(order@[i] as int == p);
                    } else {
                        assert(order@[i + 1] as int == p);
                    }
                }
            }
            assert forall|i: int| 0 <= i < order@.len() implies #[trigger] order@[i] < n + 1 by {
                if i < pos {
                    assert(order@[i] == old_order[i]);
                } else if i > pos {
                    assert(order@[i] == old_order[i - 1]);
                }
            }
        }
        n = n + 1;
    }
    proof {
        let ord = order@.map_values(|p: usize| p as int);
        assert forall|p: int| 0 <= p < s.len() implies #[trigger] holds_position(ord, p) by {
            assert(holds_index(order@, p));
            let i = choose|i: int| 0 <= i < order@.len() && order@[i] as int == p;
            assert(ord[i] == p);
        }
    }
    order
}

/// The users of `all` from most points to fewest, earlier ones first among
/// equal points, cut to the first `LEADERBOARD_SIZE`.
pub fn top_by_points(all: &Vec<User>) -> (r: Vec<User>)
    ensures
        r@.len() == if all@.len() < LEADERBOARD_SIZE {
            all@.len()
        } else {
            LEADERBOARD_SIZE as nat
        },
        exists|order: Seq<int>|
            is_ranking(views(all@), order) && forall|i: int|
                0 <= i < r@.len() ==> #[trigger] r@[i]@ == all@[order[i]]@,
{
    let order = ranking(all);
    let ghost ord = order@.map_values(|p: usize| p as int);
    let mut out: Vec<User> = Vec::new();
    let mut i: usize = 0;
    while i < order.len() && i < LEADERBOARD_SIZE
        invariant
            is_ranking(views(all@), ord),
            ord == order@.map_values(|p: usize| p as int),
            i <= order@.len(),
            i <= LEADERBOARD_SIZE,
            order@.len() == all@.len(),
            out@.len() == i,
            forall|t: int| 0 <= t < i ==> #[trigger] out@[t]@ == all@[ord[t]]@,
        decreases order@.len() - i,
    {
        assert(0 <= ord[i as int] < views(all@).len());
        out.push(all[order[i]].duplicate());
        i = i + 1;
    }
    out
}

/// A sequence of users has one ranking: two orders that both rank it are
/// equal.
pub proof fn ranking_is_unique(s: Seq<UserView>, o1: Seq<int>, o2: Seq<int>)
    requires
        is_ranking(s, o1),
        is_ranking(s, o2),
    ensures
        o1 == o2,
{
    assert forall|i: int| 0 <= i < o1.len() implies o1[i] == o2[i] by {
        same_position_at(s, o1, o2, i);
    }
    assert(o1 =~= o2);
}

proof fn same_position_at(s: Seq<UserView>, o1: Seq<int>, o2: Seq<int>, i: int)
    requires
        is_ranking(s, o1),
        is_ranking(s, o2),
        0 <= i < o1.len(),
    ensures
        o1[i] == o2[i],
    decreases i,
{
    if i > 0 {
        same_position_at(s, o1, o2, i - 1);
    }
    let a = o1[i];
    let b = o2[i];
    if a != b {
        if ranks_before(s, a, b) {
            assert(holds_position(o2, a));
            let j = choose|j: int| 0 <= j < o2.len() && o2[j] == a;
            if j < i {
                same_position_at(s, o1, o2, j);
                assert(ranks_before(s, o1[j], o1[i]));
            } else {
                assert(ranks_before(s, o2[i], o2[j]));
            }
        } else {
            assert(holds_position(o1, b));
            let j = choose|j: int| 0 <= j < o1.len() && o1[j] == b;
            if j < i {
                same_position_at(s, o1, o2, j);
                assert(ranks_before(s, o2[j], o2[i]));
            } else {
                assert(ranks_before(s, o1[i], o1[j]));
            }
        }
    }
}

} // verus!
