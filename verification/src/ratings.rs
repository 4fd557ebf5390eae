//! The average-rating view: for every quest owner, the ratings left on
//! their quests, aggregated and ordered best first.
//!
//! Averages are kept exact as a sum and a count; two owners compare by
//! cross-multiplying, so no division ever rounds. Owners nobody has rated
//! do not appear at all.

use vstd::prelude::*;

use crate::model::UserId;
use crate::store::Platform;
use crate::store::ProgressRecord;
use crate::store::QuestView;

verus! {

/// One owner's aggregated ratings: the sum and the count of every rating
/// left on any of their quests. The mean is `rating_sum / rating_count`.
#[derive(Debug, Clone, Copy, PartialEq, Eq, Structural)]
pub struct OwnerRating {
    pub owner: UserId,
    pub rating_sum: u64,
    pub rating_count: u64,
}

/// Whether this progress record carries a rating that counts for `owner`:
/// it is rated, and the rated quest belongs to `owner`.
pub open spec fn rated_for(
    p: ProgressRecord,
    quests: Map<u128, QuestView>,
    owner: u128,
) -> bool {
    p.rating is Some && quests.contains_key(p.quest_id.0) && quests[p.quest_id.0].owner.0
        == owner
}

/// The rating a record contributes, zero when unrated.
pub open spec fn rating_val(p: ProgressRecord) -> int {
    match p.rating {
        Some(v) => v as int,
        None => 0,
    }
}

/// The sum of the ratings left on `owner`'s quests.
pub open spec fn rating_sum(
    ps: Seq<ProgressRecord>,
    quests: Map<u128, QuestView>,
    owner: u128,
) -> int
    decreases ps.len(),
{
    if ps.len() == 0 {
        0
    } else {
        rating_sum(ps.drop_last(), quests, owner) + (if rated_for(ps.last(), quests, owner) {
            rating_val(ps.last())
        } else {
            0
        })
    }
}

/// How many ratings were left on `owner`'s quests.
pub open spec fn rating_count(
    ps: Seq<ProgressRecord>,
    quests: Map<u128, QuestView>,
    owner: u128,
) -> int
    decreases ps.len(),
{
    if ps.len() == 0 {
        0
    } else {
        rating_count(ps.drop_last(), quests, owner) + (if rated_for(
            ps.last(),
            quests,
            owner,
        ) {
            1int
        } else {
            0
        })
    }
}

/// Whether `a`'s mean rating is at least `b`'s, compared exactly by
/// cross-multiplication.
pub open spec fn rating_ge(a: OwnerRating, b: OwnerRating) -> bool {
    a.rating_sum * b.rating_count >= b.rating_sum * a.rating_count
}

/// The listing invariant that sorting must not disturb: every entry holds
/// an owner's exact sum and count, no owner appears twice, and every owner
/// with at least one rating appears.
pub open spec fn entries_exact(
    entries: Seq<OwnerRating>,
    ps: Seq<ProgressRecord>,
    quests: Map<u128, QuestView>,
) -> bool {
    &&& forall|k: int|
        0 <= k < entries.len() ==> {
            let e = #[trigger] entries[k];
            &&& e.rating_sum == rating_sum(ps, quests, e.owner.0)
            &&& e.rating_count == rating_count(ps, quests, e.owner.0)
            &&& e.rating_count > 0
        }
    &&& forall|k1: int, k2: int|
        0 <= k1 < k2 < entries.len() ==> entries[k1].owner.0 != entries[k2].owner.0
    &&& forall|o: u128|
        rating_count(ps, quests, o) > 0 ==> exists|k: int|
            #![auto]
            0 <= k < entries.len() && entries[k].owner.0 == o
}

/// Exchanges two entries.
fn swap_entries(v: &mut Vec<OwnerRating>, i: usize, j: usize)
    requires
        i < old(v)@.len(),
        j < old(v)@.len(),
    ensures
        final(v)@ == old(v)@.update(i as int, old(v)@[j as int]).update(
            j as int,
            old(v)@[i as int],
        ),
{
    let a = v[i];
    let b = v[j];
    v.set(i, b);
    v.set(j, a);
}

/// Exchanging two entries keeps the listing invariant: it speaks only of
/// which entries are there, not of where they stand.
proof fn lemma_entries_exact_swap(
    before: Seq<OwnerRating>,
    after: Seq<OwnerRating>,
    i: int,
    j: int,
    ps: Seq<ProgressRecord>,
    quests: Map<u128, QuestView>,
)
    requires
        entries_exact(before, ps, quests),
        0 <= i < before.len(),
        0 <= j < before.len(),
        after == before.update(i, before[j]).update(j, before[i]),
    ensures
        entries_exact(after, ps, quests),
{
    assert forall|k: int| 0 <= k < after.len() implies {
        let e = #[trigger] after[k];
        &&& e.rating_sum == rating_sum(ps, quests, e.owner.0)
        &&& e.rating_count == rating_count(ps, quests, e.owner.0)
        &&& e.rating_count > 0
    } by {
        if k == j {
            assert(after[k] == before[i]);
        } else if k == i {
            assert(after[k] == before[j]);
        } else {
            assert(after[k] == before[k]);
        }
    }
    assert forall|k1: int, k2: int|
        0 <= k1 < k2 < after.len() implies after[k1].owner.0 != after[k2].owner.0 by {
        let a = if k1 == j {
            i
        } else if k1 == i {
            j
        } else {
            k1
        };
        let b = if k2 == j {
            i
        } else if k2 == i {
            j
        } else {
            k2
        };
        assert(after[k1] == before[a]);
        assert(after[k2] == before[b]);
        if a < b {
            assert(before[a].owner.0 != before[b].owner.0);
        } else {
            assert(before[b].owner.0 != before[a].owner.0);
        }
    }
    assert forall|o: u128| rating_count(ps, quests, o) > 0 implies exists|k: int|
        #![auto]
        0 <= k < after.len() && after[k].owner.0 == o by {
        let w = choose|k: int| #![auto] 0 <= k < before.len() && before[k].owner.0 == o;
        let w2 = if w == i {
            j
        } else if w == j {
            i
        } else {
            w
        };
        assert(after[w2].owner.0 == o);
    }
}

impl Platform {
    /// The per-owner rating aggregates, best mean first. Exactly the
    /// owners somebody rated appear, each once, with the exact sum and
    /// count of the ratings on their quests; ties may stand in either
    /// order. The record-count bound is a machine limit that keeps the
    /// sums in 64 bits.
    pub fn get_quests_owner_rate(&self) -> (r: Vec<OwnerRating>)
        requires
            self.wf(),
            self.progress@.len() <= u32::MAX,
        ensures
            entries_exact(r@, self.progress@, self@.quests),
            forall|k1: int, k2: int| 0 <= k1 < k2 < r@.len() ==> rating_ge(r@[k1], r@[k2]),
    {
        let ghost qm = self@.quests;
        let mut acc: Vec<OwnerRating> = Vec::new();
        let mut i: usize = 0;
        proof {
            assert(self.progress@.subrange(0, 0) =~= Seq::<ProgressRecord>::empty());
        }
        while i < self.progress.len()
            invariant
                self.wf(),
                qm == self@.quests,
                self.progress@.len() <= u32::MAX,
                0 <= i <= self.progress@.len(),
                entries_exact(acc@, self.progress@.subrange(0, i as int), qm),
                forall|k: int|
                    0 <= k < acc@.len() ==> #[trigger] acc@[k].rating_count <= i
                        && acc@[k].rating_sum <= acc@[k].rating_count * 0xffff_ffff,
            decreases self.progress@.len() - i,
        {
            let ghost pre = self.progress@.subrange(0, i as int);
            let ghost cur = self.progress@.subrange(0, i + 1);
            let ghost rec = self.progress@[i as int];
            proof {
                assert(cur.drop_last() =~= pre);
                assert(cur.last() == rec);
            }
            if let Some(rate) = self.progress[i].rating {
                let quest_id = self.progress[i].quest_id;
                if let Some(qk) = self.find_quest_index(quest_id) {
                    let owner = self.quests[qk].owner;
                    proof {
                        assert forall|o: u128| o != owner.0 implies rating_sum(cur, qm, o)
                            == rating_sum(pre, qm, o) && rating_count(cur, qm, o)
                            == rating_count(pre, qm, o) by {
                            assert(!rated_for(rec, qm, o));
                        }
                        assert(rated_for(rec, qm, owner.0));
                        assert(rating_sum(cur, qm, owner.0) == rating_sum(pre, qm, owner.0)
                            + rate as int);
                        assert(rating_count(cur, qm, owner.0) == rating_count(pre, qm, owner.0)
                            + 1);
                    }
                    let mut j: usize = 0;
                    let mut found = false;
                    while j < acc.len() && !found
                        invariant
                            0 <= j <= acc@.len(),
                            found ==> j < acc@.len() && acc@[j as int].owner.0 == owner.0,
                            !found ==> forall|k: int| 0 <= k < j ==> acc@[k].owner.0
                                != owner.0,
                        decreases acc@.len() - j + (if found { 0int } else { 1 }),
                    {
                        if acc[j].owner.0 == owner.0 {
                            found = true;
                        } else {
                            j = j + 1;
                        }
                    }
                    if found {
                        let e = acc[j];
                        proof {
                            assert(e.rating_count + 1 <= 0x1_0000_0000);
                            assert((e.rating_count + 1) * 0xffff_ffff
                                <= 0xffff_ffff_0000_0000u64)
                                by (nonlinear_arith)
                                requires e.rating_count + 1 <= 0x1_0000_0000;
                            assert(e.rating_sum + rate <= (e.rating_count + 1) * 0xffff_ffff)
                                by (nonlinear_arith)
                                requires
                                    e.rating_sum <= e.rating_count * 0xffff_ffff,
                                    rate <= 0xffff_ffff;
                        }
                        let updated = OwnerRating {
                            owner: e.owner,
                            rating_sum: e.rating_sum + (rate as u64),
                            rating_count: e.rating_count + 1,
                        };
                        let ghost before = acc@;
                        acc.set(j, updated);
                        proof {
                            assert forall|k: int| 0 <= k < acc@.len() implies {
                                let en = #[trigger] acc@[k];
                                &&& en.rating_sum == rating_sum(cur, qm, en.owner.0)
                                &&& en.rating_count == rating_count(cur, qm, en.owner.0)
                                &&& en.rating_count > 0
                                &&& en.rating_count <= i + 1
                                &&& en.rating_sum <= en.rating_count * 0xffff_ffff
                            } by {
                                if k != j {
                                    assert(acc@[k] == before[k]);
                                    if k < j {
                                        assert(before[k].owner.0 != before[j as int].owner.0);
                                    } else {
                                        assert(before[j as int].owner.0 != before[k].owner.0);
                                    }
                                }
                            }
                            assert forall|k1: int, k2: int|
                                0 <= k1 < k2 < acc@.len() implies acc@[k1].owner.0
                                != acc@[k2].owner.0 by {
                                assert(acc@[k1].owner == before[k1].owner);
                                assert(acc@[k2].owner == before[k2].owner);
                            }
                            assert forall|o: u128| rating_count(cur, qm, o) > 0 implies exists|
                                k: int,
                            |
                                #![auto]
                                0 <= k < acc@.len() && acc@[k].owner.0 == o by {
                                if o == owner.0 {
                                    assert(acc@[j as int].owner.0 == o);
                                } else {
                                    let w = choose|k: int|
                                        #![auto]
                                        0 <= k < before.len() && before[k].owner.0 == o;
                                    assert(acc@[w].owner.0 == o);
                                }
                            }
                        }
                    } else {
                        let ghost before = acc@;
                        proof {
                            lemma_unlisted_owner_zero(before, pre, qm, owner.0);
                        }
                        acc.push(
                            OwnerRating { owner, rating_sum: rate as u64, rating_count: 1 },
                        );
                        proof {
                            assert forall|k: int| 0 <= k < acc@.len() implies {
                                let en = #[trigger] acc@[k];
                                &&& en.rating_sum == rating_sum(cur, qm, en.owner.0)
                                &&& en.rating_count == rating_count(cur, qm, en.owner.0)
                                &&& en.rating_count > 0
                                &&& en.rating_count <= i + 1
                                &&& en.rating_sum <= en.rating_count * 0xffff_ffff
                            } by {
                                if k < before.len() {
                                    assert(acc@[k] == before[k]);
                                    assert(before[k].owner.0 != owner.0);
                                } else {
                                    assert(acc@[k] == (OwnerRating {
                                        owner,
                                        rating_sum: rate as u64,
                                        rating_count: 1,
                                    }));
                                }
                            }
                            assert forall|k1: int, k2: int|
                                0 <= k1 < k2 < acc@.len() implies acc@[k1].owner.0
                                != acc@[k2].owner.0 by {
                                if k2 == before.len() {
                                    assert(acc@[k1] == before[k1]);
                                    assert(before[k1].owner.0 != owner.0);
                                }
                            }
                            assert forall|o: u128| rating_count(cur, qm, o) > 0 implies exists|
                                k: int,
                            |
                                #![auto]
                                0 <= k < acc@.len() && acc@[k].owner.0 == o by {
                                if o == owner.0 {
                                    assert(acc@[before.len() as int].owner.0 == o);
                                } else {
                                    let w = choose|k: int|
                                        #![auto]
                                        0 <= k < before.len() && before[k].owner.0 == o;
                                    assert(acc@[w].owner.0 == o);
                                }
                            }
                        }
                    }
                } else {
                    proof {
                        assert(false);
                    }
                }
            } else {
                proof {
                    assert forall|o: u128| #![auto] rating_sum(cur, qm, o) == rating_sum(
                        pre,
                        qm,
                        o,
                    ) && rating_count(cur, qm, o) == rating_count(pre, qm, o) by {
                        assert(!rated_for(rec, qm, o));
                    }
                }
            }
            i = i + 1;
        }
        proof {
            assert(self.progress@.subrange(0, self.progress@.len() as int)
                =~= self.progress@);
        }
        let n = acc.len();
        let mut s: usize = 0;
        while s < n
            invariant
                n == acc@.len(),
                0 <= s <= n,
                entries_exact(acc@, self.progress@, qm),
                forall|k1: int, k2: int| 0 <= k1 < k2 < s ==> rating_ge(acc@[k1], acc@[k2]),
                forall|k1: int, k2: int|
                    0 <= k1 < s <= k2 < n ==> rating_ge(acc@[k1], acc@[k2]),
            decreases n - s,
        {
            let mut m: usize = s;
            let mut j: usize = s + 1;
            while j < n
                invariant
                    entries_exact(acc@, self.progress@, qm),
                    s <= m < j <= n == acc@.len(),
                    forall|k: int| s <= k < j ==> rating_ge(acc@[m as int], #[trigger] acc@[k]),
                decreases n - j,
            {
                let a = acc[j];
                let b = acc[m];
                proof {
                    assert(a.rating_sum as int * b.rating_count as int
                        <= 0xffff_ffff_ffff_ffff * 0xffff_ffff_ffff_ffff)
                        by (nonlinear_arith)
                        requires
                            a.rating_sum <= 0xffff_ffff_ffff_ffffu64,
                            b.rating_count <= 0xffff_ffff_ffff_ffffu64;
                    assert(b.rating_sum as int * a.rating_count as int
                        <= 0xffff_ffff_ffff_ffff * 0xffff_ffff_ffff_ffff)
                        by (nonlinear_arith)
                        requires
                            b.rating_sum <= 0xffff_ffff_ffff_ffffu64,
                            a.rating_count <= 0xffff_ffff_ffff_ffffu64;
                }
                let left: u128 = (a.rating_sum as u128) * (b.rating_count as u128);
                let right: u128 = (b.rating_sum as u128) * (a.rating_count as u128);
                if left > right {
                    proof {
                        assert(rating_ge(acc@[j as int], acc@[m as int]));
                        assert forall|k: int|
                            s <= k < j + 1 implies rating_ge(
                            acc@[j as int],
                            #[trigger] acc@[k],
                        ) by {
                            if k != j {
                                assert(rating_ge(acc@[m as int], acc@[k]));
                                assert(acc@[m as int].rating_count > 0);
                                lemma_cross_trans(
                                    acc@[j as int].rating_sum as int,
                                    acc@[j as int].rating_count as int,
                                    acc@[m as int].rating_sum as int,
                                    acc@[m as int].rating_count as int,
                                    acc@[k].rating_sum as int,
                                    acc@[k].rating_count as int,
                                );
                            }
                        }
                    }
                    m = j;
                } else {
                    proof {
                        assert(rating_ge(acc@[m as int], acc@[j as int]));
                    }
                }
                j = j + 1;
            }
            let ghost before = acc@;
            swap_entries(&mut acc, s, m);
            proof {
                lemma_entries_exact_swap(
                    before,
                    acc@,
                    s as int,
                    m as int,
                    self.progress@,
                    qm,
                );
                assert forall|k1: int, k2: int|
                    0 <= k1 < s + 1 <= k2 < n implies rating_ge(acc@[k1], acc@[k2]) by {
                    let bk2 = if k2 == m {
                        s as int
                    } else {
                        k2
                    };
                    assert(acc@[k2] == before[bk2]);
                    if k1 < s {
                        assert(acc@[k1] == before[k1]);
                        assert(rating_ge(before[k1], before[bk2]));
                    } else {
                        assert(acc@[k1] == before[m as int]);
                        assert(rating_ge(before[m as int], before[bk2]));
                    }
                }
            }
            s = s + 1;
        }
        acc
    }
}

/// Transitivity of the cross-multiplied mean comparison, for non-negative
/// sums and a positive middle count.
proof fn lemma_cross_trans(sa: int, ca: int, sb: int, cb: int, sc: int, cc: int)
    by (nonlinear_arith)
    requires
        sa * cb >= sb * ca,
        sb * cc >= sc * cb,
        cb > 0,
        ca >= 0,
        cc >= 0,
        sa >= 0,
        sb >= 0,
        sc >= 0,
    ensures
        sa * cc >= sc * ca,
{
}

proof fn lemma_rating_count_nonneg(
    ps: Seq<ProgressRecord>,
    quests: Map<u128, QuestView>,
    owner: u128,
)
    ensures
        rating_count(ps, quests, owner) >= 0,
    decreases ps.len(),
{
    if ps.len() > 0 {
        lemma_rating_count_nonneg(ps.drop_last(), quests, owner);
    }
}

/// An owner missing from an exact listing has no ratings at all.
proof fn lemma_unlisted_owner_zero(
    entries: Seq<OwnerRating>,
    ps: Seq<ProgressRecord>,
    quests: Map<u128, QuestView>,
    owner: u128,
)
    requires
        entries_exact(entries, ps, quests),
        forall|k: int| 0 <= k < entries.len() ==> entries[k].owner.0 != owner,
    ensures
        rating_count(ps, quests, owner) == 0,
        rating_sum(ps, quests, owner) == 0,
    decreases ps.len(),
{
    lemma_rating_count_nonneg(ps, quests, owner);
    if rating_count(ps, quests, owner) > 0 {
        let w = choose|k: int|
            #![auto]
            0 <= k < entries.len() && entries[k].owner.0 == owner;
        assert(false);
    }
    lemma_no_ratings_no_sum(ps, quests, owner);
}

/// A zero count means a zero sum.
proof fn lemma_no_ratings_no_sum(
    ps: Seq<ProgressRecord>,
    quests: Map<u128, QuestView>,
    owner: u128,
)
    requires
        rating_count(ps, quests, owner) == 0,
    ensures
        rating_sum(ps, quests, owner) == 0,
    decreases ps.len(),
{
    if ps.len() > 0 {
        lemma_rating_count_nonneg(ps.drop_last(), quests, owner);
        if rated_for(ps.last(), quests, owner) {
            assert(false);
        }
        lemma_no_ratings_no_sum(ps.drop_last(), quests, owner);
    }
}

} // verus!
