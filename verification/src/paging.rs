//! Paged listings: the slice-window helper and the two listings built on
//! it, a user's play history and the quests they own, twenty entries to a
//! page.

use vstd::prelude::*;

use crate::auth::opt_str_view;
use crate::auth::spec_resolve;
use crate::model::ApiError;
use crate::model::QuestHistoryPage;
use crate::model::QuestHistoryRecord;
use crate::model::UserOwnedQuestRecord;
use crate::model::UserOwnedQuestsPage;
use crate::model::QUEST_HISTORY_PAGE_SIZE;
use crate::model::USER_OWNED_QUESTS_PAGE_SIZE;
use crate::store::Platform;
use crate::store::ProgressRecord;
use crate::store::QuestRecord;

verus! {

/// The window of `data` that page `page` of size `psize` shows: from
/// `psize * page` (clamped into the data, so that a request past the end
/// shows the last entry) up to `psize * (page + 1)` exclusive, cut at the
/// end of the data.
pub open spec fn spec_extract<T>(data: Seq<T>, page: int, psize: int) -> Seq<T> {
    let len = data.len() as int;
    let cap = if len == 0 {
        0
    } else {
        len - 1
    };
    let start = if psize * page < cap {
        psize * page
    } else {
        cap
    };
    let end = if psize * (page + 1) < len {
        psize * (page + 1)
    } else {
        len
    };
    data.subrange(start, end)
}

/// How many pages of size `psize` the data fills, the last one possibly
/// short.
pub open spec fn spec_total_pages(len: int, psize: int) -> int {
    (len + psize - 1) / psize
}

/// Cuts one page out of a listing. The bounds keep the index arithmetic
/// and the 32-bit page total representable; they are machine limits, not
/// part of the listing's meaning.
pub fn extract_page<const PAGE_SIZE: usize, T: Copy>(data: &[T], page: u32) -> (r: (
    Vec<T>,
    u32,
    u32,
))
    requires
        PAGE_SIZE > 0,
        PAGE_SIZE * (page as int + 1) <= usize::MAX,
        data@.len() + PAGE_SIZE <= usize::MAX,
        spec_total_pages(data@.len() as int, PAGE_SIZE as int) <= u32::MAX,
    ensures
        r.0@ == spec_extract(data@, page as int, PAGE_SIZE as int),
        r.1 == page,
        r.2 == spec_total_pages(data@.len() as int, PAGE_SIZE as int),
{
    let len = data.len();
    let cap = if len == 0 {
        0
    } else {
        len - 1
    };
    proof {
        assert(PAGE_SIZE * (page as int) <= PAGE_SIZE * (page as int + 1))
            by (nonlinear_arith)
            requires PAGE_SIZE >= 0;
        assert(page as int + 1 <= PAGE_SIZE * (page as int + 1))
            by (nonlinear_arith)
            requires PAGE_SIZE >= 1;
    }
    let lo = PAGE_SIZE * (page as usize);
    let start = if lo < cap {
        lo
    } else {
        cap
    };
    let hi = PAGE_SIZE * (page as usize + 1);
    let end = if hi < len {
        hi
    } else {
        len
    };
    let mut out: Vec<T> = Vec::new();
    let mut i: usize = start;
    proof {
        assert(start <= end);
        assert(out@ =~= data@.subrange(start as int, start as int));
    }
    while i < end
        invariant
            start <= i <= end <= data@.len(),
            out@ == data@.subrange(start as int, i as int),
        decreases end - i,
    {
        out.push(data[i]);
        proof {
            assert(out@ =~= data@.subrange(start as int, i + 1));
        }
        i = i + 1;
    }
    let total = (len + (PAGE_SIZE - 1)) / PAGE_SIZE;
    (out, page, total as u32)
}

/// One history entry as the listing shows it: the progress record without
/// its rating and comment.
pub open spec fn history_entry(p: ProgressRecord) -> QuestHistoryRecord {
    QuestHistoryRecord {
        user_id: p.user_id,
        quest_id: p.quest_id,
        started_at: p.started_at,
        finished_at: p.finished_at,
        completed_pages: p.completed_pages,
    }
}

/// A user's play history: their progress records in the order they were
/// created.
pub open spec fn user_history(ps: Seq<ProgressRecord>, user: u128) -> Seq<QuestHistoryRecord>
    decreases ps.len(),
{
    if ps.len() == 0 {
        Seq::empty()
    } else {
        user_history(ps.drop_last(), user) + (if ps.last().user_id.0 == user {
            seq![history_entry(ps.last())]
        } else {
            Seq::empty()
        })
    }
}

/// The quests a user owns, in the order they were created.
pub open spec fn owned_quests(qs: Seq<QuestRecord>, user: u128) -> Seq<UserOwnedQuestRecord>
    decreases qs.len(),
{
    if qs.len() == 0 {
        Seq::empty()
    } else {
        owned_quests(qs.drop_last(), user) + (if qs.last().owner.0 == user {
            seq![UserOwnedQuestRecord { id: qs.last().id }]
        } else {
            Seq::empty()
        })
    }
}

proof fn lemma_user_history_len(ps: Seq<ProgressRecord>, user: u128)
    ensures
        user_history(ps, user).len() <= ps.len(),
    decreases ps.len(),
{
    if ps.len() > 0 {
        lemma_user_history_len(ps.drop_last(), user);
    }
}

proof fn lemma_owned_quests_len(qs: Seq<QuestRecord>, user: u128)
    ensures
        owned_quests(qs, user).len() <= qs.len(),
    decreases qs.len(),
{
    if qs.len() > 0 {
        lemma_owned_quests_len(qs.drop_last(), user);
    }
}

impl Platform {
    /// One page of the caller's play history, newest entries last. The
    /// record-count bound is a machine limit of the 32-bit page total.
    pub fn get_applied_quests(&self, session: Option<&str>, page: u32) -> (r: Result<
        QuestHistoryPage,
        ApiError,
    >)
        requires
            self.wf(),
            self.progress@.len() <= u32::MAX,
            self.progress@.len() + QUEST_HISTORY_PAGE_SIZE <= usize::MAX,
            QUEST_HISTORY_PAGE_SIZE * (page as int + 1) <= usize::MAX,
        ensures
            match spec_resolve(self@, opt_str_view(session)) {
                Err(e) => r == Err::<QuestHistoryPage, ApiError>(e),
                Ok(caller) => r matches Ok(hp) && {
                    let hist = user_history(self.progress@, caller.0);
                    &&& hp.data@ == spec_extract(
                        hist,
                        page as int,
                        QUEST_HISTORY_PAGE_SIZE as int,
                    )
                    &&& hp.page == page
                    &&& hp.total_pages == spec_total_pages(
                        hist.len() as int,
                        QUEST_HISTORY_PAGE_SIZE as int,
                    )
                },
            },
    {
        let caller = match self.resolve_session(session) {
            Err(e) => {
                return Err(e);
            },
            Ok(u) => u,
        };
        let mut hist: Vec<QuestHistoryRecord> = Vec::new();
        let mut i: usize = 0;
        proof {
            assert(hist@ =~= user_history(self.progress@.subrange(0, 0), caller.0));
        }
        while i < self.progress.len()
            invariant
                self.wf(),
                0 <= i <= self.progress@.len(),
                hist@ == user_history(self.progress@.subrange(0, i as int), caller.0),
            decreases self.progress@.len() - i,
        {
            let p = &self.progress[i];
            if p.user_id.0 == caller.0 {
                hist.push(
                    QuestHistoryRecord {
                        user_id: p.user_id,
                        quest_id: p.quest_id,
                        started_at: p.started_at,
                        finished_at: p.finished_at,
                        completed_pages: p.completed_pages,
                    },
                );
            }
            proof {
                let sub = self.progress@.subrange(0, i + 1);
                assert(sub.drop_last() =~= self.progress@.subrange(0, i as int));
                assert(sub.last() == self.progress@[i as int]);
                assert(hist@ =~= user_history(sub, caller.0));
            }
            i = i + 1;
        }
        proof {
            assert(self.progress@.subrange(0, self.progress@.len() as int)
                =~= self.progress@);
            lemma_user_history_len(self.progress@, caller.0);
        }
        let (data, page_echo, total_pages) = extract_page::<
            QUEST_HISTORY_PAGE_SIZE,
            QuestHistoryRecord,
        >(hist.as_slice(), page);
        Ok(QuestHistoryPage { data, page: page_echo, total_pages })
    }

    /// One page of the quests the caller owns, oldest first. The
    /// record-count bound is a machine limit of the 32-bit page total.
    pub fn get_user_owned_quests(&self, session: Option<&str>, page: u32) -> (r: Result<
        UserOwnedQuestsPage,
        ApiError,
    >)
        requires
            self.wf(),
            self.quests@.len() <= u32::MAX,
            self.quests@.len() + USER_OWNED_QUESTS_PAGE_SIZE <= usize::MAX,
            USER_OWNED_QUESTS_PAGE_SIZE * (page as int + 1) <= usize::MAX,
        ensures
            match spec_resolve(self@, opt_str_view(session)) {
                Err(e) => r == Err::<UserOwnedQuestsPage, ApiError>(e),
                Ok(caller) => r matches Ok(op) && {
                    let owned = owned_quests(self.quests@, caller.0);
                    &&& op.data@ == spec_extract(
                        owned,
                        page as int,
                        USER_OWNED_QUESTS_PAGE_SIZE as int,
                    )
                    &&& op.page == page
                    &&& op.total_pages == spec_total_pages(
                        owned.len() as int,
                        USER_OWNED_QUESTS_PAGE_SIZE as int,
                    )
                },
            },
    {
        let caller = match self.resolve_session(session) {
            Err(e) => {
                return Err(e);
            },
            Ok(u) => u,
        };
        let mut owned: Vec<UserOwnedQuestRecord> = Vec::new();
        let mut i: usize = 0;
        proof {
            assert(owned@ =~= owned_quests(self.quests@.subrange(0, 0), caller.0));
        }
        while i < self.quests.len()
            invariant
                self.wf(),
                0 <= i <= self.quests@.len(),
                owned@ == owned_quests(self.quests@.subrange(0, i as int), caller.0),
            decreases self.quests@.len() - i,
        {
            if self.quests[i].owner.0 == caller.0 {
                owned.push(UserOwnedQuestRecord { id: self.quests[i].id });
            }
            proof {
                let sub = self.quests@.subrange(0, i + 1);
                assert(sub.drop_last() =~= self.quests@.subrange(0, i as int));
                assert(sub.last() == self.quests@[i as int]);
                assert(owned@ =~= owned_quests(sub, caller.0));
            }
            i = i + 1;
        }
        proof {
            assert(self.quests@.subrange(0, self.quests@.len() as int) =~= self.quests@);
            lemma_owned_quests_len(self.quests@, caller.0);
        }
        let (data, page_echo, total_pages) = extract_page::<
            USER_OWNED_QUESTS_PAGE_SIZE,
            UserOwnedQuestRecord,
        >(owned.as_slice(), page);
        Ok(UserOwnedQuestsPage { data, page: page_echo, total_pages })
    }
}

} // verus!
