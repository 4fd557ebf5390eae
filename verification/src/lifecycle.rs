//! The quest lifecycle: creation, metadata edits, page writes, and the
//! one-way publish transition. Every mutating operation resolves the
//! caller's session first and checks ownership; errors leave the platform
//! untouched.

use vstd::prelude::*;

use crate::auth::opt_str_view;
use crate::auth::spec_resolve;
use crate::model::ApiError;
use crate::model::QuestId;
use crate::model::QuestInfo;
use crate::store::PageRecord;
use crate::store::PageView;
use crate::store::Platform;
use crate::store::PlatformView;
use crate::store::QuestRecord;
use crate::store::QuestView;
use crate::store::lemma_quest_map_absent;
use crate::store::lemma_quest_map_index;
use crate::store::lemma_quest_map_push;
use crate::store::lemma_quest_map_update;

verus! {

impl Platform {
    /// Finds the list slot of a quest, tying it to the map view.
    pub(crate) fn find_quest_index(&self, id: QuestId) -> (r: Option<usize>)
        requires
            self.wf(),
        ensures
            match r {
                Some(k) => k < self.quests@.len() && self.quests@[k as int].id == id
                    && self@.quests.contains_key(id.0) && self@.quests[id.0]
                    == self.quests@[k as int]@,
                None => !self@.quests.contains_key(id.0),
            },
    {
        let mut i: usize = 0;
        while i < self.quests.len()
            invariant
                self.wf(),
                0 <= i <= self.quests@.len(),
                forall|j: int| 0 <= j < i ==> self.quests@[j].id.0 != id.0,
            decreases self.quests@.len() - i,
        {
            if self.quests[i].id.0 == id.0 {
                proof {
                    lemma_quest_map_index(self.quests@, i as int);
                }
                return Some(i);
            }
            i = i + 1;
        }
        proof {
            lemma_quest_map_absent(self.quests@, id.0);
        }
        None
    }

    /// Creates a quest under a caller-supplied fresh identifier: an empty
    /// shell with no pages, empty title and description, unpublished. An
    /// identifier already in use is refused as an internal error, the way a
    /// storage key conflict would surface.
    pub fn create_quest_with_id(&mut self, session: Option<&str>, new_id: u128) -> (r: Result<
        QuestId,
        ApiError,
    >)
        requires
            old(self).wf(),
        ensures
            final(self).wf(),
            crate::store::published_monotone(old(self)@.quests, final(self)@.quests),
            match spec_resolve(old(self)@, opt_str_view(session)) {
                Err(e) => r == Err::<QuestId, ApiError>(e) && final(self)@ == old(self)@,
                Ok(caller) => if old(self)@.quests.contains_key(new_id) {
                    r == Err::<QuestId, ApiError>(ApiError::InternalError) && final(self)@
                        == old(self)@
                } else {
                    r == Ok::<QuestId, ApiError>(QuestId(new_id)) && final(self)@
                        == PlatformView {
                        quests: old(self)@.quests.insert(
                            new_id,
                            QuestView {
                                owner: caller,
                                title: Seq::empty(),
                                description: Seq::empty(),
                                published: false,
                                pages: Seq::empty(),
                            },
                        ),
                        ..old(self)@
                    }
                },
            },
    {
        let caller = match self.resolve_session(session) {
            Err(e) => {
                return Err(e);
            },
            Ok(u) => u,
        };
        if self.find_quest_index(QuestId(new_id)).is_some() {
            return Err(ApiError::InternalError);
        }
        let record = QuestRecord {
            id: QuestId(new_id),
            owner: caller,
            title: String::new(),
            description: String::new(),
            published: false,
            pages: Vec::new(),
        };
        let ghost pre = self.quests@;
        proof {
            lemma_quest_map_push(pre, record);
            assert(record@.pages =~= Seq::<PageView>::empty());
            assert(record@.title =~= Seq::<char>::empty());
            assert(record@.description =~= Seq::<char>::empty());
        }
        self.quests.push(record);
        proof {
            assert forall|i: int, j: int|
                0 <= i < j < self.quests@.len() implies self.quests@[i].id.0
                != self.quests@[j].id.0 by {
                if j == pre.len() && self.quests@[i].id.0 == new_id {
                    lemma_quest_map_index(pre, i);
                }
            }
            assert forall|i: int|
                0 <= i < self.progress@.len() implies self@.quests.contains_key(
                #[trigger] self.progress@[i].quest_id.0,
            ) && self@.quests[self.progress@[i].quest_id.0].published
                && self.progress@[i].completed_pages
                <= self@.quests[self.progress@[i].quest_id.0].pages.len() by {
                assert(quest_map_of(pre).contains_key(self.progress@[i].quest_id.0));
                assert(self.progress@[i].quest_id.0 != new_id);
            }
        }
        Ok(QuestId(new_id))
    }

    /// Creates a quest under a freshly drawn random identifier. The draw
    /// can collide with an existing quest, in which case the call fails as
    /// an internal error and changes nothing.
    pub fn create_quest(&mut self, session: Option<&str>) -> (r: Result<QuestId, ApiError>)
        requires
            old(self).wf(),
        ensures
            final(self).wf(),
            crate::store::published_monotone(old(self)@.quests, final(self)@.quests),
            match spec_resolve(old(self)@, opt_str_view(session)) {
                Err(e) => r == Err::<QuestId, ApiError>(e) && final(self)@ == old(self)@,
                Ok(caller) => match r {
                    Err(e) => e == ApiError::InternalError && final(self)@ == old(self)@,
                    Ok(qid) => !old(self)@.quests.contains_key(qid.0) && final(self)@
                        == PlatformView {
                        quests: old(self)@.quests.insert(
                            qid.0,
                            QuestView {
                                owner: caller,
                                title: Seq::empty(),
                                description: Seq::empty(),
                                published: false,
                                pages: Seq::empty(),
                            },
                        ),
                        ..old(self)@
                    },
                },
            },
    {
        let new_id = crate::external::fresh_id();
        self.create_quest_with_id(session, new_id)
    }

    /// Reads a quest's public metadata. The page count is the number of
    /// written page slots.
    pub fn get_quest_info(&self, quest: QuestId) -> (r: Result<QuestInfo, ApiError>)
        requires
            self.wf(),
        ensures
            if self@.quests.contains_key(quest.0) {
                r matches Ok(info) && {
                    let q = self@.quests[quest.0];
                    &&& info.id == quest
                    &&& info.owner == q.owner
                    &&& info.title@ == q.title
                    &&& info.description@ == q.description
                    &&& info.pages == q.pages.len()
                    &&& info.published == q.published
                }
            } else {
                r == Err::<QuestInfo, ApiError>(ApiError::QuestNotFound)
            },
    {
        let Some(k) = self.find_quest_index(quest) else {
            return Err(ApiError::QuestNotFound);
        };
        let q = &self.quests[k];
        Ok(
            QuestInfo {
                id: quest,
                owner: q.owner,
                title: q.title.clone(),
                description: q.description.clone(),
                pages: q.pages.len() as u32,
                published: q.published,
            },
        )
    }

    /// Replaces a quest's title and description with the payload's, owner
    /// only. Owner, pages and the published flag are untouched whatever the
    /// payload carries for them: the update is scoped to the two text
    /// fields.
    pub fn partial_update_quest_info(&mut self, session: Option<&str>, payload: &QuestInfo) -> (r:
        Result<(), ApiError>)
        requires
            old(self).wf(),
        ensures
            final(self).wf(),
            crate::store::published_monotone(old(self)@.quests, final(self)@.quests),
            match spec_resolve(old(self)@, opt_str_view(session)) {
                Err(e) => r == Err::<(), ApiError>(e) && final(self)@ == old(self)@,
                Ok(caller) => if !old(self)@.quests.contains_key(payload.id.0) {
                    r == Err::<(), ApiError>(ApiError::QuestNotFound) && final(self)@ == old(
                        self,
                    )@
                } else if old(self)@.quests[payload.id.0].owner != caller {
                    r == Err::<(), ApiError>(ApiError::Unauthorized) && final(self)@ == old(
                        self,
                    )@
                } else {
                    r == Ok::<(), ApiError>(()) && final(self)@ == PlatformView {
                        quests: old(self)@.quests.insert(
                            payload.id.0,
                            QuestView {
                                title: payload.title@,
                                description: payload.description@,
                                ..old(self)@.quests[payload.id.0]
                            },
                        ),
                        ..old(self)@
                    }
                },
            },
    {
        let caller = match self.resolve_session(session) {
            Err(e) => {
                return Err(e);
            },
            Ok(u) => u,
        };
        let Some(k) = self.find_quest_index(payload.id) else {
            return Err(ApiError::QuestNotFound);
        };
        if self.quests[k].owner.0 != caller.0 {
            return Err(ApiError::Unauthorized);
        }
        let ghost pre = self.quests@;
        let mut record = self.quests[k].clone_record();
        record.title = payload.title.clone();
        record.description = payload.description.clone();
        proof {
            lemma_quest_map_update(pre, k as int, record);
        }
        self.quests.set(k, record);
        proof {
            self.lemma_quest_entry_update_keeps_wf(pre, k as int);
        }
        Ok(())
    }

    /// Writes one page of a quest, owner only. Index `pages` appends the
    /// next page; a lower index overwrites that page; a higher one is
    /// refused, so the page list stays dense. Appending and writing the
    /// content are one step: the count can never run ahead of the written
    /// slots.
    pub fn update_quest_page(
        &mut self,
        session: Option<&str>,
        quest: QuestId,
        page: u32,
        source: &str,
        time_limit_seconds: Option<u32>,
    ) -> (r: Result<(), ApiError>)
        requires
            old(self).wf(),
        ensures
            final(self).wf(),
            crate::store::published_monotone(old(self)@.quests, final(self)@.quests),
            match spec_resolve(old(self)@, opt_str_view(session)) {
                Err(e) => r == Err::<(), ApiError>(e) && final(self)@ == old(self)@,
                Ok(caller) => if !old(self)@.quests.contains_key(quest.0) {
                    r == Err::<(), ApiError>(ApiError::QuestNotFound) && final(self)@ == old(
                        self,
                    )@
                } else if old(self)@.quests[quest.0].owner != caller {
                    r == Err::<(), ApiError>(ApiError::Unauthorized) && final(self)@ == old(
                        self,
                    )@
                } else if page > old(self)@.quests[quest.0].pages.len() || page == u32::MAX {
                    r == Err::<(), ApiError>(ApiError::PageIndexTooHigh) && final(self)@ == old(
                        self,
                    )@
                } else {
                    let q = old(self)@.quests[quest.0];
                    let entry = PageView { source: source@, time_limit_seconds };
                    let pages = if page == q.pages.len() {
                        q.pages.push(entry)
                    } else {
                        q.pages.update(page as int, entry)
                    };
                    r == Ok::<(), ApiError>(()) && final(self)@ == PlatformView {
                        quests: old(self)@.quests.insert(quest.0, QuestView { pages, ..q }),
                        ..old(self)@
                    }
                },
            },
    {
        let caller = match self.resolve_session(session) {
            Err(e) => {
                return Err(e);
            },
            Ok(u) => u,
        };
        let Some(k) = self.find_quest_index(quest) else {
            return Err(ApiError::QuestNotFound);
        };
        if self.quests[k].owner.0 != caller.0 {
            return Err(ApiError::Unauthorized);
        }
        let count = self.quests[k].pages.len();
        if (page as usize) > count || page == u32::MAX {
            return Err(ApiError::PageIndexTooHigh);
        }
        let ghost pre = self.quests@;
        let mut record = self.quests[k].clone_record();
        let entry = PageRecord { source: String::from_str(source), time_limit_seconds };
        let ghost oldpages = record.pages.deep_view();
        if (page as usize) == count {
            record.pages.push(entry);
            proof {
                assert(record.pages.deep_view() =~= oldpages.push(
                    PageView { source: source@, time_limit_seconds },
                ));
            }
        } else {
            record.pages.set(page as usize, entry);
            proof {
                assert(record.pages.deep_view() =~= oldpages.update(
                    page as int,
                    PageView { source: source@, time_limit_seconds },
                ));
            }
        }
        proof {
            lemma_quest_map_update(pre, k as int, record);
        }
        self.quests.set(k, record);
        proof {
            self.lemma_quest_entry_update_keeps_wf(pre, k as int);
        }
        Ok(())
    }

    /// Publishes a quest, owner only: flips `published` to true, once. A
    /// second publish is refused, and nothing in the library ever clears
    /// the flag again.
    pub fn publish_quest(&mut self, session: Option<&str>, quest: QuestId) -> (r: Result<
        (),
        ApiError,
    >)
        requires
            old(self).wf(),
        ensures
            final(self).wf(),
            crate::store::published_monotone(old(self)@.quests, final(self)@.quests),
            match spec_resolve(old(self)@, opt_str_view(session)) {
                Err(e) => r == Err::<(), ApiError>(e) && final(self)@ == old(self)@,
                Ok(caller) => if !old(self)@.quests.contains_key(quest.0) {
                    r == Err::<(), ApiError>(ApiError::QuestNotFound) && final(self)@ == old(
                        self,
                    )@
                } else if old(self)@.quests[quest.0].owner != caller {
                    r == Err::<(), ApiError>(ApiError::Unauthorized) && final(self)@ == old(
                        self,
                    )@
                } else if old(self)@.quests[quest.0].published {
                    r == Err::<(), ApiError>(ApiError::AlreadyPublished) && final(self)@ == old(
                        self,
                    )@
                } else {
                    r == Ok::<(), ApiError>(()) && final(self)@ == PlatformView {
                        quests: old(self)@.quests.insert(
                            quest.0,
                            QuestView { published: true, ..old(self)@.quests[quest.0] },
                        ),
                        ..old(self)@
                    }
                },
            },
    {
        let caller = match self.resolve_session(session) {
            Err(e) => {
                return Err(e);
            },
            Ok(u) => u,
        };
        let Some(k) = self.find_quest_index(quest) else {
            return Err(ApiError::QuestNotFound);
        };
        if self.quests[k].owner.0 != caller.0 {
            return Err(ApiError::Unauthorized);
        }
        if self.quests[k].published {
            return Err(ApiError::AlreadyPublished);
        }
        let ghost pre = self.quests@;
        let mut record = self.quests[k].clone_record();
        record.published = true;
        proof {
            lemma_quest_map_update(pre, k as int, record);
        }
        self.quests.set(k, record);
        proof {
            self.lemma_quest_entry_update_keeps_wf(pre, k as int);
        }
        Ok(())
    }

    /// Reads one page's raw source, owner only: the authoring view of a
    /// page. A slot that was never written is reported as such.
    pub fn get_quest_page(&self, session: Option<&str>, quest: QuestId, page: u32) -> (r: Result<
        String,
        ApiError,
    >)
        requires
            self.wf(),
        ensures
            match spec_resolve(self@, opt_str_view(session)) {
                Err(e) => r == Err::<String, ApiError>(e),
                Ok(caller) => if !self@.quests.contains_key(quest.0) {
                    r == Err::<String, ApiError>(ApiError::QuestNotFound)
                } else if self@.quests[quest.0].owner != caller {
                    r == Err::<String, ApiError>(ApiError::Unauthorized)
                } else if page >= self@.quests[quest.0].pages.len() {
                    r == Err::<String, ApiError>(ApiError::PageNotFound)
                } else {
                    r matches Ok(s) && s@ == self@.quests[quest.0].pages[page as int].source
                },
            },
    {
        let caller = match self.resolve_session(session) {
            Err(e) => {
                return Err(e);
            },
            Ok(u) => u,
        };
        let Some(k) = self.find_quest_index(quest) else {
            return Err(ApiError::QuestNotFound);
        };
        if self.quests[k].owner.0 != caller.0 {
            return Err(ApiError::Unauthorized);
        }
        if (page as usize) >= self.quests[k].pages.len() {
            return Err(ApiError::PageNotFound);
        }
        Ok(self.quests[k].pages[page as usize].source.clone())
    }

    /// Replacing one quest record with another of the same id and owner
    /// that is published at least as much and has at least as many pages
    /// keeps the platform well-formed.
    proof fn lemma_quest_entry_update_keeps_wf(&self, pre: Seq<QuestRecord>, k: int)
        requires
            0 <= k < pre.len(),
            self.quests@.len() == pre.len(),
            forall|j: int| 0 <= j < pre.len() && j != k ==> self.quests@[j] == pre[j],
            self.quests@[k].id == pre[k].id,
            self.quests@[k].pages@.len() >= pre[k].pages@.len(),
            self.quests@[k].pages@.len() <= u32::MAX,
            pre[k].published ==> self.quests@[k].published,
            forall|i: int, j: int| 0 <= i < j < pre.len() ==> pre[i].id.0 != pre[j].id.0,
            forall|i: int| 0 <= i < pre.len() ==> #[trigger] pre[i].pages@.len() <= u32::MAX,
            forall|i: int, j: int|
                0 <= i < j < self.users@.len() ==> self.users@[i].id.0 != self.users@[j].id.0,
            forall|i: int, j: int|
                0 <= i < j < self.users@.len() ==> self.users@[i].name@ != self.users@[j].name@,
            forall|i: int, j: int|
                0 <= i < j < self.users@.len() ==> self.users@[i].email@
                    != self.users@[j].email@,
            forall|i: int, j: int|
                0 <= i < j < self.progress@.len() ==> (
                self.progress@[i].user_id.0,
                self.progress@[i].quest_id.0,
                ) != (self.progress@[j].user_id.0, self.progress@[j].quest_id.0),
            forall|i: int, j: int|
                0 <= i < j < self.sessions@.len() ==> self.sessions@[i].token.0
                    != self.sessions@[j].token.0,
            forall|i: int|
                0 <= i < self.progress@.len() ==> quest_map_of(pre).contains_key(
                    #[trigger] self.progress@[i].quest_id.0,
                ),
            forall|i: int|
                0 <= i < self.progress@.len() ==> quest_map_of(pre)[
                    #[trigger] self.progress@[i].quest_id.0
                ].published,
            forall|i: int|
                0 <= i < self.progress@.len() ==> #[trigger] self.progress@[i].completed_pages
                    <= quest_map_of(pre)[self.progress@[i].quest_id.0].pages.len(),
            forall|i: int|
                0 <= i < self.progress@.len() ==> (#[trigger] self.progress@[i].rating is Some
                    ==> self.progress@[i].finished_at is Some),
        ensures
            self.wf(),
    {
        let post = self.quests@;
        assert(post =~= pre.update(k, post[k]));
        lemma_quest_map_update(pre, k, post[k]);
        assert forall|i: int| 0 <= i < self.progress@.len() implies self@.quests.contains_key(
            #[trigger] self.progress@[i].quest_id.0,
        ) && self@.quests[self.progress@[i].quest_id.0].published
            && self.progress@[i].completed_pages
            <= self@.quests[self.progress@[i].quest_id.0].pages.len() by {
            let qid = self.progress@[i].quest_id.0;
            if qid == post[k].id.0 {
                lemma_quest_map_index(pre, k);
            }
        }
    }
}

/// The quests of a record list as a map; a free-function alias usable in
/// lemma contracts.
pub open spec fn quest_map_of(s: Seq<QuestRecord>) -> Map<u128, QuestView> {
    crate::store::quest_map(s)
}

} // verus!
