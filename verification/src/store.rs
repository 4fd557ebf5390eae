//! The platform's state: users, quests with their pages, per-player
//! progress records, and live sessions, all held in memory. Every operation
//! of the public surface runs against this one structure, and its view is a
//! quadruple of maps that the operations' contracts speak of.
//!
//! A quest's page count is not a stored field: it is the length of the
//! quest's page list, so the count and the written slots cannot drift
//! apart, and appending a page and writing its content are one step.
//!
//! Every mutating operation takes the platform exclusively, so writes are
//! serialized by construction; a server that handles connections
//! concurrently puts this structure behind one lock.

use vstd::prelude::*;

use crate::model::QuestId;
use crate::model::SessionKey;
use crate::model::Timestamp;
use crate::model::UserId;

verus! {

/// A registered user as the store keeps it.
#[derive(Debug, Clone, PartialEq, Eq)]
pub struct UserRecord {
    pub id: UserId,
    pub name: String,
    pub email: String,
    pub pass_digest: String,
}

/// The mathematical shape of a stored user, keyed by id in the store view.
pub struct UserView {
    pub name: Seq<char>,
    pub email: Seq<char>,
    pub pass_digest: Seq<char>,
}

impl View for UserRecord {
    type V = UserView;

    open spec fn view(&self) -> UserView {
        UserView { name: self.name@, email: self.email@, pass_digest: self.pass_digest@ }
    }
}

/// One authored page: its raw source, stored verbatim and never parsed at
/// write time, and an optional per-page time limit. The limit is inert
/// metadata; nothing in the library enforces it.
#[derive(Debug, Clone, PartialEq, Eq)]
pub struct PageRecord {
    pub source: String,
    pub time_limit_seconds: Option<u32>,
}

/// The mathematical shape of a stored page.
pub struct PageView {
    pub source: Seq<char>,
    pub time_limit_seconds: Option<u32>,
}

impl View for PageRecord {
    type V = PageView;

    open spec fn view(&self) -> PageView {
        PageView { source: self.source@, time_limit_seconds: self.time_limit_seconds }
    }
}

impl DeepView for PageRecord {
    type V = PageView;

    open spec fn deep_view(&self) -> PageView {
        self.view()
    }
}

/// A quest as the store keeps it: metadata and the dense list of its
/// pages, slot `i` holding page index `i`.
#[derive(Debug, Clone, PartialEq, Eq)]
pub struct QuestRecord {
    pub id: QuestId,
    pub owner: UserId,
    pub title: String,
    pub description: String,
    pub published: bool,
    pub pages: Vec<PageRecord>,
}

/// The mathematical shape of a stored quest, keyed by id in the store view.
pub struct QuestView {
    pub owner: UserId,
    pub title: Seq<char>,
    pub description: Seq<char>,
    pub published: bool,
    pub pages: Seq<PageView>,
}

impl View for QuestRecord {
    type V = QuestView;

    open spec fn view(&self) -> QuestView {
        QuestView {
            owner: self.owner,
            title: self.title@,
            description: self.description@,
            published: self.published,
            pages: self.pages.deep_view(),
        }
    }
}

/// One player's progress through one quest, keyed by the pair of their
/// identifiers in the store view.
#[derive(Debug, Clone, PartialEq, Eq)]
pub struct ProgressRecord {
    pub user_id: UserId,
    pub quest_id: QuestId,
    pub started_at: Timestamp,
    pub finished_at: Option<Timestamp>,
    /// The next page index the player must request: every lower index is
    /// completed.
    pub completed_pages: u32,
    pub rating: Option<u32>,
    pub comment: Option<String>,
}

/// The mathematical shape of a stored progress record.
pub struct ProgressView {
    pub started_at: Timestamp,
    pub finished_at: Option<Timestamp>,
    pub completed_pages: u32,
    pub rating: Option<u32>,
    pub comment: Option<Seq<char>>,
}

impl View for ProgressRecord {
    type V = ProgressView;

    open spec fn view(&self) -> ProgressView {
        ProgressView {
            started_at: self.started_at,
            finished_at: self.finished_at,
            completed_pages: self.completed_pages,
            rating: self.rating,
            comment: match &self.comment {
                None => None,
                Some(c) => Some(c@),
            },
        }
    }
}

/// One live session: an opaque token standing for a user.
#[derive(Debug, Clone, Copy, PartialEq, Eq, Structural)]
pub struct SessionRecord {
    pub token: SessionKey,
    pub user_id: UserId,
}

/// Publication is one-way: every quest published before is still there and
/// still published after. Every mutating operation of the public surface
/// promises this of its whole effect.
pub open spec fn published_monotone(
    pre: Map<u128, QuestView>,
    post: Map<u128, QuestView>,
) -> bool {
    forall|q: u128|
        pre.contains_key(q) && pre[q].published ==> #[trigger] post.contains_key(q)
            && post[q].published
}

impl PageRecord {
    /// Copies the page, field for field.
    pub fn clone_page(&self) -> (r: PageRecord)
        ensures
            r == *self,
    {
        PageRecord {
            source: self.source.clone(),
            time_limit_seconds: self.time_limit_seconds,
        }
    }
}

impl QuestRecord {
    /// Copies the quest record, field for field.
    pub fn clone_record(&self) -> (r: QuestRecord)
        ensures
            r.id == self.id,
            r.owner == self.owner,
            r.title == self.title,
            r.description == self.description,
            r.published == self.published,
            r.pages@ == self.pages@,
            r@ == self@,
    {
        let mut pages: Vec<PageRecord> = Vec::new();
        let mut i: usize = 0;
        while i < self.pages.len()
            invariant
                0 <= i <= self.pages@.len(),
                pages@ == self.pages@.subrange(0, i as int),
            decreases self.pages@.len() - i,
        {
            pages.push(self.pages[i].clone_page());
            proof {
                assert(pages@ =~= self.pages@.subrange(0, i + 1));
            }
            i = i + 1;
        }
        proof {
            assert(self.pages@.subrange(0, self.pages@.len() as int) =~= self.pages@);
        }
        QuestRecord {
            id: self.id,
            owner: self.owner,
            title: self.title.clone(),
            description: self.description.clone(),
            published: self.published,
            pages,
        }
    }
}

impl ProgressRecord {
    /// Copies the record, field for field.
    pub fn clone_progress(&self) -> (r: ProgressRecord)
        ensures
            r == *self,
    {
        ProgressRecord {
            user_id: self.user_id,
            quest_id: self.quest_id,
            started_at: self.started_at,
            finished_at: self.finished_at,
            completed_pages: self.completed_pages,
            rating: self.rating,
            comment: match &self.comment {
                None => None,
                Some(c) => Some(c.clone()),
            },
        }
    }
}

/// The store's users as a map from id to record.
pub open spec fn user_map(s: Seq<UserRecord>) -> Map<u128, UserView>
    decreases s.len(),
{
    if s.len() == 0 {
        Map::empty()
    } else {
        user_map(s.drop_last()).insert(s.last().id.0, s.last()@)
    }
}

/// The store's quests as a map from id to record.
pub open spec fn quest_map(s: Seq<QuestRecord>) -> Map<u128, QuestView>
    decreases s.len(),
{
    if s.len() == 0 {
        Map::empty()
    } else {
        quest_map(s.drop_last()).insert(s.last().id.0, s.last()@)
    }
}

/// The store's progress records as a map from `(user, quest)` to record.
pub open spec fn progress_map(s: Seq<ProgressRecord>) -> Map<(u128, u128), ProgressView>
    decreases s.len(),
{
    if s.len() == 0 {
        Map::empty()
    } else {
        progress_map(s.drop_last()).insert(
            (s.last().user_id.0, s.last().quest_id.0),
            s.last()@,
        )
    }
}

/// The store's sessions as a map from token to user.
pub open spec fn session_map(s: Seq<SessionRecord>) -> Map<u128, UserId>
    decreases s.len(),
{
    if s.len() == 0 {
        Map::empty()
    } else {
        session_map(s.drop_last()).insert(s.last().token.0, s.last().user_id)
    }
}

/// The whole platform state as maps: what every contract of the public
/// surface speaks of.
pub struct PlatformView {
    pub users: Map<u128, UserView>,
    pub quests: Map<u128, QuestView>,
    pub progress: Map<(u128, u128), ProgressView>,
    pub sessions: Map<u128, UserId>,
}

/// The platform: every record the system keeps, behind the verified
/// operations of the public surface.
#[derive(Debug)]
pub struct Platform {
    pub users: Vec<UserRecord>,
    pub quests: Vec<QuestRecord>,
    pub progress: Vec<ProgressRecord>,
    pub sessions: Vec<SessionRecord>,
}

impl View for Platform {
    type V = PlatformView;

    open spec fn view(&self) -> PlatformView {
        PlatformView {
            users: user_map(self.users@),
            quests: quest_map(self.quests@),
            progress: progress_map(self.progress@),
            sessions: session_map(self.sessions@),
        }
    }
}

impl Platform {
    /// Whether the underlying record lists are keyed uniquely, so that the
    /// map view loses nothing.
    pub open spec fn keys_unique(&self) -> bool {
        &&& forall|i: int, j: int|
            0 <= i < j < self.users@.len() ==> self.users@[i].id.0 != self.users@[j].id.0
        &&& forall|i: int, j: int|
            0 <= i < j < self.users@.len() ==> self.users@[i].name@ != self.users@[j].name@
        &&& forall|i: int, j: int|
            0 <= i < j < self.users@.len() ==> self.users@[i].email@ != self.users@[j].email@
        &&& forall|i: int, j: int|
            0 <= i < j < self.quests@.len() ==> self.quests@[i].id.0 != self.quests@[j].id.0
        &&& forall|i: int, j: int|
            0 <= i < j < self.progress@.len() ==> (
            self.progress@[i].user_id.0,
            self.progress@[i].quest_id.0,
            ) != (self.progress@[j].user_id.0, self.progress@[j].quest_id.0)
        &&& forall|i: int, j: int|
            0 <= i < j < self.sessions@.len() ==> self.sessions@[i].token.0
                != self.sessions@[j].token.0
    }

    /// The platform's well-formedness: unique keys, page lists that fit the
    /// 32-bit page counter, and progress records that point at published
    /// quests, never run past the page list, and carry a rating only once
    /// finished.
    pub open spec fn wf(&self) -> bool {
        &&& self.keys_unique()
        &&& forall|i: int|
            0 <= i < self.quests@.len() ==> #[trigger] self.quests@[i].pages@.len()
                <= u32::MAX
        &&& forall|i: int|
            0 <= i < self.progress@.len() ==> self@.quests.contains_key(
                #[trigger] self.progress@[i].quest_id.0,
            )
        &&& forall|i: int|
            0 <= i < self.progress@.len() ==> self@.quests[
                #[trigger] self.progress@[i].quest_id.0
            ].published
        &&& forall|i: int|
            0 <= i < self.progress@.len() ==> #[trigger] self.progress@[i].completed_pages
                <= self@.quests[self.progress@[i].quest_id.0].pages.len()
        &&& forall|i: int|
            0 <= i < self.progress@.len() ==> (#[trigger] self.progress@[i].rating is Some
                ==> self.progress@[i].finished_at is Some)
    }

    /// An empty platform: no users, no quests, no progress, no sessions.
    pub fn new() -> (r: Platform)
        ensures
            r.wf(),
            r@.users == Map::<u128, UserView>::empty(),
            r@.quests == Map::<u128, QuestView>::empty(),
            r@.progress == Map::<(u128, u128), ProgressView>::empty(),
            r@.sessions == Map::<u128, UserId>::empty(),
    {
        Platform { users: Vec::new(), quests: Vec::new(), progress: Vec::new(), sessions: Vec::new() }
    }
}

/// A record's place in the list is its place in the map.
pub proof fn lemma_user_map_index(s: Seq<UserRecord>, k: int)
    requires
        0 <= k < s.len(),
        forall|i: int, j: int| 0 <= i < j < s.len() ==> s[i].id.0 != s[j].id.0,
    ensures
        user_map(s).contains_key(s[k].id.0),
        user_map(s)[s[k].id.0] == s[k]@,
    decreases s.len(),
{
    if k < s.len() - 1 {
        lemma_user_map_index(s.drop_last(), k);
    }
}

/// An id on no record is not in the map.
pub proof fn lemma_user_map_absent(s: Seq<UserRecord>, id: u128)
    requires
        forall|i: int| 0 <= i < s.len() ==> s[i].id.0 != id,
    ensures
        !user_map(s).contains_key(id),
    decreases s.len(),
{
    if s.len() > 0 {
        lemma_user_map_absent(s.drop_last(), id);
    }
}

/// Appending a record inserts it into the map.
pub proof fn lemma_user_map_push(s: Seq<UserRecord>, r: UserRecord)
    ensures
        user_map(s.push(r)) == user_map(s).insert(r.id.0, r@),
{
    assert(s.push(r).drop_last() =~= s);
}

/// Every key of the map has a record in the list; with unique ids, the one
/// the map carries.
pub proof fn lemma_user_map_to_index(s: Seq<UserRecord>, id: u128)
    requires
        user_map(s).contains_key(id),
        forall|i: int, j: int| 0 <= i < j < s.len() ==> s[i].id.0 != s[j].id.0,
    ensures
        exists|k: int| 0 <= k < s.len() && s[k].id.0 == id && s[k]@ == user_map(s)[id],
    decreases s.len(),
{
    if s.len() > 0 {
        if s.last().id.0 == id {
            assert(s[s.len() - 1].id.0 == id && s[s.len() - 1]@ == user_map(s)[id]);
        } else {
            lemma_user_map_to_index(s.drop_last(), id);
            let k = choose|k: int|
                0 <= k < s.drop_last().len() && s.drop_last()[k].id.0 == id
                    && s.drop_last()[k]@ == user_map(s.drop_last())[id];
            assert(s[k].id.0 == id && s[k]@ == user_map(s)[id]);
        }
    }
}

/// A record's place in the list is its place in the map.
pub proof fn lemma_quest_map_index(s: Seq<QuestRecord>, k: int)
    requires
        0 <= k < s.len(),
        forall|i: int, j: int| 0 <= i < j < s.len() ==> s[i].id.0 != s[j].id.0,
    ensures
        quest_map(s).contains_key(s[k].id.0),
        quest_map(s)[s[k].id.0] == s[k]@,
    decreases s.len(),
{
    if k < s.len() - 1 {
        lemma_quest_map_index(s.drop_last(), k);
    }
}

/// An id on no record is not in the map.
pub proof fn lemma_quest_map_absent(s: Seq<QuestRecord>, id: u128)
    requires
        forall|i: int| 0 <= i < s.len() ==> s[i].id.0 != id,
    ensures
        !quest_map(s).contains_key(id),
    decreases s.len(),
{
    if s.len() > 0 {
        lemma_quest_map_absent(s.drop_last(), id);
    }
}

/// Appending a record inserts it into the map.
pub proof fn lemma_quest_map_push(s: Seq<QuestRecord>, r: QuestRecord)
    ensures
        quest_map(s.push(r)) == quest_map(s).insert(r.id.0, r@),
{
    assert(s.push(r).drop_last() =~= s);
}

/// Overwriting a record in place updates its map entry and no other.
pub proof fn lemma_quest_map_update(s: Seq<QuestRecord>, k: int, r: QuestRecord)
    requires
        0 <= k < s.len(),
        forall|i: int, j: int| 0 <= i < j < s.len() ==> s[i].id.0 != s[j].id.0,
        r.id == s[k].id,
    ensures
        quest_map(s.update(k, r)) == quest_map(s).insert(r.id.0, r@),
    decreases s.len(),
{
    if k == s.len() - 1 {
        assert(s.update(k, r).drop_last() =~= s.drop_last());
        assert(s.update(k, r).last() == r);
        assert(quest_map(s.drop_last()).insert(s.last().id.0, s.last()@).insert(r.id.0, r@)
            =~= quest_map(s.drop_last()).insert(r.id.0, r@));
    } else {
        lemma_quest_map_update(s.drop_last(), k, r);
        assert(s.update(k, r).drop_last() =~= s.drop_last().update(k, r));
        assert(s.update(k, r).last() == s.last());
        assert(quest_map(s.drop_last()).insert(r.id.0, r@).insert(s.last().id.0, s.last()@)
            =~= quest_map(s.drop_last()).insert(s.last().id.0, s.last()@).insert(
            r.id.0,
            r@,
        ));
    }
}

/// A record's place in the list is its place in the map.
pub proof fn lemma_progress_map_index(s: Seq<ProgressRecord>, k: int)
    requires
        0 <= k < s.len(),
        forall|i: int, j: int|
            0 <= i < j < s.len() ==> (s[i].user_id.0, s[i].quest_id.0) != (
            s[j].user_id.0,
            s[j].quest_id.0,
            ),
    ensures
        progress_map(s).contains_key((s[k].user_id.0, s[k].quest_id.0)),
        progress_map(s)[(s[k].user_id.0, s[k].quest_id.0)] == s[k]@,
    decreases s.len(),
{
    if k < s.len() - 1 {
        lemma_progress_map_index(s.drop_last(), k);
    }
}

/// A key on no record is not in the map.
pub proof fn lemma_progress_map_absent(s: Seq<ProgressRecord>, key: (u128, u128))
    requires
        forall|i: int| 0 <= i < s.len() ==> (s[i].user_id.0, s[i].quest_id.0) != key,
    ensures
        !progress_map(s).contains_key(key),
    decreases s.len(),
{
    if s.len() > 0 {
        lemma_progress_map_absent(s.drop_last(), key);
    }
}

/// Appending a record inserts it into the map.
pub proof fn lemma_progress_map_push(s: Seq<ProgressRecord>, r: ProgressRecord)
    ensures
        progress_map(s.push(r)) == progress_map(s).insert((r.user_id.0, r.quest_id.0), r@),
{
    assert(s.push(r).drop_last() =~= s);
}

/// Overwriting a record in place updates its map entry and no other.
pub proof fn lemma_progress_map_update(s: Seq<ProgressRecord>, k: int, r: ProgressRecord)
    requires
        0 <= k < s.len(),
        forall|i: int, j: int|
            0 <= i < j < s.len() ==> (s[i].user_id.0, s[i].quest_id.0) != (
            s[j].user_id.0,
            s[j].quest_id.0,
            ),
        r.user_id == s[k].user_id,
        r.quest_id == s[k].quest_id,
    ensures
        progress_map(s.update(k, r)) == progress_map(s).insert(
            (r.user_id.0, r.quest_id.0),
            r@,
        ),
    decreases s.len(),
{
    let key = (r.user_id.0, r.quest_id.0);
    if k == s.len() - 1 {
        assert(s.update(k, r).drop_last() =~= s.drop_last());
        assert(s.update(k, r).last() == r);
        assert(progress_map(s.drop_last()).insert(key, s.last()@).insert(key, r@)
            =~= progress_map(s.drop_last()).insert(key, r@));
    } else {
        lemma_progress_map_update(s.drop_last(), k, r);
        assert(s.update(k, r).drop_last() =~= s.drop_last().update(k, r));
        assert(s.update(k, r).last() == s.last());
        let lkey = (s.last().user_id.0, s.last().quest_id.0);
        assert(progress_map(s.drop_last()).insert(key, r@).insert(lkey, s.last()@)
            =~= progress_map(s.drop_last()).insert(lkey, s.last()@).insert(key, r@));
    }
}

/// A record's place in the list is its place in the map.
pub proof fn lemma_session_map_index(s: Seq<SessionRecord>, k: int)
    requires
        0 <= k < s.len(),
        forall|i: int, j: int| 0 <= i < j < s.len() ==> s[i].token.0 != s[j].token.0,
    ensures
        session_map(s).contains_key(s[k].token.0),
        session_map(s)[s[k].token.0] == s[k].user_id,
    decreases s.len(),
{
    if k < s.len() - 1 {
        lemma_session_map_index(s.drop_last(), k);
    }
}

/// A token on no record is not in the map.
pub proof fn lemma_session_map_absent(s: Seq<SessionRecord>, token: u128)
    requires
        forall|i: int| 0 <= i < s.len() ==> s[i].token.0 != token,
    ensures
        !session_map(s).contains_key(token),
    decreases s.len(),
{
    if s.len() > 0 {
        lemma_session_map_absent(s.drop_last(), token);
    }
}

/// Appending a record inserts it into the map.
pub proof fn lemma_session_map_push(s: Seq<SessionRecord>, r: SessionRecord)
    ensures
        session_map(s.push(r)) == session_map(s).insert(r.token.0, r.user_id),
{
    assert(s.push(r).drop_last() =~= s);
}

/// Overwriting a record in place updates its map entry and no other.
pub proof fn lemma_session_map_update(s: Seq<SessionRecord>, k: int, r: SessionRecord)
    requires
        0 <= k < s.len(),
        forall|i: int, j: int| 0 <= i < j < s.len() ==> s[i].token.0 != s[j].token.0,
        r.token == s[k].token,
    ensures
        session_map(s.update(k, r)) == session_map(s).insert(r.token.0, r.user_id),
    decreases s.len(),
{
    if k == s.len() - 1 {
        assert(s.update(k, r).drop_last() =~= s.drop_last());
        assert(s.update(k, r).last() == r);
        assert(session_map(s.drop_last()).insert(r.token.0, s.last().user_id).insert(
            r.token.0,
            r.user_id,
        ) =~= session_map(s.drop_last()).insert(r.token.0, r.user_id));
    } else {
        lemma_session_map_update(s.drop_last(), k, r);
        assert(s.update(k, r).drop_last() =~= s.drop_last().update(k, r));
        assert(s.update(k, r).last() == s.last());
        assert(session_map(s.drop_last()).insert(r.token.0, r.user_id).insert(
            s.last().token.0,
            s.last().user_id,
        ) =~= session_map(s.drop_last()).insert(s.last().token.0, s.last().user_id).insert(
            r.token.0,
            r.user_id,
        ));
    }
}

} // verus!
