//! The play-session progression protocol: joining a published quest,
//! requesting pages strictly in order, submitting answers, finish
//! detection, and the rating left afterwards.
//!
//! A player's progress is one counter: the next page index they must
//! request. Requesting any other index is answered with a redirect to that
//! counter, never with content; a page is completed by submitting a fully
//! correct answer sheet for it, which advances the counter by one, and
//! completing the last page stamps the record finished.

use vstd::prelude::*;

use crate::model::ApiError;
use crate::model::QuestId;
use crate::model::Timestamp;
use crate::model::UserId;
use crate::auth::opt_str_view;
use crate::auth::spec_resolve;
use crate::parser::parse_quest_page;
use crate::parser::spec_parse_page;
use crate::questions::Answer;
use crate::questions::AnswerView;
use crate::questions::AskQuestPage;
use crate::questions::PageElementView;
use crate::questions::QuestPageElement;
use crate::questions::Question;
use crate::questions::QuestionView;
use crate::questions::answer_correct;
use crate::questions::ask_page;
use crate::questions::ask_page_view;
use crate::questions::check_answer;
use crate::questions::shapes_match;
use crate::store::Platform;
use crate::store::PlatformView;
use crate::store::ProgressRecord;
use crate::store::ProgressView;
use crate::store::lemma_progress_map_absent;
use crate::store::lemma_progress_map_index;
use crate::store::lemma_progress_map_push;
use crate::store::lemma_progress_map_update;
use crate::store::published_monotone;

verus! {

/// Why a submission was not accepted.
#[derive(Debug, Clone, Copy, PartialEq, Eq, Structural)]
pub enum SubmitError {
    /// The caller already finished this quest; nothing may be submitted.
    AlreadyFinished,
    /// Not the page the player must complete next; the payload says which
    /// one is.
    PageOutOfOrder(u32),
    /// The page's stored source does not parse, so it cannot be graded.
    BadPage,
    /// The sheet does not carry one answer per question of the page.
    BadAnswerCount,
    /// Some answer's shape does not match its question's kind.
    WrongAnswerType,
    /// Some answer is wrong.
    WrongAnswer,
}

/// What the server says on the gameplay channel; one reply per client
/// message.
#[derive(Debug, PartialEq, Eq)]
pub enum WsServerMessage {
    /// The requested page in its player-safe form, or the page index the
    /// player must request instead.
    ResponsePage(Result<AskQuestPage, u32>),
    /// Whether the submitted answer sheet was accepted.
    ResponseSubmit(Result<(), SubmitError>),
    /// The session cannot continue on this page.
    RequestBail,
}

/// What a client says on the gameplay channel.
#[derive(Debug, PartialEq, Eq)]
pub enum WsClientMessage {
    /// Ask to view a page.
    RequestPage(u32),
    /// Submit one answer per question of a page.
    RequestSubmit(u32, Vec<Answer>),
}

/// The outcome of a page request.
pub enum PageOutcome {
    /// No such page, or no such session state: the gameplay channel closes.
    Terminate,
    /// Not the page the player must complete next; the payload says which
    /// one is.
    Redirect(u32),
    /// The page's stored source does not parse.
    Broken,
    /// The page, with every answer key stripped.
    Serve(AskQuestPage),
}

/// The outcome of an answer submission.
pub enum SubmitOutcome {
    /// No such page, or no such session state: the gameplay channel closes.
    Terminate,
    /// The sheet was not accepted; nothing changed.
    Rejected(SubmitError),
    /// The sheet was fully correct: the page is completed.
    Accepted,
}

/// The questions of a parsed page, in page order.
pub open spec fn page_questions(elems: Seq<PageElementView>) -> Seq<QuestionView>
    decreases elems.len(),
{
    if elems.len() == 0 {
        Seq::empty()
    } else {
        page_questions(elems.drop_last()) + (match elems.last() {
            PageElementView::Question(q) => seq![q],
            PageElementView::Text(_) => Seq::empty(),
        })
    }
}

/// Grading from question `k` on: the first failure decides, a sheet with
/// no failure passes.
pub open spec fn spec_grade_from(
    qs: Seq<QuestionView>,
    ans: Seq<AnswerView>,
    k: int,
) -> Result<(), SubmitError>
    decreases qs.len() - k,
{
    if k < 0 || k >= qs.len() {
        Ok(())
    } else if !shapes_match(qs[k], ans[k]) {
        Err(SubmitError::WrongAnswerType)
    } else if !answer_correct(qs[k], ans[k]) {
        Err(SubmitError::WrongAnswer)
    } else {
        spec_grade_from(qs, ans, k + 1)
    }
}

/// What grading an answer sheet against a page's questions yields: the
/// sheet must carry exactly one answer per question, every answer must
/// match its question's shape, and every answer must be correct.
pub open spec fn spec_grade(qs: Seq<QuestionView>, ans: Seq<AnswerView>) -> Result<
    (),
    SubmitError,
> {
    if qs.len() != ans.len() {
        Err(SubmitError::BadAnswerCount)
    } else {
        spec_grade_from(qs, ans, 0)
    }
}

/// Collects references to the questions of a parsed page, in order.
fn collect_questions<'a>(page: &'a Vec<QuestPageElement>) -> (r: Vec<&'a Question>)
    ensures
        r.deep_view() == page_questions(page.deep_view()),
{
    let mut out: Vec<&Question> = Vec::new();
    let mut i: usize = 0;
    proof {
        assert(out.deep_view() =~= page_questions(page.deep_view().subrange(0, 0)));
    }
    while i < page.len()
        invariant
            0 <= i <= page@.len(),
            out.deep_view() == page_questions(page.deep_view().subrange(0, i as int)),
        decreases page@.len() - i,
    {
        let ghost prev = out.deep_view();
        match &page[i] {
            QuestPageElement::Question(q) => {
                out.push(q);
                proof {
                    assert(out.deep_view() =~= prev.push(q@));
                }
            },
            QuestPageElement::Text(_) => {},
        }
        proof {
            let sub = page.deep_view().subrange(0, i + 1);
            assert(sub.drop_last() =~= page.deep_view().subrange(0, i as int));
            assert(sub.last() == page.deep_view()[i as int]);
            match page.deep_view()[i as int] {
                PageElementView::Question(qv) => {
                    assert(out.deep_view() =~= page_questions(sub));
                },
                PageElementView::Text(_) => {
                    assert(out.deep_view() =~= page_questions(sub));
                },
            }
        }
        i = i + 1;
    }
    proof {
        assert(page.deep_view().subrange(0, page.deep_view().len() as int)
            =~= page.deep_view());
    }
    out
}

/// Grades an answer sheet against the questions of a parsed page; the
/// executable counterpart of [`spec_grade`].
fn grade_answers(questions: &Vec<&Question>, answers: &Vec<Answer>) -> (r: Result<
    (),
    SubmitError,
>)
    ensures
        r == spec_grade(questions.deep_view(), answers.deep_view()),
{
    let ghost qs = questions.deep_view();
    let ghost ans = answers.deep_view();
    if questions.len() != answers.len() {
        return Err(SubmitError::BadAnswerCount);
    }
    let mut k: usize = 0;
    while k < questions.len()
        invariant
            0 <= k <= questions@.len() == answers@.len(),
            qs == questions.deep_view(),
            ans == answers.deep_view(),
            qs.len() == ans.len(),
            spec_grade_from(qs, ans, k as int) == spec_grade_from(qs, ans, 0),
        decreases questions@.len() - k,
    {
        match check_answer(questions[k], &answers[k]) {
            Err(_) => {
                return Err(SubmitError::WrongAnswerType);
            },
            Ok(false) => {
                return Err(SubmitError::WrongAnswer);
            },
            Ok(true) => {},
        }
        k = k + 1;
    }
    Ok(())
}

impl Platform {
    /// Finds the list slot of a progress record, tying it to the map view.
    pub(crate) fn find_progress_index(&self, user: UserId, quest: QuestId) -> (r: Option<
        usize,
    >)
        requires
            self.wf(),
        ensures
            match r {
                Some(k) => k < self.progress@.len() && self.progress@[k as int].user_id == user
                    && self.progress@[k as int].quest_id == quest
                    && self@.progress.contains_key((user.0, quest.0)) && self@.progress[
                    (user.0, quest.0)
                ] == self.progress@[k as int]@,
                None => !self@.progress.contains_key((user.0, quest.0)),
            },
    {
        let mut i: usize = 0;
        while i < self.progress.len()
            invariant
                self.wf(),
                0 <= i <= self.progress@.len(),
                forall|j: int|
                    0 <= j < i ==> (self.progress@[j].user_id.0, self.progress@[j].quest_id.0)
                        != (user.0, quest.0),
            decreases self.progress@.len() - i,
        {
            if self.progress[i].user_id.0 == user.0 && self.progress[i].quest_id.0 == quest.0 {
                proof {
                    lemma_progress_map_index(self.progress@, i as int);
                }
                return Some(i);
            }
            i = i + 1;
        }
        proof {
            lemma_progress_map_absent(self.progress@, (user.0, quest.0));
        }
        None
    }

    /// Joins a published quest at a given instant: creates the caller's
    /// progress record with nothing completed and no finish stamp. Joining
    /// twice is refused, as is joining anything unpublished.
    pub fn join_at(&mut self, session: Option<&str>, quest: QuestId, now: Timestamp) -> (r:
        Result<(), ApiError>)
        requires
            old(self).wf(),
        ensures
            final(self).wf(),
            published_monotone(old(self)@.quests, final(self)@.quests),
            match spec_resolve(old(self)@, opt_str_view(session)) {
                Err(e) => r == Err::<(), ApiError>(e) && final(self)@ == old(self)@,
                Ok(caller) => if !old(self)@.quests.contains_key(quest.0) {
                    r == Err::<(), ApiError>(ApiError::QuestNotFound) && final(self)@ == old(
                        self,
                    )@
                } else if !old(self)@.quests[quest.0].published {
                    r == Err::<(), ApiError>(ApiError::NotAccessibleBeforePublish) && final(self)@ == old(self)@
                } else if old(self)@.progress.contains_key((caller.0, quest.0)) {
                    r == Err::<(), ApiError>(ApiError::AlreadyJoined) && final(self)@ == old(
                        self,
                    )@
                } else {
                    r == Ok::<(), ApiError>(()) && final(self)@ == (PlatformView {
                        progress: old(self)@.progress.insert(
                            (caller.0, quest.0),
                            ProgressView {
                                started_at: now,
                                finished_at: None,
                                completed_pages: 0,
                                rating: None,
                                comment: None,
                            },
                        ),
                        ..old(self)@
                    })
                },
            },
    {
        let caller = match self.resolve_session(session) {
            Err(e) => {
                return Err(e);
            },
            Ok(u) => u,
        };
        let Some(k) = self.find_quest_index(quest) else {
            return Err(ApiError::QuestNotFound);
        };
        if !self.quests[k].published {
            return Err(ApiError::NotAccessibleBeforePublish);
        }
        if self.find_progress_index(caller, quest).is_some() {
            return Err(ApiError::AlreadyJoined);
        }
        let record = ProgressRecord {
            user_id: caller,
            quest_id: quest,
            started_at: now,
            finished_at: None,
            completed_pages: 0,
            rating: None,
            comment: None,
        };
        let ghost pre = self.progress@;
        proof {
            lemma_progress_map_push(pre, record);
        }
        self.progress.push(record);
        proof {
            assert forall|a: int, b: int|
                0 <= a < b < self.progress@.len() implies (
                self.progress@[a].user_id.0,
                self.progress@[a].quest_id.0,
            ) != (self.progress@[b].user_id.0, self.progress@[b].quest_id.0) by {
                if b == pre.len() && (self.progress@[a].user_id.0, self.progress@[a].quest_id.0)
                    == (caller.0, quest.0) {
                    lemma_progress_map_index(pre, a);
                }
            }
            assert(record@.comment is None);
        }
        Ok(())
    }

    /// Joins a published quest now, stamping the progress record with the
    /// clock's reading; apart from that instant, exactly [`Self::join_at`].
    pub fn quest_join(&mut self, session: Option<&str>, quest: QuestId) -> (r: Result<
        (),
        ApiError,
    >)
        requires
            old(self).wf(),
        ensures
            final(self).wf(),
            published_monotone(old(self)@.quests, final(self)@.quests),
            match spec_resolve(old(self)@, opt_str_view(session)) {
                Err(e) => r == Err::<(), ApiError>(e) && final(self)@ == old(self)@,
                Ok(caller) => if !old(self)@.quests.contains_key(quest.0) {
                    r == Err::<(), ApiError>(ApiError::QuestNotFound) && final(self)@ == old(
                        self,
                    )@
                } else if !old(self)@.quests[quest.0].published {
                    r == Err::<(), ApiError>(ApiError::NotAccessibleBeforePublish) && final(self)@ == old(self)@
                } else if old(self)@.progress.contains_key((caller.0, quest.0)) {
                    r == Err::<(), ApiError>(ApiError::AlreadyJoined) && final(self)@ == old(
                        self,
                    )@
                } else {
                    let entry = final(self)@.progress[(caller.0, quest.0)];
                    &&& r == Ok::<(), ApiError>(())
                    &&& final(self)@.progress.contains_key((caller.0, quest.0))
                    &&& entry.finished_at is None
                    &&& entry.completed_pages == 0
                    &&& entry.rating is None
                    &&& entry.comment is None
                    &&& final(self)@ == (PlatformView {
                        progress: old(self)@.progress.insert((caller.0, quest.0), entry),
                        ..old(self)@
                    })
                },
            },
    {
        let now = crate::external::now_seconds();
        self.join_at(session, quest, now)
    }

    /// Whether this player finished this quest; nothing when they never
    /// joined it.
    pub fn is_user_finished_quest(&self, user: UserId, quest: QuestId) -> (r: Option<bool>)
        requires
            self.wf(),
        ensures
            if self@.progress.contains_key((user.0, quest.0)) {
                r == Some(self@.progress[(user.0, quest.0)].finished_at is Some)
            } else {
                r is None
            },
    {
        let Some(k) = self.find_progress_index(user, quest) else {
            return None;
        };
        Some(self.progress[k].finished_at.is_some())
    }

    /// Opens a gameplay session: the caller must be authenticated, the
    /// quest published, the caller joined to it and not yet finished. On
    /// success the resolved player identity is returned and the loop
    /// around the channel may start exchanging messages.
    pub fn open_play_session(&self, session: Option<&str>, quest: QuestId) -> (r: Result<
        UserId,
        ApiError,
    >)
        requires
            self.wf(),
        ensures
            match spec_resolve(self@, opt_str_view(session)) {
                Err(e) => r == Err::<UserId, ApiError>(e),
                Ok(caller) => if !self@.quests.contains_key(quest.0) {
                    r == Err::<UserId, ApiError>(ApiError::QuestNotFound)
                } else if !self@.quests[quest.0].published {
                    r == Err::<UserId, ApiError>(ApiError::NotAccessibleBeforePublish)
                } else if !self@.progress.contains_key((caller.0, quest.0)) {
                    r == Err::<UserId, ApiError>(ApiError::NotJoined)
                } else if self@.progress[(caller.0, quest.0)].finished_at is Some {
                    r == Err::<UserId, ApiError>(ApiError::AlreadyFinished)
                } else {
                    r == Ok::<UserId, ApiError>(caller)
                },
            },
    {
        let caller = match self.resolve_session(session) {
            Err(e) => {
                return Err(e);
            },
            Ok(u) => u,
        };
        let Some(k) = self.find_quest_index(quest) else {
            return Err(ApiError::QuestNotFound);
        };
        if !self.quests[k].published {
            return Err(ApiError::NotAccessibleBeforePublish);
        }
        let Some(p) = self.find_progress_index(caller, quest) else {
            return Err(ApiError::NotJoined);
        };
        if self.progress[p].finished_at.is_some() {
            return Err(ApiError::AlreadyFinished);
        }
        Ok(caller)
    }

    /// Serves a page request. An index at or past the page count, or a
    /// request with no session state behind it, terminates the channel. An
    /// index other than the player's next page is answered with a redirect
    /// to that page and never with content. The served page is parsed from
    /// its stored source and stripped of every answer key.
    pub fn request_page(&self, user: UserId, quest: QuestId, page: u32) -> (r: PageOutcome)
        requires
            self.wf(),
        ensures
            !self@.quests.contains_key(quest.0) ==> r is Terminate,
            self@.quests.contains_key(quest.0) && page >= self@.quests[quest.0].pages.len()
                ==> r is Terminate,
            self@.quests.contains_key(quest.0) && page < self@.quests[quest.0].pages.len()
                && !self@.progress.contains_key((user.0, quest.0)) ==> r is Terminate,
            self@.quests.contains_key(quest.0) && page < self@.quests[quest.0].pages.len()
                && self@.progress.contains_key((user.0, quest.0)) ==> {
                let completed = self@.progress[(user.0, quest.0)].completed_pages;
                let source = self@.quests[quest.0].pages[page as int].source;
                if page != completed {
                    r == PageOutcome::Redirect(completed)
                } else if source.len() > u32::MAX || spec_parse_page(source) is Err {
                    r is Broken
                } else {
                    r matches PageOutcome::Serve(p) && spec_parse_page(source)
                        matches Ok(elems) && p.deep_view() == ask_page_view(elems)
                }
            },
    {
        let Some(k) = self.find_quest_index(quest) else {
            return PageOutcome::Terminate;
        };
        if (page as usize) >= self.quests[k].pages.len() {
            return PageOutcome::Terminate;
        }
        let Some(pk) = self.find_progress_index(user, quest) else {
            return PageOutcome::Terminate;
        };
        let completed = self.progress[pk].completed_pages;
        if page != completed {
            return PageOutcome::Redirect(completed);
        }
        let source = &self.quests[k].pages[page as usize].source;
        if source.as_str().unicode_len() > (u32::MAX as usize) {
            return PageOutcome::Broken;
        }
        match parse_quest_page(source.as_str()) {
            Err(_) => PageOutcome::Broken,
            Ok(elements) => PageOutcome::Serve(ask_page(&elements)),
        }
    }

    /// Grades an answer sheet for a page at a given instant and advances
    /// the player on success. Only the player's next page may be
    /// submitted; a fully correct sheet completes it, and completing the
    /// last page stamps the progress record finished with `now`. A
    /// rejected sheet changes nothing.
    pub fn submit_answers(
        &mut self,
        user: UserId,
        quest: QuestId,
        page: u32,
        answers: &Vec<Answer>,
        now: Timestamp,
    ) -> (r: SubmitOutcome)
        requires
            old(self).wf(),
        ensures
            final(self).wf(),
            published_monotone(old(self)@.quests, final(self)@.quests),
            !(r is Accepted) ==> final(self)@ == old(self)@,
            old(self)@.quests.contains_key(quest.0) ==> old(self)@.quests[quest.0].pages.len()
                <= u32::MAX,
            !old(self)@.quests.contains_key(quest.0) ==> r is Terminate,
            old(self)@.quests.contains_key(quest.0) && page >= old(self)@.quests[
                quest.0
            ].pages.len() ==> r is Terminate,
            old(self)@.quests.contains_key(quest.0) && page < old(self)@.quests[
                quest.0
            ].pages.len() && !old(self)@.progress.contains_key((user.0, quest.0))
                ==> r is Terminate,
            old(self)@.quests.contains_key(quest.0) && page < old(self)@.quests[
                quest.0
            ].pages.len() && old(self)@.progress.contains_key((user.0, quest.0)) ==> {
                let prog = old(self)@.progress[(user.0, quest.0)];
                let source = old(self)@.quests[quest.0].pages[page as int].source;
                if prog.finished_at is Some {
                    r == SubmitOutcome::Rejected(SubmitError::AlreadyFinished)
                } else if page != prog.completed_pages {
                    r == SubmitOutcome::Rejected(SubmitError::PageOutOfOrder(
                        prog.completed_pages,
                    ))
                } else if source.len() > u32::MAX || spec_parse_page(source) is Err {
                    r == SubmitOutcome::Rejected(SubmitError::BadPage)
                } else {
                    let elems = match spec_parse_page(source) {
                        Ok(e) => e,
                        Err(_) => Seq::empty(),
                    };
                    match spec_grade(page_questions(elems), answers.deep_view()) {
                        Err(e) => r == SubmitOutcome::Rejected(e),
                        Ok(_) => r is Accepted && final(self)@ == (PlatformView {
                            progress: old(self)@.progress.insert(
                                (user.0, quest.0),
                                ProgressView {
                                    completed_pages: (page + 1) as u32,
                                    finished_at: if page + 1 == old(self)@.quests[
                                        quest.0
                                    ].pages.len() {
                                        Some(now)
                                    } else {
                                        None
                                    },
                                    ..prog
                                },
                            ),
                            ..old(self)@
                        }),
                    }
                }
            },
    {
        let Some(k) = self.find_quest_index(quest) else {
            return SubmitOutcome::Terminate;
        };
        let page_count = self.quests[k].pages.len();
        if (page as usize) >= page_count {
            return SubmitOutcome::Terminate;
        }
        let Some(pk) = self.find_progress_index(user, quest) else {
            return SubmitOutcome::Terminate;
        };
        if self.progress[pk].finished_at.is_some() {
            return SubmitOutcome::Rejected(SubmitError::AlreadyFinished);
        }
        let completed = self.progress[pk].completed_pages;
        if page != completed {
            return SubmitOutcome::Rejected(SubmitError::PageOutOfOrder(completed));
        }
        let source = &self.quests[k].pages[page as usize].source;
        if source.as_str().unicode_len() > (u32::MAX as usize) {
            return SubmitOutcome::Rejected(SubmitError::BadPage);
        }
        let elements = match parse_quest_page(source.as_str()) {
            Err(_) => {
                return SubmitOutcome::Rejected(SubmitError::BadPage);
            },
            Ok(elements) => elements,
        };
        let questions = collect_questions(&elements);
        if let Err(e) = grade_answers(&questions, answers) {
            return SubmitOutcome::Rejected(e);
        }
        let ghost pre = self.progress@;
        let mut record = self.progress[pk].clone_progress();
        record.completed_pages = page + 1;
        if (page as usize) + 1 == page_count {
            record.finished_at = Some(now);
        }
        proof {
            lemma_progress_map_update(pre, pk as int, record);
        }
        self.progress.set(pk, record);
        proof {
            assert forall|i: int|
                0 <= i < self.progress@.len() implies self@.quests.contains_key(
                #[trigger] self.progress@[i].quest_id.0,
            ) && self@.quests[self.progress@[i].quest_id.0].published
                && self.progress@[i].completed_pages
                <= self@.quests[self.progress@[i].quest_id.0].pages.len() && (
            self.progress@[i].rating is Some ==> self.progress@[i].finished_at is Some) by {
                assert(pre[i].quest_id.0 == self.progress@[i].quest_id.0 || i == pk);
            }
        }
        SubmitOutcome::Accepted
    }

    /// Handles one client message of the gameplay channel and says what to
    /// send back; nothing means the channel closes. A page request never
    /// changes state; an accepted submission advances the player as
    /// [`Self::submit_answers`] says, the finish stamped with the clock's
    /// reading.
    pub fn handle_client_message(&mut self, user: UserId, quest: QuestId, msg: &WsClientMessage)
        -> (r: Option<WsServerMessage>)
        requires
            old(self).wf(),
        ensures
            final(self).wf(),
            published_monotone(old(self)@.quests, final(self)@.quests),
            match msg {
                WsClientMessage::RequestPage(_) => final(self)@ == old(self)@,
                WsClientMessage::RequestSubmit(_, _) => true,
            },
            msg matches WsClientMessage::RequestPage(page) ==> {
                let outcome_none = !old(self)@.quests.contains_key(quest.0) || *page >= old(
                    self,
                )@.quests[quest.0].pages.len() || !old(self)@.progress.contains_key(
                    (user.0, quest.0),
                );
                &&& outcome_none ==> r is None
                &&& !outcome_none ==> {
                    let completed = old(self)@.progress[(user.0, quest.0)].completed_pages;
                    let source = old(self)@.quests[quest.0].pages[*page as int].source;
                    if *page != completed {
                        r == Some(WsServerMessage::ResponsePage(Err(completed)))
                    } else if source.len() > u32::MAX || spec_parse_page(source) is Err {
                        r == Some(WsServerMessage::RequestBail)
                    } else {
                        r matches Some(WsServerMessage::ResponsePage(Ok(p)))
                            && spec_parse_page(source) matches Ok(elems) && p.deep_view()
                            == ask_page_view(elems)
                    }
                }
            },
            msg matches WsClientMessage::RequestSubmit(page, answers) ==> {
                let outcome_none = !old(self)@.quests.contains_key(quest.0) || *page >= old(
                    self,
                )@.quests[quest.0].pages.len() || !old(self)@.progress.contains_key(
                    (user.0, quest.0),
                );
                &&& outcome_none ==> r is None && final(self)@ == old(self)@
                &&& !outcome_none ==> {
                    let prog = old(self)@.progress[(user.0, quest.0)];
                    let source = old(self)@.quests[quest.0].pages[*page as int].source;
                    if prog.finished_at is Some {
                        r == Some(WsServerMessage::ResponseSubmit(Err(
                            SubmitError::AlreadyFinished,
                        ))) && final(self)@ == old(self)@
                    } else if *page != prog.completed_pages {
                        r == Some(WsServerMessage::ResponseSubmit(Err(
                            SubmitError::PageOutOfOrder(prog.completed_pages),
                        ))) && final(self)@ == old(self)@
                    } else if source.len() > u32::MAX || spec_parse_page(source) is Err {
                        r == Some(WsServerMessage::ResponseSubmit(Err(SubmitError::BadPage)))
                            && final(self)@ == old(self)@
                    } else {
                        let elems = match spec_parse_page(source) {
                            Ok(e) => e,
                            Err(_) => Seq::empty(),
                        };
                        match spec_grade(page_questions(elems), answers.deep_view()) {
                            Err(e) => r == Some(WsServerMessage::ResponseSubmit(Err(e)))
                                && final(self)@ == old(self)@,
                            Ok(_) => {
                                let entry = final(self)@.progress[(user.0, quest.0)];
                                &&& r == Some(WsServerMessage::ResponseSubmit(
                                    Ok::<(), SubmitError>(()),
                                ))
                                &&& final(self)@.progress.contains_key((user.0, quest.0))
                                &&& entry.completed_pages == *page + 1
                                &&& (entry.finished_at is Some <==> *page + 1 == old(
                                    self,
                                )@.quests[quest.0].pages.len())
                                &&& entry.started_at == prog.started_at
                                &&& entry.rating == prog.rating
                                &&& entry.comment == prog.comment
                                &&& final(self)@ == (PlatformView {
                                    progress: old(self)@.progress.insert(
                                        (user.0, quest.0),
                                        entry,
                                    ),
                                    ..old(self)@
                                })
                            },
                        }
                    }
                }
            },
    {
        match msg {
            WsClientMessage::RequestPage(page) => match self.request_page(user, quest, *page) {
                PageOutcome::Terminate => None,
                PageOutcome::Redirect(c) => Some(WsServerMessage::ResponsePage(Err(c))),
                PageOutcome::Broken => Some(WsServerMessage::RequestBail),
                PageOutcome::Serve(p) => Some(WsServerMessage::ResponsePage(Ok(p))),
            },
            WsClientMessage::RequestSubmit(page, answers) => {
                let now = crate::external::now_seconds();
                match self.submit_answers(user, quest, *page, answers, now) {
                    SubmitOutcome::Terminate => None,
                    SubmitOutcome::Rejected(e) => Some(WsServerMessage::ResponseSubmit(Err(e))),
                    SubmitOutcome::Accepted => Some(WsServerMessage::ResponseSubmit(Ok(()))),
                }
            },
        }
    }

    /// Stores a rating and comment on the caller's progress record. The
    /// quest must be published and the caller must have finished it; the
    /// record is updated in place, rating and comment replacing whatever
    /// was there.
    pub fn update_rate_comment(
        &mut self,
        session: Option<&str>,
        quest: QuestId,
        rate: u32,
        comment: &str,
    ) -> (r: Result<(), ApiError>)
        requires
            old(self).wf(),
        ensures
            final(self).wf(),
            published_monotone(old(self)@.quests, final(self)@.quests),
            match spec_resolve(old(self)@, opt_str_view(session)) {
                Err(e) => r == Err::<(), ApiError>(e) && final(self)@ == old(self)@,
                Ok(caller) => if !old(self)@.quests.contains_key(quest.0) {
                    r == Err::<(), ApiError>(ApiError::QuestNotFound) && final(self)@ == old(
                        self,
                    )@
                } else if !old(self)@.quests[quest.0].published {
                    r == Err::<(), ApiError>(ApiError::NotAccessibleBeforePublish) && final(self)@ == old(self)@
                } else if !old(self)@.progress.contains_key((caller.0, quest.0)) {
                    r == Err::<(), ApiError>(ApiError::NotJoined) && final(self)@ == old(self)@
                } else if old(self)@.progress[(caller.0, quest.0)].finished_at is None {
                    r == Err::<(), ApiError>(ApiError::NotFinished) && final(self)@ == old(
                        self,
                    )@
                } else {
                    r == Ok::<(), ApiError>(()) && final(self)@ == (PlatformView {
                        progress: old(self)@.progress.insert(
                            (caller.0, quest.0),
                            ProgressView {
                                rating: Some(rate),
                                comment: Some(comment@),
                                ..old(self)@.progress[(caller.0, quest.0)]
                            },
                        ),
                        ..old(self)@
                    })
                },
            },
    {
        let caller = match self.resolve_session(session) {
            Err(e) => {
                return Err(e);
            },
            Ok(u) => u,
        };
        let Some(k) = self.find_quest_index(quest) else {
            return Err(ApiError::QuestNotFound);
        };
        if !self.quests[k].published {
            return Err(ApiError::NotAccessibleBeforePublish);
        }
        let Some(pk) = self.find_progress_index(caller, quest) else {
            return Err(ApiError::NotJoined);
        };
        if self.progress[pk].finished_at.is_none() {
            return Err(ApiError::NotFinished);
        }
        let ghost pre = self.progress@;
        let mut record = self.progress[pk].clone_progress();
        record.rating = Some(rate);
        record.comment = Some(String::from_str(comment));
        proof {
            lemma_progress_map_update(pre, pk as int, record);
        }
        self.progress.set(pk, record);
        proof {
            assert forall|i: int|
                0 <= i < self.progress@.len() implies self@.quests.contains_key(
                #[trigger] self.progress@[i].quest_id.0,
            ) && self@.quests[self.progress@[i].quest_id.0].published
                && self.progress@[i].completed_pages
                <= self@.quests[self.progress@[i].quest_id.0].pages.len() && (
            self.progress@[i].rating is Some ==> self.progress@[i].finished_at is Some) by {
                assert(pre[i].quest_id.0 == self.progress@[i].quest_id.0 || i == pk);
            }
        }
        Ok(())
    }
}

} // verus!
