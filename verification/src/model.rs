//! The data model of the platform: identifiers, the records the store
//! keeps, and the request/response shapes of the public surface.
//!
//! Identifiers are 128-bit values; the program around the library renders
//! them in the usual hyphenated hexadecimal form, which
//! [`crate::auth::parse_id`] reads back.

use vstd::prelude::*;

verus! {

/// A registered user's identifier.
#[derive(Debug, Clone, Copy, PartialEq, Eq, Structural)]
pub struct UserId(pub u128);

/// A quest's identifier.
#[derive(Debug, Clone, Copy, PartialEq, Eq, Structural)]
pub struct QuestId(pub u128);

/// An opaque session token proving an authenticated identity.
#[derive(Debug, Clone, Copy, PartialEq, Eq, Structural)]
pub struct SessionKey(pub u128);

/// A point in time, in seconds.
pub type Timestamp = i64;

/// A user's avatar image, as raw bytes.
#[derive(Debug, Clone, PartialEq, Eq)]
pub struct Avatar(pub Vec<u8>);

/// What a caller sends to create an account.
#[derive(Debug, Clone, PartialEq, Eq)]
pub struct RegisterRequest {
    pub email: String,
    pub name: String,
    pub pass: String,
}

/// What a successful registration returns.
#[derive(Debug, Clone, Copy, PartialEq, Eq, Structural)]
pub struct RegisterResponse {
    pub id: UserId,
}

/// What a caller sends to log in.
#[derive(Debug, Clone, PartialEq, Eq)]
pub struct LoginRequest {
    pub name_or_email: String,
    pub pass: String,
}

/// What a successful login returns.
#[derive(Debug, Clone, Copy, PartialEq, Eq, Structural)]
pub struct LoginResponse {
    pub id: UserId,
}

/// A user's public profile.
#[derive(Debug, Clone, PartialEq, Eq)]
pub struct UserInfo {
    pub id: UserId,
    pub name: String,
    pub email: String,
}

/// The mathematical shape of a [`UserInfo`].
pub struct UserInfoView {
    pub id: UserId,
    pub name: Seq<char>,
    pub email: Seq<char>,
}

impl View for UserInfo {
    type V = UserInfoView;

    open spec fn view(&self) -> UserInfoView {
        UserInfoView { id: self.id, name: self.name@, email: self.email@ }
    }
}

/// A quest's metadata as the public surface shows it.
#[derive(Debug, Clone, PartialEq, Eq)]
pub struct QuestInfo {
    pub id: QuestId,
    pub owner: UserId,
    pub title: String,
    pub description: String,
    pub pages: u32,
    pub published: bool,
}

/// The mathematical shape of a [`QuestInfo`].
pub struct QuestInfoView {
    pub id: QuestId,
    pub owner: UserId,
    pub title: Seq<char>,
    pub description: Seq<char>,
    pub pages: u32,
    pub published: bool,
}

impl View for QuestInfo {
    type V = QuestInfoView;

    open spec fn view(&self) -> QuestInfoView {
        QuestInfoView {
            id: self.id,
            owner: self.owner,
            title: self.title@,
            description: self.description@,
            pages: self.pages,
            published: self.published,
        }
    }
}

/// The moderation states a quest can be declared in. Only the first and the
/// `Published` state are exercised by any transition; the rest are reserved
/// by the data model.
#[derive(Debug, Clone, Copy, PartialEq, Eq, Structural)]
pub enum QuestState {
    /// The author still edits the quest and has not made it public.
    Unpublished,
    /// The author asked a moderator for a review.
    Submitted,
    /// A moderator returned the quest after editing.
    Returned,
    /// The author published the quest.
    Published,
    /// The quest is published and was reviewed by a moderator.
    PublishedReviewed,
    /// A moderator locked the quest down; a terminal state.
    Locked,
}

/// One entry of a user's play history.
#[derive(Debug, Clone, Copy, PartialEq, Eq)]
pub struct QuestHistoryRecord {
    pub user_id: UserId,
    pub quest_id: QuestId,
    pub started_at: Timestamp,
    pub finished_at: Option<Timestamp>,
    pub completed_pages: u32,
}

/// How many history entries one page of the listing holds.
pub const QUEST_HISTORY_PAGE_SIZE: usize = 20;

/// One page of a user's play history.
#[derive(Debug, Clone, PartialEq, Eq)]
pub struct QuestHistoryPage {
    pub data: Vec<QuestHistoryRecord>,
    pub page: u32,
    pub total_pages: u32,
}

/// One entry of the quests a user owns.
#[derive(Debug, Clone, Copy, PartialEq, Eq, Structural)]
pub struct UserOwnedQuestRecord {
    pub id: QuestId,
}

/// How many owned-quest entries one page of the listing holds.
pub const USER_OWNED_QUESTS_PAGE_SIZE: usize = 20;

/// One page of the quests a user owns.
#[derive(Debug, Clone, PartialEq, Eq)]
pub struct UserOwnedQuestsPage {
    pub data: Vec<UserOwnedQuestRecord>,
    pub page: u32,
    pub total_pages: u32,
}

/// How an operation of the public surface can fail. Validation and
/// authorization failures are reported without any state change.
#[derive(Debug, Clone, Copy, PartialEq, Eq, Structural)]
pub enum ApiError {
    /// No session token was presented, or it matches no live session.
    LoginRequired,
    /// A malformed session token, or a failure of an outside service; never
    /// caused by ordinary user input.
    InternalError,
    /// The named quest does not exist.
    QuestNotFound,
    /// The named user does not exist.
    UserNotFound,
    /// The caller does not own the quest.
    Unauthorized,
    /// The quest was already published; publishing is one-way.
    AlreadyPublished,
    /// The quest is not published yet, so play-facing operations refuse it.
    NotAccessibleBeforePublish,
    /// The caller already holds a progress record for this quest.
    AlreadyJoined,
    /// The caller never joined this quest.
    NotJoined,
    /// The caller already finished this quest.
    AlreadyFinished,
    /// The caller has not finished this quest yet.
    NotFinished,
    /// A page may only overwrite an existing slot or append the next one.
    PageIndexTooHigh,
    /// The named page was never written.
    PageNotFound,
    /// A registration email must contain `@` and fit the length bound.
    InvalidEmail,
    /// A registration name must be alphanumeric and fit the length bound.
    InvalidName,
    /// The registration name or email is already taken.
    NameInUse,
    /// The password does not match the stored digest.
    WrongPassword,
    /// The stored digest could not be checked at all.
    VerifyFailed,
}

/// The envelope the wire protocol wraps every reply in.
#[derive(Debug, Clone, PartialEq, Eq)]
pub enum ApiResponse<T> {
    Response(T),
    Error(String),
}

} // verus!
