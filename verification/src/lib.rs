//! A small multiplayer quest platform: users author multi-page quests made
//! of text and typed questions, publish them, and other users play through
//! the pages in order, answering questions and leaving ratings.
//!
//! The crate verifies the quest content model (page markup parser and
//! answer grading), the quest lifecycle state machine (authoring, page
//! appends, publishing), the per-player page-progression protocol, the
//! session authorization guard, and the paged and aggregated read views.
//! Password hashing, identifier generation and the clock are done by
//! outside crates behind the few trusted wrappers of [`external`].

mod accounts;
mod auth;
mod external;
mod lifecycle;
mod model;
mod paging;
mod parser;
mod play;
mod questions;
mod ratings;
mod store;
mod text;

pub use accounts::is_ascii_alnum;
pub use accounts::login_matches;
pub use accounts::spec_email_ok;
pub use accounts::spec_identity_taken;
pub use accounts::spec_name_ok;
pub use auth::format_id;
pub use auth::is_canonical_id;
pub use auth::parse_id;
pub use auth::spec_parse_id;
pub use external::bcrypt_verdict;
pub use auth::opt_str_view;
pub use auth::spec_resolve;
pub use lifecycle::quest_map_of;
pub use model::ApiError;
pub use model::ApiResponse;
pub use model::Avatar;
pub use model::LoginRequest;
pub use model::LoginResponse;
pub use model::QUEST_HISTORY_PAGE_SIZE;
pub use model::QuestHistoryPage;
pub use model::QuestHistoryRecord;
pub use model::QuestId;
pub use model::QuestInfo;
pub use model::QuestInfoView;
pub use model::QuestState;
pub use model::RegisterRequest;
pub use model::RegisterResponse;
pub use model::SessionKey;
pub use model::Timestamp;
pub use model::USER_OWNED_QUESTS_PAGE_SIZE;
pub use model::UserId;
pub use model::UserInfo;
pub use model::UserInfoView;
pub use model::UserOwnedQuestRecord;
pub use model::UserOwnedQuestsPage;
pub use paging::extract_page;
pub use paging::history_entry;
pub use paging::owned_quests;
pub use paging::spec_extract;
pub use paging::spec_total_pages;
pub use paging::user_history;
pub use parser::PageParseError;
pub use parser::choice_texts;
pub use parser::first_plus;
pub use parser::lemma_choice_exclusivity;
pub use parser::lemma_identical_choices;
pub use parser::lemma_text_only_page;
pub use parser::parse_quest_page;
pub use parser::parse_question;
pub use parser::spec_img_src;
pub use parser::spec_join;
pub use parser::spec_parse_page;
pub use parser::spec_parse_question;
pub use parser::well_formed_choice_lines;
pub use play::PageOutcome;
pub use play::SubmitError;
pub use play::SubmitOutcome;
pub use play::WsClientMessage;
pub use play::WsServerMessage;
pub use play::page_questions;
pub use play::spec_grade;
pub use questions::Answer;
pub use questions::AnswerView;
pub use questions::AskPageElementView;
pub use questions::AskQuestPage;
pub use questions::AskQuestPageElement;
pub use questions::AskQuestion;
pub use questions::AskQuestionView;
pub use questions::ImageRectangle;
pub use questions::PageElementView;
pub use questions::QuestPage;
pub use questions::QuestPageElement;
pub use questions::Question;
pub use questions::QuestionView;
pub use questions::WrongQuestionType;
pub use questions::answer_correct;
pub use questions::ask_page;
pub use questions::ask_page_view;
pub use questions::ask_question;
pub use questions::ask_view;
pub use questions::check_answer;
pub use questions::shapes_match;
pub use ratings::OwnerRating;
pub use ratings::entries_exact;
pub use ratings::rated_for;
pub use ratings::rating_count;
pub use ratings::rating_ge;
pub use ratings::rating_sum;
pub use ratings::rating_val;
pub use store::PageRecord;
pub use store::PageView;
pub use store::Platform;
pub use store::PlatformView;
pub use store::ProgressRecord;
pub use store::ProgressView;
pub use store::QuestRecord;
pub use store::QuestView;
pub use store::SessionRecord;
pub use store::UserRecord;
pub use store::UserView;
pub use store::published_monotone;
pub use text::spec_lines;
pub use text::spec_parse_u32;
pub use text::trim_spec;
