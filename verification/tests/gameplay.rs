//! The play-session protocol: joining, strict in-order page serving,
//! answer grading, finish detection, ratings, and the paged listings.

use quests::Answer;
use quests::ApiError;
use quests::AskQuestPageElement;
use quests::AskQuestion;
use quests::Platform;
use quests::QuestId;
use quests::RegisterRequest;
use quests::SubmitError;
use quests::UserId;
use quests::WsClientMessage;
use quests::WsServerMessage;
use quests::extract_page;
use quests::format_id;

fn register(p: &mut Platform, name: &str) -> (UserId, String) {
    let payload = RegisterRequest {
        email: format!("{}@example.com", name),
        name: name.to_string(),
        pass: format!("{}-password", name),
    };
    let (resp, key) = p.register_user(&payload).unwrap();
    (resp.id, format_id(key.0))
}

/// A published two-page quest: page 0 asks an opened question, page 1 a
/// choice question.
fn published_quest(p: &mut Platform, author_session: &str) -> QuestId {
    let quest = p.create_quest(Some(author_session)).unwrap();
    p.update_quest_page(
        Some(author_session),
        quest,
        0,
        "What is the capital of France?\n<question>\n<opened>\nparis\n</opened>\n</question>",
        None,
    )
    .unwrap();
    p.update_quest_page(
        Some(author_session),
        quest,
        1,
        "<question>\n+ yes\n- no\n</question>",
        None,
    )
    .unwrap();
    p.publish_quest(Some(author_session), quest).unwrap();
    quest
}

#[test]
fn join_requires_published() {
    let mut p = Platform::new();
    let (_, author) = register(&mut p, "author");
    let (_, player) = register(&mut p, "player");
    let quest = p.create_quest(Some(&author)).unwrap();

    assert_eq!(
        p.quest_join(Some(&player), quest).unwrap_err(),
        ApiError::NotAccessibleBeforePublish
    );
    assert_eq!(
        p.quest_join(Some(&player), QuestId(3)).unwrap_err(),
        ApiError::QuestNotFound
    );

    p.publish_quest(Some(&author), quest).unwrap();
    assert_eq!(p.quest_join(Some(&player), quest), Ok(()));
    assert_eq!(p.quest_join(Some(&player), quest).unwrap_err(), ApiError::AlreadyJoined);
}

#[test]
fn progression_gating_redirects() {
    let mut p = Platform::new();
    let (_, author) = register(&mut p, "author");
    let (player_id, player) = register(&mut p, "player");
    let quest = published_quest(&mut p, &author);
    p.quest_join(Some(&player), quest).unwrap();
    let user = p.open_play_session(Some(&player), quest).unwrap();
    assert_eq!(user, player_id);

    // Requesting any page other than the next required one redirects to it.
    assert_eq!(
        p.handle_client_message(user, quest, &WsClientMessage::RequestPage(1)),
        Some(WsServerMessage::ResponsePage(Err(0)))
    );
    // Requesting a page past the end closes the channel.
    assert_eq!(
        p.handle_client_message(user, quest, &WsClientMessage::RequestPage(2)),
        None
    );
    // The next required page is served, answer keys stripped.
    let served = p.handle_client_message(user, quest, &WsClientMessage::RequestPage(0));
    assert_eq!(
        served,
        Some(WsServerMessage::ResponsePage(Ok(vec![
            AskQuestPageElement::Text("What is the capital of France?".to_string()),
            AskQuestPageElement::Question(AskQuestion::Opened),
        ])))
    );
}

#[test]
fn join_and_finish_scenario() {
    let mut p = Platform::new();
    let (_, author) = register(&mut p, "author");
    let (player_id, player) = register(&mut p, "player");
    let quest = published_quest(&mut p, &author);

    assert_eq!(p.is_user_finished_quest(player_id, quest), None);
    p.quest_join(Some(&player), quest).unwrap();
    assert_eq!(p.is_user_finished_quest(player_id, quest), Some(false));

    assert_eq!(
        p.update_rate_comment(Some(&player), quest, 5, "fun").unwrap_err(),
        ApiError::NotFinished
    );

    let user = p.open_play_session(Some(&player), quest).unwrap();

    // A wrong answer does not advance the player.
    assert_eq!(
        p.handle_client_message(
            user,
            quest,
            &WsClientMessage::RequestSubmit(0, vec![Answer::Opened("london".to_string())]),
        ),
        Some(WsServerMessage::ResponseSubmit(Err(SubmitError::WrongAnswer)))
    );
    assert_eq!(p.is_user_finished_quest(player_id, quest), Some(false));

    // A sheet of the wrong shape or size is rejected.
    assert_eq!(
        p.handle_client_message(
            user,
            quest,
            &WsClientMessage::RequestSubmit(0, vec![Answer::Choice(0)]),
        ),
        Some(WsServerMessage::ResponseSubmit(Err(SubmitError::WrongAnswerType)))
    );
    assert_eq!(
        p.handle_client_message(user, quest, &WsClientMessage::RequestSubmit(0, vec![])),
        Some(WsServerMessage::ResponseSubmit(Err(SubmitError::BadAnswerCount)))
    );

    // Submitting out of order names the page that must come next.
    assert_eq!(
        p.handle_client_message(
            user,
            quest,
            &WsClientMessage::RequestSubmit(1, vec![Answer::Choice(0)]),
        ),
        Some(WsServerMessage::ResponseSubmit(Err(SubmitError::PageOutOfOrder(0))))
    );

    // The correct sheet completes page 0.
    assert_eq!(
        p.handle_client_message(
            user,
            quest,
            &WsClientMessage::RequestSubmit(0, vec![Answer::Opened("paris".to_string())]),
        ),
        Some(WsServerMessage::ResponseSubmit(Ok(())))
    );
    assert_eq!(p.is_user_finished_quest(player_id, quest), Some(false));

    // Completing the last page finishes the quest.
    assert_eq!(
        p.handle_client_message(
            user,
            quest,
            &WsClientMessage::RequestSubmit(1, vec![Answer::Choice(0)]),
        ),
        Some(WsServerMessage::ResponseSubmit(Ok(())))
    );
    assert_eq!(p.is_user_finished_quest(player_id, quest), Some(true));

    // Nothing more may be submitted, and a new session is refused.
    assert_eq!(
        p.handle_client_message(
            user,
            quest,
            &WsClientMessage::RequestSubmit(1, vec![Answer::Choice(0)]),
        ),
        Some(WsServerMessage::ResponseSubmit(Err(SubmitError::AlreadyFinished)))
    );
    assert_eq!(
        p.open_play_session(Some(&player), quest).unwrap_err(),
        ApiError::AlreadyFinished
    );

    // Rating works exactly once finished.
    assert_eq!(p.update_rate_comment(Some(&player), quest, 5, "fun"), Ok(()));
}

#[test]
fn owner_ratings_aggregate_sorted() {
    let mut p = Platform::new();
    let (good_id, good) = register(&mut p, "goodauthor");
    let (poor_id, poor) = register(&mut p, "pooraut");
    let good_quest = published_quest(&mut p, &good);
    let poor_quest = published_quest(&mut p, &poor);

    let raters = ["rater1", "rater2"];
    for (k, name) in raters.iter().enumerate() {
        let (rid, rs) = register(&mut p, name);
        for quest in [good_quest, poor_quest] {
            p.quest_join(Some(&rs), quest).unwrap();
            let user = p.open_play_session(Some(&rs), quest).unwrap();
            p.handle_client_message(
                user,
                quest,
                &WsClientMessage::RequestSubmit(0, vec![Answer::Opened("paris".to_string())]),
            );
            p.handle_client_message(
                user,
                quest,
                &WsClientMessage::RequestSubmit(1, vec![Answer::Choice(0)]),
            );
            assert_eq!(p.is_user_finished_quest(rid, quest), Some(true));
        }
        // Both raters like the good author's quest; the poor author's quest
        // splits them.
        p.update_rate_comment(Some(&rs), good_quest, 5, "great").unwrap();
        p.update_rate_comment(Some(&rs), poor_quest, if k == 0 { 1 } else { 2 }, "meh")
            .unwrap();
    }

    let board = p.get_quests_owner_rate();
    assert_eq!(board.len(), 2);
    assert_eq!(board[0].owner, good_id);
    assert_eq!(board[0].rating_sum, 10);
    assert_eq!(board[0].rating_count, 2);
    assert_eq!(board[1].owner, poor_id);
    assert_eq!(board[1].rating_sum, 3);
    assert_eq!(board[1].rating_count, 2);
}

#[test]
fn paged_listings() {
    let mut p = Platform::new();
    let (_, author) = register(&mut p, "author");
    let mut created = Vec::new();
    for _ in 0..25 {
        created.push(p.create_quest(Some(&author)).unwrap());
    }

    let first = p.get_user_owned_quests(Some(&author), 0).unwrap();
    assert_eq!(first.data.len(), 20);
    assert_eq!(first.page, 0);
    assert_eq!(first.total_pages, 2);
    assert_eq!(first.data[0].id, created[0]);

    let second = p.get_user_owned_quests(Some(&author), 1).unwrap();
    assert_eq!(second.data.len(), 5);
    assert_eq!(second.data[4].id, created[24]);

    let (_, player) = register(&mut p, "player");
    let history = p.get_applied_quests(Some(&player), 0).unwrap();
    assert_eq!(history.data.len(), 0);
    assert_eq!(history.total_pages, 0);

    p.publish_quest(Some(&author), created[0]).unwrap();
    p.quest_join(Some(&player), created[0]).unwrap();
    let history = p.get_applied_quests(Some(&player), 0).unwrap();
    assert_eq!(history.data.len(), 1);
    assert_eq!(history.data[0].quest_id, created[0]);
    assert_eq!(history.data[0].completed_pages, 0);
    assert_eq!(history.data[0].finished_at, None);
    assert_eq!(history.total_pages, 1);
}

#[test]
fn extract_page_windows() {
    let data = [1u32, 2, 3, 4, 5];
    let (window, page, total) = extract_page::<2, u32>(&data, 0);
    assert_eq!((window.as_slice(), page, total), (&[1u32, 2][..], 0, 3));

    let (window, _, _) = extract_page::<2, u32>(&data, 2);
    assert_eq!(window, vec![5]);

    // A page past the end still shows the last entry, as the listing
    // windowing is defined.
    let (window, _, _) = extract_page::<2, u32>(&data, 9);
    assert_eq!(window, vec![5]);

    let (window, _, total) = extract_page::<20, u32>(&[], 0);
    assert_eq!(window.len(), 0);
    assert_eq!(total, 0);
}

#[test]
fn session_state_errors() {
    let mut p = Platform::new();
    let (_, author) = register(&mut p, "author");
    let (_, player) = register(&mut p, "player");
    let quest = published_quest(&mut p, &author);

    // Before joining there is no session state to play or rate with.
    assert_eq!(
        p.open_play_session(Some(&player), quest).unwrap_err(),
        ApiError::NotJoined
    );
    assert_eq!(
        p.update_rate_comment(Some(&player), quest, 4, "early").unwrap_err(),
        ApiError::NotJoined
    );

    // A page slot that was never written cannot be read.
    assert_eq!(
        p.get_quest_page(Some(&author), quest, 9).unwrap_err(),
        ApiError::PageNotFound
    );

    // Messages about a quest that does not exist close the channel.
    let (someone, _) = register(&mut p, "someone");
    assert_eq!(
        p.handle_client_message(someone, QuestId(99), &WsClientMessage::RequestPage(0)),
        None
    );
    assert_eq!(
        p.handle_client_message(
            someone,
            QuestId(99),
            &WsClientMessage::RequestSubmit(0, vec![]),
        ),
        None
    );
}

#[test]
fn broken_page_bails() {
    let mut p = Platform::new();
    let (_, author) = register(&mut p, "author");
    let (_, player) = register(&mut p, "player");
    let quest = p.create_quest(Some(&author)).unwrap();
    // Page sources are stored verbatim and only parsed at play time, so a
    // broken one is accepted here...
    p.update_quest_page(Some(&author), quest, 0, "<question>\nnever closed", None)
        .unwrap();
    p.publish_quest(Some(&author), quest).unwrap();
    p.quest_join(Some(&player), quest).unwrap();
    let user = p.open_play_session(Some(&player), quest).unwrap();

    // ...and the gameplay channel bails when it is reached.
    assert_eq!(
        p.handle_client_message(user, quest, &WsClientMessage::RequestPage(0)),
        Some(WsServerMessage::RequestBail)
    );
    assert_eq!(
        p.handle_client_message(user, quest, &WsClientMessage::RequestSubmit(0, vec![])),
        Some(WsServerMessage::ResponseSubmit(Err(SubmitError::BadPage)))
    );
}
