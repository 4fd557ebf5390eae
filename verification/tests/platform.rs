//! Accounts, sessions, and the quest lifecycle, run against a fresh
//! platform.

use quests::ApiError;
use quests::LoginRequest;
use quests::Platform;
use quests::QuestId;
use quests::QuestInfo;
use quests::RegisterRequest;
use quests::UserId;
use quests::format_id;
use quests::parse_id;

fn register(p: &mut Platform, name: &str) -> (UserId, String) {
    let payload = RegisterRequest {
        email: format!("{}@example.com", name),
        name: name.to_string(),
        pass: format!("{}-password", name),
    };
    let (resp, key) = p.register_user(&payload).unwrap();
    (resp.id, format_id(key.0))
}

#[test]
fn identifier_round_trip() {
    let ids = [0u128, 1, 0xdead_beef, u128::MAX, 0x1234_5678_9abc_def0_1122_3344_5566_7788];
    for id in ids {
        let s = format_id(id);
        assert_eq!(s.len(), 36);
        assert_eq!(parse_id(&s), Some(id));
    }
    assert_eq!(parse_id(""), None);
    assert_eq!(parse_id("not-an-identifier"), None);
    assert_eq!(parse_id("1234567890123456789012345678901234567"), None);
    assert_eq!(parse_id("zz345678-1234-1234-1234-123456789012"), None);
}

#[test]
fn register_validation() {
    let mut p = Platform::new();
    let no_at = RegisterRequest {
        email: "missing".to_string(),
        name: "alice".to_string(),
        pass: "pw".to_string(),
    };
    assert_eq!(p.register_user(&no_at).unwrap_err(), ApiError::InvalidEmail);

    let bad_name = RegisterRequest {
        email: "a@example.com".to_string(),
        name: "bad name!".to_string(),
        pass: "pw".to_string(),
    };
    assert_eq!(p.register_user(&bad_name).unwrap_err(), ApiError::InvalidName);

    let long_name = RegisterRequest {
        email: "a@example.com".to_string(),
        name: "a".repeat(33),
        pass: "pw".to_string(),
    };
    assert_eq!(p.register_user(&long_name).unwrap_err(), ApiError::InvalidName);

    let (_, _) = register(&mut p, "alice");
    let duplicate = RegisterRequest {
        email: "other@example.com".to_string(),
        name: "alice".to_string(),
        pass: "pw".to_string(),
    };
    assert_eq!(p.register_user(&duplicate).unwrap_err(), ApiError::NameInUse);
}

#[test]
fn login_checks_password() {
    let mut p = Platform::new();
    let (alice, _) = register(&mut p, "alice");

    let ok = p.login_user(&LoginRequest {
        name_or_email: "alice".to_string(),
        pass: "alice-password".to_string(),
    });
    let (resp, key) = ok.unwrap();
    assert_eq!(resp.id, alice);
    assert_eq!(parse_id(&format_id(key.0)), Some(key.0));

    let by_email = p.login_user(&LoginRequest {
        name_or_email: "alice@example.com".to_string(),
        pass: "alice-password".to_string(),
    });
    assert_eq!(by_email.unwrap().0.id, alice);

    let wrong = p.login_user(&LoginRequest {
        name_or_email: "alice".to_string(),
        pass: "guess".to_string(),
    });
    assert_eq!(wrong.unwrap_err(), ApiError::WrongPassword);

    let unknown = p.login_user(&LoginRequest {
        name_or_email: "bob".to_string(),
        pass: "pw".to_string(),
    });
    assert_eq!(unknown.unwrap_err(), ApiError::UserNotFound);
}

#[test]
fn session_guard() {
    let mut p = Platform::new();
    assert_eq!(p.create_quest(None).unwrap_err(), ApiError::LoginRequired);
    assert_eq!(p.create_quest(Some("garbage")).unwrap_err(), ApiError::InternalError);
    let stale = format_id(42);
    assert_eq!(p.create_quest(Some(&stale)).unwrap_err(), ApiError::LoginRequired);
}

#[test]
fn user_info_lookup() {
    let mut p = Platform::new();
    let (alice, _) = register(&mut p, "alice");
    let info = p.get_user_info(alice).unwrap();
    assert_eq!(info.id, alice);
    assert_eq!(info.name, "alice");
    assert_eq!(info.email, "alice@example.com");
    assert_eq!(p.get_user_info(UserId(12345)).unwrap_err(), ApiError::UserNotFound);
}

#[test]
fn quest_authoring_end_to_end() {
    let mut p = Platform::new();
    let (alice, session) = register(&mut p, "alice");
    let quest = p.create_quest(Some(&session)).unwrap();

    let info = p.get_quest_info(quest).unwrap();
    assert_eq!(info.owner, alice);
    assert_eq!(info.title, "");
    assert_eq!(info.pages, 0);
    assert!(!info.published);

    assert_eq!(p.update_quest_page(Some(&session), quest, 0, "Hello", None), Ok(()));
    assert_eq!(p.get_quest_info(quest).unwrap().pages, 1);

    assert_eq!(p.update_quest_page(Some(&session), quest, 1, "World", Some(30)), Ok(()));
    assert_eq!(p.get_quest_info(quest).unwrap().pages, 2);

    assert_eq!(p.update_quest_page(Some(&session), quest, 0, "Hi", None), Ok(()));
    assert_eq!(p.get_quest_info(quest).unwrap().pages, 2);
    assert_eq!(p.get_quest_page(Some(&session), quest, 0).unwrap(), "Hi");
    assert_eq!(p.get_quest_page(Some(&session), quest, 1).unwrap(), "World");
}

#[test]
fn page_gap_rejected() {
    let mut p = Platform::new();
    let (_, session) = register(&mut p, "alice");
    let quest = p.create_quest(Some(&session)).unwrap();
    assert_eq!(
        p.update_quest_page(Some(&session), quest, 1, "gap", None).unwrap_err(),
        ApiError::PageIndexTooHigh
    );
    assert_eq!(p.update_quest_page(Some(&session), quest, 0, "ok", None), Ok(()));
    assert_eq!(
        p.update_quest_page(Some(&session), quest, 2, "gap", None).unwrap_err(),
        ApiError::PageIndexTooHigh
    );
}

#[test]
fn quest_info_update_is_scoped() {
    let mut p = Platform::new();
    let (alice, session) = register(&mut p, "alice");
    let quest = p.create_quest(Some(&session)).unwrap();
    p.update_quest_page(Some(&session), quest, 0, "page", None).unwrap();

    let payload = QuestInfo {
        id: quest,
        owner: UserId(999),
        title: "Title".to_string(),
        description: "Description".to_string(),
        pages: 77,
        published: true,
    };
    assert_eq!(p.partial_update_quest_info(Some(&session), &payload), Ok(()));

    let info = p.get_quest_info(quest).unwrap();
    assert_eq!(info.title, "Title");
    assert_eq!(info.description, "Description");
    assert_eq!(info.owner, alice);
    assert_eq!(info.pages, 1);
    assert!(!info.published);
}

#[test]
fn ownership_enforced() {
    let mut p = Platform::new();
    let (_, alice_session) = register(&mut p, "alice");
    let (_, bob_session) = register(&mut p, "bob");
    let quest = p.create_quest(Some(&alice_session)).unwrap();

    assert_eq!(
        p.update_quest_page(Some(&bob_session), quest, 0, "intrusion", None).unwrap_err(),
        ApiError::Unauthorized
    );
    assert_eq!(
        p.publish_quest(Some(&bob_session), quest).unwrap_err(),
        ApiError::Unauthorized
    );
    assert_eq!(
        p.publish_quest(Some(&alice_session), QuestId(7)).unwrap_err(),
        ApiError::QuestNotFound
    );
}

#[test]
fn publish_is_one_way() {
    let mut p = Platform::new();
    let (_, session) = register(&mut p, "alice");
    let quest = p.create_quest(Some(&session)).unwrap();

    assert!(!p.get_quest_info(quest).unwrap().published);
    assert_eq!(p.publish_quest(Some(&session), quest), Ok(()));
    assert!(p.get_quest_info(quest).unwrap().published);
    assert_eq!(
        p.publish_quest(Some(&session), quest).unwrap_err(),
        ApiError::AlreadyPublished
    );
    assert!(p.get_quest_info(quest).unwrap().published);
}

#[test]
fn register_with_is_deterministic() {
    let mut p = Platform::new();
    let payload = RegisterRequest {
        email: "carol@example.com".to_string(),
        name: "carol".to_string(),
        pass: "anything".to_string(),
    };
    // With the digest, identifier and token supplied, registration is
    // fully determined and owed.
    let (resp, key) = p.register_with(&payload, "not a digest", 7, 9).unwrap();
    assert_eq!(resp.id, UserId(7));
    assert_eq!(key.0, 9);

    // The identifier is now in use, so the same draw is refused.
    let again = RegisterRequest {
        email: "dave@example.com".to_string(),
        name: "dave".to_string(),
        pass: "pw".to_string(),
    };
    assert_eq!(p.register_with(&again, "d", 7, 11).unwrap_err(), ApiError::InternalError);

    // The supplied token is a live session for the new account.
    let session = format_id(9);
    assert_eq!(p.create_quest(Some(&session)).is_ok(), true);

    // The stored digest is whatever was handed over; bcrypt cannot parse
    // this one, so a login against it fails closed.
    let attempt = p.login_user(&LoginRequest {
        name_or_email: "carol".to_string(),
        pass: "anything".to_string(),
    });
    assert_eq!(attempt.unwrap_err(), ApiError::VerifyFailed);
}
