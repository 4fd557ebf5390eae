//! The page markup parser and the question model, exercised on concrete
//! sources.

use quests::Answer;
use quests::AskQuestion;
use quests::AskQuestPageElement;
use quests::ImageRectangle;
use quests::PageParseError;
use quests::QuestPageElement;
use quests::Question;
use quests::WrongQuestionType;
use quests::ask_page;
use quests::ask_question;
use quests::check_answer;
use quests::parse_question;
use quests::parse_quest_page;

fn lines(src: &[&str]) -> Vec<String> {
    src.iter().map(|s| s.to_string()).collect()
}

#[test]
fn question_parse() {
    assert_eq!(
        parse_question(&lines(&[])),
        Err(PageParseError::EmptyQuestionTag)
    );

    assert_eq!(
        parse_question(&lines(&["me-ee?"])),
        Err(PageParseError::UnknownQuestionType)
    );

    assert_eq!(
        parse_question(&lines(&["-"])),
        Err(PageParseError::BadChoiceFormat)
    );

    assert_eq!(
        parse_question(&lines(&["- a", "- b"])),
        Err(PageParseError::NoCorrectChoice)
    );

    assert_eq!(
        parse_question(&lines(&["+ a", "+ b"])),
        Err(PageParseError::MultipleCorrect)
    );

    assert_eq!(
        parse_question(&lines(&["+   a", "- b  "])),
        Ok(Question::Choice {
            variants: vec!["a".to_string(), "b".to_string()],
            correct: 0,
        })
    );

    assert_eq!(
        parse_question(&lines(&["-a  ", "+  b  "])),
        Ok(Question::Choice {
            variants: vec!["a".to_string(), "b".to_string()],
            correct: 1,
        })
    );

    assert_eq!(
        parse_question(&lines(&[" <opened>   ", " (correct answer) ", " </opened>    "])),
        Ok(Question::Opened("(correct answer)".to_string()))
    );

    assert_eq!(
        parse_question(&lines(&[
            "<img src=\"some sort of url\" />",
            "32 -- comment?",
            "23 -- another comment",
            "7",
            "5 ,"
        ])),
        Ok(Question::Image {
            src: "some sort of url".to_string(),
            correct_bounds: ImageRectangle {
                left: 32,
                top: 23,
                width: 7,
                height: 5
            }
        })
    );
}

#[test]
fn identical_choices_rejected() {
    assert_eq!(
        parse_question(&lines(&["+ a", "- a"])),
        Err(PageParseError::IdenticalChoices)
    );
    assert_eq!(
        parse_question(&lines(&["- x", "-  x  ", "+ y"])),
        Err(PageParseError::IdenticalChoices)
    );
}

#[test]
fn opened_format_errors() {
    assert_eq!(
        parse_question(&lines(&["<opened>"])),
        Err(PageParseError::BadOpenedFormat)
    );
    assert_eq!(
        parse_question(&lines(&["<opened>", "answer"])),
        Err(PageParseError::BadOpenedFormat)
    );
    assert_eq!(
        parse_question(&lines(&["<opened>", "answer", "</opened>", "extra"])),
        Err(PageParseError::BadOpenedFormat)
    );
    assert_eq!(
        parse_question(&lines(&["<opened>", "answer", "</closed>"])),
        Err(PageParseError::BadOpenedFormat)
    );
}

#[test]
fn image_format_errors() {
    assert_eq!(
        parse_question(&lines(&["<img src=\"u\" />", "1", "2", "3"])),
        Err(PageParseError::BadImageFormat)
    );
    assert_eq!(
        parse_question(&lines(&["<img src=\"u\" />", "1", "2", "3", "four"])),
        Err(PageParseError::BadImageFormat)
    );
    assert_eq!(
        parse_question(&lines(&["<img src=\"u\" />", "1", "2", "3", "4294967296"])),
        Err(PageParseError::BadImageFormat)
    );
    assert_eq!(
        parse_question(&lines(&["<img src=\"u\" />", "+4", "2", "3", "4"])),
        Ok(Question::Image {
            src: "u".to_string(),
            correct_bounds: ImageRectangle { left: 4, top: 2, width: 3, height: 4 }
        })
    );
}

#[test]
fn text_only_page_is_one_block() {
    assert_eq!(
        parse_quest_page("Hello\nWorld"),
        Ok(vec![QuestPageElement::Text("Hello\nWorld".to_string())])
    );
    assert_eq!(parse_quest_page(""), Ok(vec![]));
    assert_eq!(
        parse_quest_page("abc\n"),
        Ok(vec![QuestPageElement::Text("abc".to_string())])
    );
    assert_eq!(
        parse_quest_page("a\r\nb"),
        Ok(vec![QuestPageElement::Text("a\nb".to_string())])
    );
}

#[test]
fn page_with_question_blocks() {
    let src = "intro\n<question>\n+ yes\n- no\n</question>\noutro";
    let page = parse_quest_page(src).unwrap();
    assert_eq!(
        page,
        vec![
            QuestPageElement::Text("intro".to_string()),
            QuestPageElement::Question(Question::Choice {
                variants: vec!["yes".to_string(), "no".to_string()],
                correct: 0,
            }),
            QuestPageElement::Text("outro".to_string()),
        ]
    );
}

#[test]
fn page_errors() {
    assert_eq!(
        parse_quest_page("text\n<question>\n+ a\n- b"),
        Err(PageParseError::UnclosedQuestionTag)
    );
    assert_eq!(
        parse_quest_page("<question>\n</question>"),
        Err(PageParseError::EmptyQuestionTag)
    );
    assert_eq!(
        parse_quest_page("<question>\nwhatever\n</question>"),
        Err(PageParseError::UnknownQuestionType)
    );
}

#[test]
fn image_bounds_inclusive() {
    let q = Question::Image {
        src: "u".to_string(),
        correct_bounds: ImageRectangle { left: 32, top: 23, width: 7, height: 5 },
    };
    assert_eq!(check_answer(&q, &Answer::Image { left: 32, top: 23 }), Ok(true));
    assert_eq!(check_answer(&q, &Answer::Image { left: 39, top: 28 }), Ok(true));
    assert_eq!(check_answer(&q, &Answer::Image { left: 31, top: 23 }), Ok(false));
    assert_eq!(check_answer(&q, &Answer::Image { left: 40, top: 28 }), Ok(false));
}

#[test]
fn opened_exact_match() {
    let q = Question::Opened("paris".to_string());
    assert_eq!(check_answer(&q, &Answer::Opened("paris".to_string())), Ok(true));
    assert_eq!(check_answer(&q, &Answer::Opened("Paris".to_string())), Ok(false));
    assert_eq!(check_answer(&q, &Answer::Choice(0)), Err(WrongQuestionType));
}

#[test]
fn choice_and_multiple_choice_grading() {
    let q = Question::Choice {
        variants: vec!["a".to_string(), "b".to_string()],
        correct: 1,
    };
    assert_eq!(check_answer(&q, &Answer::Choice(1)), Ok(true));
    assert_eq!(check_answer(&q, &Answer::Choice(0)), Ok(false));

    let mq = Question::MultipleChoice {
        variants: vec!["a".to_string(), "b".to_string(), "c".to_string()],
        correct: vec![1, 2],
    };
    assert_eq!(check_answer(&mq, &Answer::MultipleChoice(vec![2, 1])), Ok(true));
    assert_eq!(check_answer(&mq, &Answer::MultipleChoice(vec![1])), Ok(false));
    assert_eq!(check_answer(&mq, &Answer::Opened("x".to_string())), Err(WrongQuestionType));
}

#[test]
fn ask_projection_strips_answers() {
    let q = Question::Choice {
        variants: vec!["a".to_string(), "b".to_string()],
        correct: 1,
    };
    assert_eq!(
        ask_question(&q),
        AskQuestion::Choice { variants: vec!["a".to_string(), "b".to_string()] }
    );
    assert_eq!(ask_question(&Question::Opened("secret".to_string())), AskQuestion::Opened);

    let page = vec![
        QuestPageElement::Text("t".to_string()),
        QuestPageElement::Question(Question::Opened("secret".to_string())),
    ];
    assert_eq!(
        ask_page(&page),
        vec![
            AskQuestPageElement::Text("t".to_string()),
            AskQuestPageElement::Question(AskQuestion::Opened),
        ]
    );
}
