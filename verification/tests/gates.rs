use shuvarie_core::approval::{approval_from, ApprovalReason, ApprovalReply};
use shuvarie_core::question::{
    answers_from, check_questions, QuestionOption, QuestionPrompt, Reply,
};

fn prompt(label: &str) -> QuestionPrompt {
    QuestionPrompt {
        question: "Which layout?".into(),
        header: "Layout".into(),
        options: vec![QuestionOption {
            label: label.into(),
            description: "desc".into(),
        }],
        multiple: false,
        custom: false,
    }
}

#[test]
fn gate_approves_and_denies() {
    assert_eq!(ApprovalReason::HiddenPath.label(), "hidden path");
    assert_eq!(ApprovalReason::OutsideWorkspace.label(), "outside the workspace");
    assert!(approval_from(ApprovalReply::Answered(true)).is_ok());
    assert_eq!(
        approval_from(ApprovalReply::Answered(false)).unwrap_err(),
        "denied by user"
    );
    assert_eq!(
        approval_from(ApprovalReply::ChannelClosed).unwrap_err(),
        "approval channel closed"
    );
    assert_eq!(
        approval_from(ApprovalReply::Dropped).unwrap_err(),
        "approval cancelled"
    );
}

#[test]
fn gate_returns_answers() {
    assert!(check_questions(&vec![prompt("sidebar")]).is_ok());
    let answers = answers_from(Reply::Answered(Some(vec![vec!["sidebar".into()]]))).unwrap();
    assert_eq!(answers, vec![vec!["sidebar".to_string()]]);
}

#[test]
fn gate_dismiss_is_error() {
    assert_eq!(
        answers_from(Reply::Answered(None)).unwrap_err(),
        "The user dismissed this question"
    );
    assert_eq!(
        answers_from(Reply::Dropped).unwrap_err(),
        "The user dismissed this question"
    );
    assert_eq!(
        answers_from(Reply::ChannelClosed).unwrap_err(),
        "question channel closed"
    );
}

#[test]
fn gate_rejects_empty_questions() {
    assert!(check_questions(&Vec::new()).is_err());
    let mut bare = prompt("a");
    bare.options = vec![];
    assert!(check_questions(&vec![bare]).is_err());
}
