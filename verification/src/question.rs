//! Questions to the user.

use crate::text;
use vstd::prelude::*;

verus! {

/// An answer that the user may pick.
#[derive(Debug, Clone, PartialEq, Eq)]
pub struct QuestionOption {
    pub label: String,
    pub description: String,
}

/// A question: several answers may be picked where it is `multiple`, and one of
/// the user's own given where it is `custom`.
#[derive(Debug, Clone, PartialEq, Eq)]
pub struct QuestionPrompt {
    pub question: String,
    pub header: String,
    pub options: Vec<QuestionOption>,
    pub multiple: bool,
    pub custom: bool,
}

/// The labels picked for one question.
pub type Answer = Vec<String>;

/// The answers, in the order of the questions.
pub type Answers = Vec<Answer>;

/// The answers, unless the user dismissed the questions.
pub type AnswerResponse = Option<Answers>;

/// The labels that were picked, unless the user dismissed the questions.
pub open spec fn answers_view(a: AnswerResponse) -> Option<Seq<Seq<Seq<char>>>> {
    match a {
        Some(answers) => Some(Seq::new(answers@.len(), |i: int| text::texts(answers@[i]@))),
        None => None,
    }
}

/// Whether the question can be answered.
pub open spec fn answerable(q: QuestionPrompt) -> bool {
    q.options@.len() > 0 || q.custom
}

/// Whether the questions can be asked, or why not.
pub open spec fn question_fault(qs: Seq<QuestionPrompt>) -> Option<Seq<char>> {
    if qs.len() == 0 {
        Some("no questions provided"@)
    } else if exists|i: int| 0 <= i < qs.len() && !answerable(#[trigger] qs[i]) {
        Some("each question needs at least one option or a custom answer"@)
    } else {
        None
    }
}

/// Whether the questions can be asked, or why not.
pub fn check_questions(questions: &Vec<QuestionPrompt>) -> (r: Result<(), String>)
    ensures
        match question_fault(questions@) {
            Some(m) => r matches Err(e) && e@ == m,
            None => r is Ok,
        },
{
    if questions.len() == 0 {
        return Err("no questions provided".to_owned());
    }
    let mut i: usize = 0;
    while i < questions.len()
        invariant
            0 < questions@.len(),
            i <= questions@.len(),
            forall|k: int| 0 <= k < i ==> answerable(#[trigger] questions@[k]),
        decreases questions@.len() - i,
    {
        if questions[i].options.len() == 0 && !questions[i].custom {
            proof {
                assert(!answerable(questions@[i as int]));
            }
            return Err("each question needs at least one option or a custom answer".to_owned());
        }
        i += 1;
    }
    Ok(())
}

/// What came of handing the questions to the user.
#[derive(Debug)]
pub enum Reply {
    ChannelClosed,
    Dropped,
    Answered(AnswerResponse),
}

/// The answers that the asker gets, or why there are none.
pub fn answers_from(reply: Reply) -> (r: Result<Answers, String>)
    ensures
        match reply {
            Reply::ChannelClosed => r matches Err(e) && e@ == "question channel closed"@,
            Reply::Answered(Some(answers)) => r == Ok::<Answers, String>(answers),
            _ => r matches Err(e) && e@ == "The user dismissed this question"@,
        },
{
    match reply {
        Reply::ChannelClosed => Err("question channel closed".to_owned()),
        Reply::Answered(Some(answers)) => Ok(answers),
        _ => Err("The user dismissed this question".to_owned()),
    }
}

}
