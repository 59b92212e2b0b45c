//! What is exchanged with a language model: messages, token counts, and the
//! file changes that tools report.

use crate::views;
use crate::views::{duplicate_all, duplicate_opt, Duplicate};
use vstd::prelude::*;

verus! {

/// Who a message is from.
#[derive(Debug, Clone, Copy, PartialEq, Eq, Structural)]
pub enum Role {
    System,
    User,
    Assistant,
}

/// One message of a conversation.
#[derive(Debug, Clone, PartialEq)]
pub struct ChatMsg {
    pub role: Role,
    pub content: String,
}

/// The content of a [`ChatMsg`].
#[verifier::ext_equal]
pub struct ChatView {
    pub role: Role,
    pub content: Seq<char>,
}

impl View for ChatMsg {
    type V = ChatView;

    open spec fn view(&self) -> ChatView {
        ChatView { role: self.role, content: self.content@ }
    }
}

/// The contents of a list of messages.
pub open spec fn chat_views(v: Seq<ChatMsg>) -> Seq<ChatView> {
    Seq::new(v.len(), |i: int| v[i]@)
}

impl ChatMsg {
    /// A system message.
    pub fn system(content: &str) -> (m: ChatMsg)
        ensures
            m@ == (ChatView { role: Role::System, content: content@ }),
    {
        ChatMsg { role: Role::System, content: content.to_owned() }
    }

    /// A message of the user.
    pub fn user(content: &str) -> (m: ChatMsg)
        ensures
            m@ == (ChatView { role: Role::User, content: content@ }),
    {
        ChatMsg { role: Role::User, content: content.to_owned() }
    }

    /// A message of the model.
    pub fn assistant(content: &str) -> (m: ChatMsg)
        ensures
            m@ == (ChatView { role: Role::Assistant, content: content@ }),
    {
        ChatMsg { role: Role::Assistant, content: content.to_owned() }
    }

    /// A copy of the message.
    pub fn copy(&self) -> (m: ChatMsg)
        ensures
            m@ == self@,
    {
        ChatMsg { role: self.role, content: self.content.clone() }
    }
}

/// The token counts of one request, or of several together.
#[derive(Debug, Clone, Copy, PartialEq, Eq, Structural, Default)]
pub struct TokenUsage {
    pub input_tokens: u64,
    pub output_tokens: u64,
    pub total_tokens: u64,
    pub cached_input_tokens: u64,
    pub reasoning_tokens: u64,
}

/// The sum of two counts, capped at the largest one.
pub open spec fn capped_sum(a: u64, b: u64) -> u64 {
    if a + b > u64::MAX {
        u64::MAX
    } else {
        (a + b) as u64
    }
}

/// The sums of the counts, each capped at the largest one.
pub open spec fn usage_sum(a: TokenUsage, b: TokenUsage) -> TokenUsage {
    TokenUsage {
        input_tokens: capped_sum(a.input_tokens, b.input_tokens),
        output_tokens: capped_sum(a.output_tokens, b.output_tokens),
        total_tokens: capped_sum(a.total_tokens, b.total_tokens),
        cached_input_tokens: capped_sum(a.cached_input_tokens, b.cached_input_tokens),
        reasoning_tokens: capped_sum(a.reasoning_tokens, b.reasoning_tokens),
    }
}

/// No tokens.
pub open spec fn no_usage() -> TokenUsage {
    TokenUsage {
        input_tokens: 0,
        output_tokens: 0,
        total_tokens: 0,
        cached_input_tokens: 0,
        reasoning_tokens: 0,
    }
}

impl TokenUsage {
    /// No tokens.
    pub fn none() -> (r: TokenUsage)
        ensures
            r == no_usage(),
    {
        TokenUsage {
            input_tokens: 0,
            output_tokens: 0,
            total_tokens: 0,
            cached_input_tokens: 0,
            reasoning_tokens: 0,
        }
    }

    /// The sums of the counts.
    pub fn plus(self, other: TokenUsage) -> (r: TokenUsage)
        ensures
            r == usage_sum(self, other),
    {
        TokenUsage {
            input_tokens: self.input_tokens.saturating_add(other.input_tokens),
            output_tokens: self.output_tokens.saturating_add(other.output_tokens),
            total_tokens: self.total_tokens.saturating_add(other.total_tokens),
            cached_input_tokens: self.cached_input_tokens.saturating_add(
                other.cached_input_tokens,
            ),
            reasoning_tokens: self.reasoning_tokens.saturating_add(other.reasoning_tokens),
        }
    }
}

/// What a line of a diff is.
#[derive(Debug, Clone, Copy, PartialEq, Eq, Structural)]
pub enum DiffLineKind {
    Context,
    Add,
    Remove,
    Ellipsis,
}

/// One line of a diff: its numbers in the two texts, and the byte ranges of
/// the text that are emphasized.
#[derive(Debug, Clone, PartialEq)]
pub struct DiffLine {
    pub kind: DiffLineKind,
    pub old_line: Option<u64>,
    pub new_line: Option<u64>,
    pub text: String,
    pub edits: Vec<(u32, u32)>,
}

/// The content of a [`DiffLine`].
#[verifier::ext_equal]
pub struct DiffLineView {
    pub kind: DiffLineKind,
    pub old_line: Option<u64>,
    pub new_line: Option<u64>,
    pub text: Seq<char>,
    pub edits: Seq<(u32, u32)>,
}

impl View for DiffLine {
    type V = DiffLineView;

    open spec fn view(&self) -> DiffLineView {
        DiffLineView {
            kind: self.kind,
            old_line: self.old_line,
            new_line: self.new_line,
            text: self.text@,
            edits: self.edits@,
        }
    }
}

/// The contents of a list of diff lines.
pub open spec fn diff_views(v: Seq<DiffLine>) -> Seq<DiffLineView> {
    Seq::new(v.len(), |i: int| v[i]@)
}

/// What a patch did to a file.
#[derive(Debug, Clone, Copy, PartialEq, Eq, Structural)]
pub enum PatchFileKind {
    Add,
    Update,
    Delete,
}

/// The change of one file by a patch.
#[derive(Debug, Clone, PartialEq)]
pub struct PatchFileChange {
    pub path: String,
    pub kind: PatchFileKind,
    pub moved_to: Option<String>,
    pub original: Option<String>,
    pub new: Option<String>,
    pub diff: Vec<DiffLine>,
}

/// The content of a [`PatchFileChange`].
#[verifier::ext_equal]
pub struct PatchFileView {
    pub path: Seq<char>,
    pub kind: PatchFileKind,
    pub moved_to: Option<Seq<char>>,
    pub original: Option<Seq<char>>,
    pub new: Option<Seq<char>>,
    pub diff: Seq<DiffLineView>,
}

impl View for PatchFileChange {
    type V = PatchFileView;

    open spec fn view(&self) -> PatchFileView {
        PatchFileView {
            path: self.path@,
            kind: self.kind,
            moved_to: views::opt_view(self.moved_to),
            original: views::opt_view(self.original),
            new: views::opt_view(self.new),
            diff: views::views(self.diff@),
        }
    }
}

/// The file changes that a tool call made.
#[derive(Debug, Clone, PartialEq)]
#[allow(inconsistent_fields)]
pub enum FileChange {
    Edit { path: String, diff: Vec<DiffLine>, original: String, new: String },
    Write { path: String, diff: Vec<DiffLine>, original: Option<String>, new: String },
    Patch { files: Vec<PatchFileChange> },
}

/// The content of a [`FileChange`].
#[verifier::ext_equal]
#[allow(inconsistent_fields)]
pub enum FileChangeView {
    Edit { path: Seq<char>, diff: Seq<DiffLineView>, original: Seq<char>, new: Seq<char> },
    Write { path: Seq<char>, diff: Seq<DiffLineView>, original: Option<Seq<char>>, new: Seq<char> },
    Patch { files: Seq<PatchFileView> },
}

impl View for FileChange {
    type V = FileChangeView;

    open spec fn view(&self) -> FileChangeView {
        match *self {
            FileChange::Edit { path, diff, original, new } => FileChangeView::Edit {
                path: path@,
                diff: views::views(diff@),
                original: original@,
                new: new@,
            },
            FileChange::Write { path, diff, original, new } => FileChangeView::Write {
                path: path@,
                diff: views::views(diff@),
                original: views::opt_view(original),
                new: new@,
            },
            FileChange::Patch { files } => FileChangeView::Patch { files: views::views(files@) },
        }
    }
}

impl Duplicate for DiffLine {
    fn duplicate(&self) -> (r: Self) {
        let mut edits: Vec<(u32, u32)> = Vec::new();
        let mut i: usize = 0;
        while i < self.edits.len()
            invariant
                i <= self.edits@.len(),
                edits@ =~= self.edits@.take(i as int),
            decreases self.edits@.len() - i,
        {
            edits.push(self.edits[i]);
            i += 1;
        }
        proof {
            assert(edits@ =~= self.edits@);
        }
        DiffLine {
            kind: self.kind,
            old_line: self.old_line,
            new_line: self.new_line,
            text: self.text.clone(),
            edits,
        }
    }
}

impl Duplicate for PatchFileChange {
    fn duplicate(&self) -> (r: Self) {
        PatchFileChange {
            path: self.path.clone(),
            kind: self.kind,
            moved_to: duplicate_opt(&self.moved_to),
            original: duplicate_opt(&self.original),
            new: duplicate_opt(&self.new),
            diff: duplicate_all(&self.diff),
        }
    }
}

impl Duplicate for FileChange {
    fn duplicate(&self) -> (r: Self) {
        match self {
            FileChange::Edit { path, diff, original, new } => FileChange::Edit {
                path: path.clone(),
                diff: duplicate_all(diff),
                original: original.clone(),
                new: new.clone(),
            },
            FileChange::Write { path, diff, original, new } => FileChange::Write {
                path: path.clone(),
                diff: duplicate_all(diff),
                original: duplicate_opt(original),
                new: new.clone(),
            },
            FileChange::Patch { files } => FileChange::Patch { files: duplicate_all(files) },
        }
    }
}

impl Duplicate for ChatMsg {
    fn duplicate(&self) -> (r: Self) {
        self.copy()
    }
}

/// A model that a provider offers, and how much context it takes, if known.
#[derive(Debug, Clone)]
pub struct ModelInfo {
    pub id: String,
    pub context_length: Option<u32>,
}

}
