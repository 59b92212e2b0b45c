//! What can go wrong with a settings file.

use crate::text;
use crate::text::{chars_of, decimal_of};
use crate::views;
use vstd::prelude::*;

verus! {

/// Where and why a settings file cannot be read.
#[derive(Debug, Clone)]
pub struct ConfigParseError {
    pub message: String,
    pub line: usize,
    pub column: usize,
    pub length: usize,
    pub help: Option<String>,
}

/// The content of a [`ConfigParseError`].
#[verifier::ext_equal]
pub struct ParseErrorView {
    pub message: Seq<char>,
    pub line: nat,
    pub column: nat,
    pub length: nat,
    pub help: Option<Seq<char>>,
}

impl View for ConfigParseError {
    type V = ParseErrorView;

    open spec fn view(&self) -> ParseErrorView {
        ParseErrorView {
            message: self.message@,
            line: self.line as nat,
            column: self.column as nat,
            length: self.length as nat,
            help: views::opt_view(self.help),
        }
    }
}

/// What is wrong with a settings file: its text, or getting at it.
#[derive(Debug, Clone)]
pub enum CoreError {
    ConfigParse(ConfigParseError),
    ConfigIo(String),
}

/// The content of a [`CoreError`].
#[verifier::ext_equal]
pub enum ErrorView {
    ConfigParse(ParseErrorView),
    ConfigIo(Seq<char>),
}

impl View for CoreError {
    type V = ErrorView;

    open spec fn view(&self) -> ErrorView {
        match self {
            CoreError::ConfigParse(e) => ErrorView::ConfigParse(e@),
            CoreError::ConfigIo(m) => ErrorView::ConfigIo(m@),
        }
    }
}

impl CoreError {
    /// The error in words: the place, the message, and the advice if there is any.
    pub fn text(&self) -> (r: String)
        ensures
            r@ == match self@ {
                ErrorView::ConfigIo(m) => m,
                ErrorView::ConfigParse(e) => text::decimal(e.line) + ":"@ + text::decimal(e.column)
                    + ": "@ + e.message + (match e.help {
                    Some(h) => " ("@ + h + ")"@,
                    None => Seq::empty(),
                }),
            },
    {
        match self {
            CoreError::ConfigIo(m) => m.clone(),
            CoreError::ConfigParse(e) => {
                let mut s: String = decimal_of(e.line as u64);
                s.append(":");
                s.append(decimal_of(e.column as u64).as_str());
                s.append(": ");
                s.append(e.message.as_str());
                let ghost start = s@;
                if let Some(h) = &e.help {
                    s.append(" (");
                    s.append(h.as_str());
                    s.append(")");
                    proof {
                        assert(s@ =~= start + (" ("@ + h@ + ")"@));
                    }
                } else {
                    proof {
                        assert(s@ =~= start + Seq::<char>::empty());
                    }
                }
                s
            },
        }
    }
}

/// How many line breaks the text holds.
pub open spec fn breaks(s: Seq<char>) -> nat
    decreases s.len(),
{
    if s.len() == 0 {
        0
    } else {
        breaks(s.drop_last()) + if s.last() == '\n' {
            1nat
        } else {
            0nat
        }
    }
}

/// How many characters follow the last line break.
pub open spec fn after_break(s: Seq<char>) -> nat
    decreases s.len(),
{
    if s.len() == 0 || s.last() == '\n' {
        0
    } else {
        after_break(s.drop_last()) + 1
    }
}

/// One more, as far as the machine counts.
pub open spec fn one_more(n: nat) -> nat {
    if n < usize::MAX {
        n + 1
    } else {
        usize::MAX as nat
    }
}

/// The text before the place.
pub open spec fn before(input: Seq<char>, offset: nat) -> Seq<char> {
    if offset <= input.len() {
        input.take(offset as int)
    } else {
        input
    }
}

/// The line and the column of a place, counted from one.
pub open spec fn line_column(input: Seq<char>, offset: nat) -> (nat, nat) {
    (one_more(breaks(before(input, offset))), one_more(after_break(before(input, offset))))
}

/// The line and the column of a place, counted from one, with the length.
pub fn span_to_line_column(input: &str, offset: usize, length: usize) -> (r: (usize, usize, usize))
    ensures
        (r.0 as nat, r.1 as nat) == line_column(input@, offset as nat),
        r.2 == length,
{
    let cs = chars_of(input);
    let n: usize = cs.len();
    let end: usize = if offset <= n {
        offset
    } else {
        n
    };
    let ghost whole = before(input@, offset as nat);
    let mut line: usize = 0;
    let mut column: usize = 0;
    let mut i: usize = 0;
    proof {
        assert(input@.take(n as int) =~= input@);
        assert(whole == input@.take(end as int));
    }
    while i < end
        invariant
            cs@ == input@,
            i <= end <= cs@.len(),
            line <= i,
            column <= i,
            line == breaks(input@.take(i as int)),
            column == after_break(input@.take(i as int)),
        decreases end - i,
    {
        proof {
            assert(input@.take(i + 1).drop_last() =~= input@.take(i as int));
        }
        if cs[i] == '\n' {
            line += 1;
            column = 0;
        } else {
            column += 1;
        }
        i += 1;
    }
    (line.saturating_add(1), column.saturating_add(1), length)
}

/// A fault in a settings file: what is wrong, and which stretch of it.
#[verifier::ext_equal]
pub struct Fault {
    pub message: Seq<char>,
    pub help: Option<Seq<char>>,
    pub offset: nat,
    pub length: nat,
}

/// The fault as an error, with its line and column in the file.
pub open spec fn located(input: Seq<char>, fault: Fault) -> ErrorView {
    let (line, column) = line_column(input, fault.offset);
    ErrorView::ConfigParse(
        ParseErrorView {
            message: fault.message,
            line,
            column,
            length: fault.length,
            help: fault.help,
        },
    )
}

/// The error for a stretch of a settings file.
pub fn error_at(
    input: &str,
    offset: usize,
    length: usize,
    message: String,
    help: Option<String>,
) -> (r: CoreError)
    ensures
        r@ == located(
            input@,
            Fault {
                message: message@,
                help: views::opt_view(help),
                offset: offset as nat,
                length: length as nat,
            },
        ),
{
    let (line, column, length) = span_to_line_column(input, offset, length);
    CoreError::ConfigParse(ConfigParseError { message, line, column, length, help })
}

/// What came of reading a file.
#[derive(Debug)]
pub enum FileRead {
    Text(String),
    Missing,
    Failed(String),
}

}
