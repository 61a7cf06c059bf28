//! The errors that parsing and running a program report.

use crate::label::{EggvizRewriteRuleLabel, label_text, LabelView};
use crate::text::{decimal_text, push_decimal};
use vstd::prelude::*;
use vstd::string::StringExecFns;

verus! {

/// Parsing context (program or rewrite rule byte offset) for annotating error
/// messages.
#[derive(Debug)]
pub enum EggvizProgramParseContext {
    Program {
        /// Byte offset in the passed string.
        offset: usize,
    },
    RewriteRule {
        /// The rule whose left or right side was being parsed.
        label: EggvizRewriteRuleLabel,
        /// Byte offset in the passed string.
        offset: usize,
    },
}

/// What a parsing context is.
pub enum ParseContextView {
    Program { offset: nat },
    RewriteRule { label: LabelView, offset: nat },
}

impl View for EggvizProgramParseContext {
    type V = ParseContextView;

    open spec fn view(&self) -> ParseContextView {
        match self {
            EggvizProgramParseContext::Program { offset } => ParseContextView::Program {
                offset: *offset as nat,
            },
            EggvizProgramParseContext::RewriteRule { label, offset } => {
                ParseContextView::RewriteRule { label: label@, offset: *offset as nat }
            },
        }
    }
}

impl Clone for EggvizProgramParseContext {
    fn clone(&self) -> (r: Self)
        ensures
            r@ == self@,
    {
        match self {
            EggvizProgramParseContext::Program { offset } => EggvizProgramParseContext::Program {
                offset: *offset,
            },
            EggvizProgramParseContext::RewriteRule {
                label,
                offset,
            } => EggvizProgramParseContext::RewriteRule { label: label.clone(), offset: *offset },
        }
    }
}

/// Program or rewrite rule parse error.
#[derive(Debug)]
pub struct EggvizProgramParseError {
    pub msg: String,
    pub context: Option<EggvizProgramParseContext>,
}

/// What a parse error is: its message and its context.
pub struct ParseErrorView {
    pub msg: Seq<char>,
    pub context: Option<ParseContextView>,
}

impl View for EggvizProgramParseError {
    type V = ParseErrorView;

    open spec fn view(&self) -> ParseErrorView {
        ParseErrorView {
            msg: self.msg@,
            context: match self.context {
                Some(c) => Some(c@),
                None => None,
            },
        }
    }
}

impl Clone for EggvizProgramParseError {
    fn clone(&self) -> (r: Self)
        ensures
            r@ == self@,
    {
        EggvizProgramParseError {
            msg: self.msg.clone(),
            context: match &self.context {
                Some(c) => Some(c.clone()),
                None => None,
            },
        }
    }
}

impl EggvizProgramParseError {
    /// An error with the given message and no context.
    pub fn context_less_owned(msg: String) -> (e: Self)
        ensures
            e.msg == msg,
            e.context is None,
    {
        EggvizProgramParseError { msg, context: None }
    }

    /// An error with the given message and no context.
    pub fn context_less(msg: &str) -> (e: Self)
        ensures
            e.msg@ == msg@,
            e.context is None,
    {
        Self::context_less_owned(String::from_str(msg))
    }

    /// The message of the error.
    pub fn to_string(&self) -> (s: String)
        ensures
            s@ == self.msg@,
    {
        self.msg.clone()
    }
}

/// A parse error without context: a message and nothing else.
#[derive(Debug)]
pub struct ParseError {
    msg: String,
}

impl View for ParseError {
    type V = Seq<char>;

    closed spec fn view(&self) -> Seq<char> {
        self.msg@
    }
}

impl ParseError {
    /// An error with the given message.
    pub fn new(msg: &str) -> (e: ParseError)
        ensures
            e@ == msg@,
    {
        ParseError { msg: String::from_str(msg) }
    }

    /// An error with the given message.
    pub fn new_owned(msg: String) -> (e: ParseError)
        ensures
            e@ == msg@,
    {
        ParseError { msg }
    }

    /// The message of the error.
    pub fn to_string(&self) -> (s: String)
        ensures
            s@ == self@,
    {
        self.msg.clone()
    }
}

/// What went wrong while a runtime was built or used.
///
/// A parse error, a duplicated label and an unknown label are errors in what
/// the caller configured; a cyclic extraction is an error in the structure of
/// the graph; an internal error reports a broken contract.
#[derive(Debug)]
pub enum EggvizRuntimeError {
    ParseError(EggvizProgramParseError),
    DuplicateRewriteRuleLabel(EggvizRewriteRuleLabel),
    /// A step named a rule that the rule set does not hold.
    UnknownRewriteRuleLabel(EggvizRewriteRuleLabel),
    /// The class to extract from reaches itself through its own nodes.
    ExtractionCycle(usize),
    InternalError(String),
}

/// What a runtime error is.
pub enum RuntimeErrorView {
    ParseError(ParseErrorView),
    DuplicateRewriteRuleLabel(LabelView),
    UnknownRewriteRuleLabel(LabelView),
    ExtractionCycle(nat),
    InternalError(Seq<char>),
}

impl View for EggvizRuntimeError {
    type V = RuntimeErrorView;

    open spec fn view(&self) -> RuntimeErrorView {
        match self {
            EggvizRuntimeError::ParseError(e) => RuntimeErrorView::ParseError(e@),
            EggvizRuntimeError::DuplicateRewriteRuleLabel(l) => {
                RuntimeErrorView::DuplicateRewriteRuleLabel(l@)
            },
            EggvizRuntimeError::UnknownRewriteRuleLabel(l) => {
                RuntimeErrorView::UnknownRewriteRuleLabel(l@)
            },
            EggvizRuntimeError::ExtractionCycle(c) => RuntimeErrorView::ExtractionCycle(*c as nat),
            EggvizRuntimeError::InternalError(msg) => RuntimeErrorView::InternalError(msg@),
        }
    }
}

impl Clone for EggvizRuntimeError {
    fn clone(&self) -> (r: Self)
        ensures
            r@ == self@,
    {
        match self {
            EggvizRuntimeError::ParseError(e) => EggvizRuntimeError::ParseError(e.clone()),
            EggvizRuntimeError::DuplicateRewriteRuleLabel(l) => {
                EggvizRuntimeError::DuplicateRewriteRuleLabel(l.clone())
            },
            EggvizRuntimeError::UnknownRewriteRuleLabel(l) => {
                EggvizRuntimeError::UnknownRewriteRuleLabel(l.clone())
            },
            EggvizRuntimeError::ExtractionCycle(c) => EggvizRuntimeError::ExtractionCycle(*c),
            EggvizRuntimeError::InternalError(msg) => EggvizRuntimeError::InternalError(
                msg.clone(),
            ),
        }
    }
}

/// The text that reports a runtime error.
pub open spec fn runtime_error_text(e: RuntimeErrorView) -> Seq<char> {
    match e {
        RuntimeErrorView::ParseError(e) => "Parsing Error: "@ + e.msg,
        RuntimeErrorView::DuplicateRewriteRuleLabel(l) => "Error: Rewrite rule `"@ + label_text(l)
            + "` was duplicated."@,
        RuntimeErrorView::UnknownRewriteRuleLabel(l) => "Error: Rewrite rule `"@ + label_text(l)
            + "` is not defined."@,
        RuntimeErrorView::ExtractionCycle(c) => "Error: Class "@ + decimal_text(c)
            + " contains itself."@,
        RuntimeErrorView::InternalError(msg) => "Internal Error: "@ + msg,
    }
}

impl EggvizRuntimeError {
    /// The text that reports the error.
    pub fn to_string(&self) -> (s: String)
        ensures
            s@ == runtime_error_text(self@),
    {
        match self {
            EggvizRuntimeError::ParseError(e) => {
                let mut s = String::from_str("Parsing Error: ");
                s.append(e.msg.as_str());
                s
            },
            EggvizRuntimeError::DuplicateRewriteRuleLabel(l) => {
                let mut s = String::from_str("Error: Rewrite rule `");
                s.append(l.to_string().as_str());
                s.append("` was duplicated.");
                s
            },
            EggvizRuntimeError::UnknownRewriteRuleLabel(l) => {
                let mut s = String::from_str("Error: Rewrite rule `");
                s.append(l.to_string().as_str());
                s.append("` is not defined.");
                s
            },
            EggvizRuntimeError::ExtractionCycle(c) => {
                let mut s = String::from_str("Error: Class ");
                push_decimal(&mut s, *c);
                s.append(" contains itself.");
                s
            },
            EggvizRuntimeError::InternalError(msg) => {
                let mut s = String::from_str("Internal Error: ");
                s.append(msg.as_str());
                s
            },
        }
    }
}

} // verus!
