//! A small applicative language written with parentheses: its terms, how they
//! are printed for the rewriting engine, and the parser that reads them.

use crate::error::{EggvizProgramParseError, ParseErrorView};
use crate::label::{EggvizRewriteRuleLabel, LabelView};
use crate::runtime::{EggvizProgram, EggvizRewriteRule};
use crate::text::{chars_of, decimal_text, is_space, push_decimal, string_of};
use vstd::prelude::*;
use vstd::string::StringExecFns;

verus! {

/// A leaf of a term. A concrete variable stands for itself; a generic one is
/// a placeholder of a rewrite rule.
pub enum Variable {
    Concrete(String),
    Generic(String),
}

/// What a variable is.
pub enum VariableView {
    Concrete(Seq<char>),
    Generic(Seq<char>),
}

impl View for Variable {
    type V = VariableView;

    open spec fn view(&self) -> VariableView {
        match self {
            Variable::Concrete(name) => VariableView::Concrete(name@),
            Variable::Generic(name) => VariableView::Generic(name@),
        }
    }
}

/// A function symbol: its name and the number of its arguments.
pub struct Function {
    name: String,
    arity: usize,
}

/// What a function symbol is.
pub struct FunctionView {
    pub name: Seq<char>,
    pub arity: nat,
}

impl View for Function {
    type V = FunctionView;

    closed spec fn view(&self) -> FunctionView {
        FunctionView { name: self.name@, arity: self.arity as nat }
    }
}

/// A term: a variable, or a function applied to terms.
pub enum Term {
    Singleton(Variable),
    Invocation(Function, Vec<Term>),
}

/// What a term is.
pub enum TermView {
    Singleton(VariableView),
    Invocation(FunctionView, Seq<TermView>),
}

impl View for Term {
    type V = TermView;

    open spec fn view(&self) -> TermView
        decreases self,
    {
        match self {
            Term::Singleton(var) => TermView::Singleton(var@),
            Term::Invocation(f, args) => TermView::Invocation(
                f@,
                args_view(args),
            ),
        }
    }
}

/// What a list of terms is.
pub open spec fn args_view(args: &Vec<Term>) -> Seq<TermView>
    decreases args, 1nat,
{
    Seq::new(args.len() as nat, |i: int| arg_view(args, i))
}

/// What the `i`-th of a list of terms is.
pub open spec fn arg_view(args: &Vec<Term>, i: int) -> TermView
    decreases args, 0nat,
{
    if 0 <= i < args.len() {
        args[i]@
    } else {
        arbitrary()
    }
}

/// The text of a variable: its name, after a question mark if it is generic.
pub open spec fn variable_text(v: VariableView) -> Seq<char> {
    match v {
        VariableView::Concrete(name) => name,
        VariableView::Generic(name) => seq!['?'] + name,
    }
}

/// The text of a term: a variable's text, or in parentheses the function's
/// name and, each after one space, the texts of the arguments.
pub open spec fn term_text(t: TermView) -> Seq<char>
    decreases t,
{
    match t {
        TermView::Singleton(var) => variable_text(var),
        TermView::Invocation(f, args) => seq!['('] + f.name + args_text(args, args.len())
            + seq![')'],
    }
}

/// The texts of the first `n` terms of `args`, each after one space.
pub open spec fn args_text(args: Seq<TermView>, n: nat) -> Seq<char>
    decreases args, n,
{
    if n == 0 || n > args.len() {
        Seq::empty()
    } else {
        args_text(args, (n - 1) as nat) + seq![' '] + term_text(args[n - 1])
    }
}

impl Function {
    /// The function symbol with the given name and number of arguments.
    pub fn new(name: String, arity: usize) -> (f: Function)
        ensures
            f@.name == name@,
            f@.arity == arity,
    {
        Function { name, arity }
    }

    /// The name of the function symbol.
    pub fn name(&self) -> (s: &str)
        ensures
            s@ == self@.name,
    {
        self.name.as_str()
    }

    /// The number of arguments of the function symbol.
    pub fn arity(&self) -> (n: usize)
        ensures
            n == self@.arity,
    {
        self.arity
    }
}

impl Variable {
    /// The text of the variable.
    pub fn to_egg(&self) -> (s: String)
        ensures
            s@ == variable_text(self@),
    {
        match self {
            Variable::Concrete(name) => name.clone(),
            Variable::Generic(name) => {
                let mut s = String::new();
                s.push('?');
                s.append(name.as_str());
                s
            },
        }
    }
}

impl Term {
    /// The text of the term.
    pub fn to_egg(&self) -> (s: String)
        ensures
            s@ == term_text(self@),
        decreases self,
    {
        match self {
            Term::Singleton(var) => var.to_egg(),
            Term::Invocation(f, args) => {
                let mut s = String::new();
                s.push('(');
                s.append(f.name.as_str());
                let ghost views = args_view(args);
                let mut i: usize = 0;
                while i < args.len()
                    invariant
                        i <= args.len(),
                        views == args_view(args),
                        decreases_to!(self => args),
                        s@ == seq!['('] + f@.name + args_text(views, i as nat),
                    decreases args.len() - i,
                {
                    s.push(' ');
                    let a = args[i].to_egg();
                    s.append(a.as_str());
                    assert(s@ =~= seq!['('] + f@.name + args_text(views, (i + 1) as nat));
                    i += 1;
                }
                s.push(')');
                s
            },
        }
    }
}

/// The arities under which function names have been used so far.
pub struct ArityChecker {
    map: Vec<(String, usize)>,
}

/// The map that a list of entries stands for; a later entry for a name
/// overrides an earlier one.
pub closed spec fn entries_map(entries: Seq<(String, usize)>) -> Map<Seq<char>, nat>
    decreases entries.len(),
{
    if entries.len() == 0 {
        Map::empty()
    } else {
        entries_map(entries.drop_last()).insert(entries.last().0@, entries.last().1 as nat)
    }
}

impl View for ArityChecker {
    type V = Map<Seq<char>, nat>;

    closed spec fn view(&self) -> Map<Seq<char>, nat> {
        entries_map(self.map@)
    }
}

impl Clone for ArityChecker {
    fn clone(&self) -> (r: Self)
        ensures
            r@ == self@,
    {
        let mut map: Vec<(String, usize)> = Vec::new();
        let mut i: usize = 0;
        while i < self.map.len()
            invariant
                i <= self.map.len(),
                map@ == self.map@.subrange(0, i as int),
            decreases self.map.len() - i,
        {
            map.push((self.map[i].0.clone(), self.map[i].1));
            i += 1;
        }
        assert(map@ =~= self.map@);
        ArityChecker { map }
    }
}

/// The message for a function name used with a second arity.
pub open spec fn arity_message(name: Seq<char>, arity: nat, declared: nat) -> Seq<char> {
    "Cannot instantiate function with symbol '"@ + name + "' with an arity of "@ + decimal_text(
        arity,
    ) + ", because it was already declared with an arity of "@ + decimal_text(declared) + "."@
}

impl ArityChecker {
    /// A checker that has seen no function yet.
    pub fn new() -> (c: ArityChecker)
        ensures
            c@ == Map::<Seq<char>, nat>::empty(),
    {
        ArityChecker { map: Vec::new() }
    }

    /// The arity under which `name` was declared, if it was.
    pub fn declared_arity(&self, name: &str) -> (r: Option<usize>)
        ensures
            match r {
                Some(a) => self@.contains_key(name@) && self@[name@] == a,
                None => !self@.contains_key(name@),
            },
    {
        let wanted = String::from_str(name);
        let mut i: usize = self.map.len();
        assert(self.map@.subrange(0, i as int) =~= self.map@);
        while i > 0
            invariant
                i <= self.map.len(),
                wanted@ == name@,
                entries_map(self.map@).contains_key(name@) == entries_map(
                    self.map@.subrange(0, i as int),
                ).contains_key(name@),
                entries_map(self.map@).contains_key(name@) ==> entries_map(self.map@)[name@]
                    == entries_map(self.map@.subrange(0, i as int))[name@],
            decreases i,
        {
            let ghost cur = self.map@.subrange(0, i as int);
            assert(cur.drop_last() =~= self.map@.subrange(0, i - 1));
            i -= 1;
            if self.map[i].0 == wanted {
                return Some(self.map[i].1);
            }
        }
        None
    }

    /// Records that `name` is used with `new_arity` arguments, or reports
    /// that it was declared with another number.
    pub fn check_new_arity(&mut self, name: &str, new_arity: usize) -> (r: Result<
        (),
        EggvizProgramParseError,
    >)
        ensures
            match old(self)@.get(name@) {
                Some(declared) => {
                    &&& final(self)@ == old(self)@
                    &&& declared == new_arity ==> r is Ok
                    &&& declared != new_arity ==> r is Err && r->Err_0@.msg == arity_message(
                        name@,
                        new_arity as nat,
                        declared,
                    ) && r->Err_0@.context is None
                },
                None => r is Ok && final(self)@ == old(self)@.insert(name@, new_arity as nat),
            },
    {
        match self.declared_arity(name) {
            Some(existing_arity) => {
                if existing_arity != new_arity {
                    let mut msg = String::from_str("Cannot instantiate function with symbol '");
                    msg.append(name);
                    msg.append("' with an arity of ");
                    push_decimal(&mut msg, new_arity);
                    msg.append(", because it was already declared with an arity of ");
                    push_decimal(&mut msg, existing_arity);
                    msg.append(".");
                    Err(EggvizProgramParseError::context_less_owned(msg))
                } else {
                    Ok(())
                }
            },
            None => {
                self.map.push((String::from_str(name), new_arity));
                assert(self.map@.drop_last() =~= old(self).map@);
                Ok(())
            },
        }
    }
}

/// One token of the language.
pub enum Token {
    LParen,
    GenericVariable(String),
    ConcreteVariable(String),
    RParen,
    /// The end of the text.
    End,
}

/// What a token is.
pub enum TokenView {
    LParen,
    GenericVariable(Seq<char>),
    ConcreteVariable(Seq<char>),
    RParen,
    /// The end of the text.
    End,
}

impl View for Token {
    type V = TokenView;

    open spec fn view(&self) -> TokenView {
        match self {
            Token::LParen => TokenView::LParen,
            Token::GenericVariable(name) => TokenView::GenericVariable(name@),
            Token::ConcreteVariable(name) => TokenView::ConcreteVariable(name@),
            Token::RParen => TokenView::RParen,
            Token::End => TokenView::End,
        }
    }
}

/// Whether `c` ends a name: white space or a parenthesis.
pub open spec fn is_delimiter(c: char) -> bool {
    is_space(c) || c == '(' || c == ')'
}

/// The number of white space characters of `s` from `pos` on, up to the
/// first other character.
pub open spec fn space_len(s: Seq<char>, pos: int) -> nat
    decreases s.len() - pos,
{
    if 0 <= pos < s.len() && is_space(s[pos]) {
        1 + space_len(s, pos + 1)
    } else {
        0
    }
}

/// The number of characters of `s` from `pos` on, up to the first delimiter.
pub open spec fn name_len(s: Seq<char>, pos: int) -> nat
    decreases s.len() - pos,
{
    if 0 <= pos < s.len() && !is_delimiter(s[pos]) {
        1 + name_len(s, pos + 1)
    } else {
        0
    }
}

/// The token of a name: generic if the name begins with `p`.
pub open spec fn name_token(name: Seq<char>) -> TokenView {
    if name.len() > 0 && name[0] == 'p' {
        TokenView::GenericVariable(name)
    } else {
        TokenView::ConcreteVariable(name)
    }
}

/// The first token of `s` from `pos` on, and the number of characters up to
/// its end. White space before the token is passed over; a parenthesis is a
/// token by itself; anything else begins a name, which runs up to the next
/// delimiter. Where only white space is left there is no token.
pub open spec fn next_token(s: Seq<char>, pos: int) -> (TokenView, nat) {
    let skipped = space_len(s, pos);
    let p = pos + skipped;
    if !(0 <= p < s.len()) {
        (TokenView::End, skipped)
    } else if s[p] == '(' {
        (TokenView::LParen, skipped + 1)
    } else if s[p] == ')' {
        (TokenView::RParen, skipped + 1)
    } else {
        let n = 1 + name_len(s, p + 1);
        (name_token(s.subrange(p, p + n)), skipped + n)
    }
}

/// White space never runs past the end of the text.
pub proof fn space_len_bound(s: Seq<char>, pos: int)
    requires
        0 <= pos <= s.len(),
    ensures
        pos + space_len(s, pos) <= s.len(),
    decreases s.len() - pos,
{
    if pos < s.len() && is_space(s[pos]) {
        space_len_bound(s, pos + 1);
    }
}

/// A name never runs past the end of the text.
pub proof fn name_len_bound(s: Seq<char>, pos: int)
    requires
        0 <= pos <= s.len(),
    ensures
        pos + name_len(s, pos) <= s.len(),
    decreases s.len() - pos,
{
    if pos < s.len() && !is_delimiter(s[pos]) {
        name_len_bound(s, pos + 1);
    }
}

/// A token is not empty, begins within the text and ends within it.
pub proof fn next_token_bound(s: Seq<char>, pos: int)
    ensures
        !(next_token(s, pos).0 is End) ==> 0 <= pos < pos + next_token(s, pos).1 <= s.len(),
        0 <= pos <= s.len() ==> pos + next_token(s, pos).1 <= s.len(),
{
    if 0 <= pos <= s.len() {
        space_len_bound(s, pos);
        let p = pos + space_len(s, pos);
        if p < s.len() {
            name_len_bound(s, p + 1);
        }
    }
}

/// The number of characters of `s` from `pos` on.
pub open spec fn remaining(s: Seq<char>, pos: int) -> nat {
    if pos <= s.len() {
        (s.len() - pos) as nat
    } else {
        0
    }
}

/// Why a text is no term.
pub enum ParseFailure {
    /// The text holds no token.
    EmptyExpression,
    /// A token follows the term.
    TrailingToken,
    /// A generic variable stands in a program.
    GenericInProgram,
    /// A closing parenthesis stands where a term was expected.
    UnexpectedClose,
    /// The text ends inside an application.
    UnmatchedOpen,
    /// An opening parenthesis stands where a function name was expected.
    DoubleOpen,
    /// A closing parenthesis stands where a function name was expected.
    EmptyBody,
    /// The text ends where a function name was expected.
    UnexpectedEnd,
    /// A function name is used with `arity` arguments, and was declared
    /// with `declared`.
    ArityMismatch { name: Seq<char>, arity: nat, declared: nat },
}

/// The message that reports a failure.
pub open spec fn failure_message(f: ParseFailure) -> Seq<char> {
    match f {
        ParseFailure::EmptyExpression => "Empty expression."@,
        ParseFailure::TrailingToken => "Unexpected token at end of expression."@,
        ParseFailure::GenericInProgram => "Unexpected generic variable in program. Variables beginning with 'p' are reserved for generic variables in rewrite rules."@,
        ParseFailure::UnexpectedClose => "Expected function term or variable name. Got ')'."@,
        ParseFailure::UnmatchedOpen => "Unmatched '(' token."@,
        ParseFailure::DoubleOpen => "Cannot have two '(' tokens in a row."@,
        ParseFailure::EmptyBody => "Empty function body."@,
        ParseFailure::UnexpectedEnd => "Unexpected end of input."@,
        ParseFailure::ArityMismatch { name, arity, declared } => arity_message(
            name,
            arity,
            declared,
        ),
    }
}

/// What reading a part of the text gave: the value or the failure, the number
/// of characters read, and the arities known afterwards.
pub struct Parsed<T> {
    pub value: Result<T, ParseFailure>,
    pub read: nat,
    pub arities: Map<Seq<char>, nat>,
}

/// What follows from the token `tok` that ended at `pos`: a term, or the end
/// of an argument list (`Ok(None)`). Inside an application (`internal`) a
/// closing parenthesis ends the list and the end of the text is a failure;
/// outside, it is the other way round. `read` counts from `pos`.
pub open spec fn parse_after(
    s: Seq<char>,
    tok: TokenView,
    pos: int,
    arities: Map<Seq<char>, nat>,
    disallow_generics: bool,
    internal: bool,
) -> Parsed<Option<TermView>>
    decreases remaining(s, pos), 2nat,
{
    match tok {
        TokenView::LParen => {
            let o = parse_function(s, pos, arities, disallow_generics);
            Parsed {
                value: match o.value {
                    Ok(t) => Ok(Some(t)),
                    Err(f) => Err(f),
                },
                read: o.read,
                arities: o.arities,
            }
        },
        TokenView::GenericVariable(name) => Parsed {
            value: if disallow_generics {
                Err(ParseFailure::GenericInProgram)
            } else {
                Ok(Some(TermView::Singleton(VariableView::Generic(name))))
            },
            read: 0,
            arities,
        },
        TokenView::ConcreteVariable(name) => Parsed {
            value: Ok(Some(TermView::Singleton(VariableView::Concrete(name)))),
            read: 0,
            arities,
        },
        TokenView::RParen => Parsed {
            value: if internal {
                Ok(None)
            } else {
                Err(ParseFailure::UnexpectedClose)
            },
            read: 0,
            arities,
        },
        TokenView::End => Parsed {
            value: if internal {
                Err(ParseFailure::UnmatchedOpen)
            } else {
                Ok(None)
            },
            read: 0,
            arities,
        },
    }
}

/// The application whose opening parenthesis ended at `pos`: a name, then
/// the arguments up to the closing parenthesis.
pub open spec fn parse_function(
    s: Seq<char>,
    pos: int,
    arities: Map<Seq<char>, nat>,
    disallow_generics: bool,
) -> Parsed<TermView>
    decreases remaining(s, pos), 1nat,
{
    let (tok, n) = next_token(s, pos);
    match tok {
        TokenView::LParen => Parsed { value: Err(ParseFailure::DoubleOpen), read: n, arities },
        TokenView::RParen => Parsed { value: Err(ParseFailure::EmptyBody), read: n, arities },
        TokenView::End => Parsed { value: Err(ParseFailure::UnexpectedEnd), read: n, arities },
        TokenView::GenericVariable(name) | TokenView::ConcreteVariable(name) => {
            proof {
                next_token_bound(s, pos);
            }
            let o = parse_args(s, pos + n, arities, disallow_generics, name, Seq::empty());
            Parsed { value: o.value, read: n + o.read, arities: o.arities }
        },
    }
}

/// The application of `name` to `args`, checked against the arities known
/// so far: a name not seen before is recorded with the number of arguments.
pub open spec fn close_function(
    name: Seq<char>,
    args: Seq<TermView>,
    arities: Map<Seq<char>, nat>,
) -> (Result<TermView, ParseFailure>, Map<Seq<char>, nat>) {
    if arities.contains_key(name) && arities[name] != args.len() {
        (
            Err(
                ParseFailure::ArityMismatch {
                    name,
                    arity: args.len(),
                    declared: arities[name],
                },
            ),
            arities,
        )
    } else {
        (
            Ok(TermView::Invocation(FunctionView { name, arity: args.len() }, args)),
            arities.insert(name, args.len()),
        )
    }
}

/// The rest of the application of `name` from `pos` on, after the arguments
/// `args`: more arguments, then the closing parenthesis.
pub open spec fn parse_args(
    s: Seq<char>,
    pos: int,
    arities: Map<Seq<char>, nat>,
    disallow_generics: bool,
    name: Seq<char>,
    args: Seq<TermView>,
) -> Parsed<TermView>
    decreases remaining(s, pos), 0nat,
{
    let (tok, n) = next_token(s, pos);
    match tok {
        TokenView::End => Parsed { value: Err(ParseFailure::UnmatchedOpen), read: n, arities },
        TokenView::RParen => {
            let (value, known) = close_function(name, args, arities);
            Parsed { value, read: n, arities: known }
        },
        _ => {
            proof {
                next_token_bound(s, pos);
            }
            let o = parse_after(s, tok, pos + n, arities, disallow_generics, true);
            match o.value {
                Ok(Some(t)) => {
                    let r = parse_args(
                        s,
                        pos + n + o.read,
                        o.arities,
                        disallow_generics,
                        name,
                        args.push(t),
                    );
                    Parsed { value: r.value, read: n + o.read + r.read, arities: r.arities }
                },
                Ok(None) => Parsed {
                    value: Err(ParseFailure::UnmatchedOpen),
                    read: n + o.read,
                    arities: o.arities,
                },
                Err(f) => Parsed { value: Err(f), read: n + o.read, arities: o.arities },
            }
        },
    }
}

/// The term that the whole text `s` denotes, or why it denotes none, and the
/// arities known afterwards. The text must hold one term and nothing else.
pub open spec fn parse_text(
    s: Seq<char>,
    disallow_generics: bool,
    arities: Map<Seq<char>, nat>,
) -> (Result<TermView, ParseFailure>, Map<Seq<char>, nat>) {
    let (tok, n) = next_token(s, 0);
    let o = parse_after(s, tok, n as int, arities, disallow_generics, false);
    match o.value {
        Err(f) => (Err(f), o.arities),
        Ok(None) => (Err(ParseFailure::EmptyExpression), o.arities),
        Ok(Some(t)) => if next_token(s, (n + o.read) as int).0 is End {
            (Ok(t), o.arities)
        } else {
            (Err(ParseFailure::TrailingToken), o.arities)
        },
    }
}

/// What an optional term is.
pub open spec fn option_view(t: Option<Term>) -> Option<TermView> {
    match t {
        Some(t) => Some(t@),
        None => None,
    }
}

/// Whether `r` reports the outcome `value`: the term of a success, or the
/// message of a failure, without context.
pub open spec fn reports(
    r: Result<Term, EggvizProgramParseError>,
    value: Result<TermView, ParseFailure>,
) -> bool {
    match r {
        Ok(t) => value == Ok::<TermView, ParseFailure>(t@),
        Err(e) => value is Err && e@.msg == failure_message(value->Err_0) && e@.context is None,
    }
}

/// A reader of tokens over a text.
pub struct Parser {
    input: Vec<char>,
    pos: usize,
}

impl Parser {
    /// The text that is read.
    pub closed spec fn text(&self) -> Seq<char> {
        self.input@
    }

    /// The number of characters read so far.
    pub closed spec fn position(&self) -> int {
        self.pos as int
    }

    /// The position lies within the text.
    pub closed spec fn wf(&self) -> bool {
        self.pos <= self.input.len()
    }

    /// Reads the one term that `input` holds. In a program
    /// (`disallow_generics`) a generic variable is refused. Function names
    /// are checked against `arity_checker`, and new ones recorded in it, as
    /// far as the text was read.
    pub fn parse(input: &str, disallow_generics: bool, arity_checker: &mut ArityChecker) -> (r:
        Result<Term, EggvizProgramParseError>)
        ensures
            reports(r, parse_text(input@, disallow_generics, old(arity_checker)@).0),
            final(arity_checker)@ == parse_text(input@, disallow_generics, old(arity_checker)@).1,
    {
        let mut tok = Parser { input: chars_of(input), pos: 0 };
        match Self::parse_term(&mut tok, disallow_generics, arity_checker, false) {
            Err(e) => Err(e),
            Ok(None) => Err(EggvizProgramParseError::context_less("Empty expression.")),
            Ok(Some(t)) => {
                if let Token::End = tok.consume() {
                    Ok(t)
                } else {
                    Err(
                        EggvizProgramParseError::context_less(
                            "Unexpected token at end of expression.",
                        ),
                    )
                }
            },
        }
    }

    /// Reads the next token and what follows from it: a term, or the end of
    /// an argument list.
    fn parse_term(
        tok: &mut Parser,
        disallow_generics: bool,
        arity_checker: &mut ArityChecker,
        internal: bool,
    ) -> (r: Result<Option<Term>, EggvizProgramParseError>)
        requires
            old(tok).wf(),
        ensures
            final(tok).wf(),
            final(tok).text() == old(tok).text(),
            ({
                let (t, n) = next_token(old(tok).text(), old(tok).position());
                let o = parse_after(
                    old(tok).text(),
                    t,
                    old(tok).position() + n,
                    old(arity_checker)@,
                    disallow_generics,
                    internal,
                );
                &&& final(arity_checker)@ == o.arities
                &&& match r {
                    Ok(x) => o.value == Ok::<Option<TermView>, ParseFailure>(option_view(x))
                        && final(tok).position() == old(tok).position() + n + o.read,
                    Err(e) => o.value is Err && e@.msg == failure_message(o.value->Err_0)
                        && e@.context is None,
                }
            }),
        decreases old(tok).input.len() - old(tok).pos, 1nat,
    {
        match tok.consume() {
            Token::LParen => {
                let (f, args) = Self::parse_function(tok, disallow_generics, arity_checker)?;
                Ok(Some(Term::Invocation(f, args)))
            },
            Token::GenericVariable(v) => {
                if disallow_generics {
                    Err(
                        EggvizProgramParseError::context_less(
                            "Unexpected generic variable in program. Variables beginning with 'p' are reserved for generic variables in rewrite rules.",
                        ),
                    )
                } else {
                    Ok(Some(Term::Singleton(Variable::Generic(v))))
                }
            },
            Token::ConcreteVariable(v) => Ok(Some(Term::Singleton(Variable::Concrete(v)))),
            Token::RParen => {
                if internal {
                    Ok(None)
                } else {
                    Err(
                        EggvizProgramParseError::context_less(
                            "Expected function term or variable name. Got ')'.",
                        ),
                    )
                }
            },
            Token::End => {
                if internal {
                    Err(EggvizProgramParseError::context_less("Unmatched '(' token."))
                } else {
                    Ok(None)
                }
            },
        }
    }

    /// Reads an application after its opening parenthesis: the name, then
    /// the arguments up to the closing parenthesis.
    fn parse_function(
        tok: &mut Parser,
        disallow_generics: bool,
        arity_checker: &mut ArityChecker,
    ) -> (r: Result<(Function, Vec<Term>), EggvizProgramParseError>)
        requires
            old(tok).wf(),
        ensures
            final(tok).wf(),
            final(tok).text() == old(tok).text(),
            ({
                let o = parse_function(
                    old(tok).text(),
                    old(tok).position(),
                    old(arity_checker)@,
                    disallow_generics,
                );
                &&& final(arity_checker)@ == o.arities
                &&& match r {
                    Ok((f, args)) => o.value == Ok::<TermView, ParseFailure>(
                        TermView::Invocation(f@, args_view(&args)),
                    ) && final(tok).position() == old(tok).position() + o.read,
                    Err(e) => o.value is Err && e@.msg == failure_message(o.value->Err_0)
                        && e@.context is None,
                }
            }),
        decreases old(tok).input.len() - old(tok).pos, 0nat,
    {
        let ghost s = tok.text();
        let ghost start = tok.position();
        let ghost known = arity_checker@;
        proof {
            next_token_bound(s, start);
        }
        let name = match tok.consume() {
            Token::LParen => {
                return Err(
                    EggvizProgramParseError::context_less("Cannot have two '(' tokens in a row."),
                );
            },
            Token::GenericVariable(name) => name,
            Token::ConcreteVariable(name) => name,
            Token::RParen => {
                return Err(EggvizProgramParseError::context_less("Empty function body."));
            },
            Token::End => {
                return Err(EggvizProgramParseError::context_less("Unexpected end of input."));
            },
        };
        let ghost first = tok.position();
        let ghost whole = parse_args(s, first, known, disallow_generics, name@, Seq::empty());
        let ghost top = parse_function(s, start, known, disallow_generics);
        let mut arguments: Vec<Term> = Vec::new();
        assert(args_view(&arguments) =~= Seq::<TermView>::empty());
        loop
            invariant
                tok.wf(),
                tok.text() == s,
                start < first <= tok.position(),
                start == old(tok).pos,
                s.len() == old(tok).input.len(),
                s == old(tok).text(),
                start == old(tok).position(),
                known == old(arity_checker)@,
                top == parse_function(s, start, known, disallow_generics),
                top.value == whole.value,
                top.arities == whole.arities,
                start + top.read == first + whole.read,
                whole == parse_args(s, first, known, disallow_generics, name@, Seq::empty()),
                ({
                    let rest = parse_args(
                        s,
                        tok.position(),
                        arity_checker@,
                        disallow_generics,
                        name@,
                        args_view(&arguments),
                    );
                    &&& rest.value == whole.value
                    &&& rest.arities == whole.arities
                    &&& tok.position() + rest.read == first + whole.read
                }),
            decreases s.len() - tok.position(),
        {
            let ghost here = tok.position();
            let ghost before = args_view(&arguments);
            proof {
                next_token_bound(s, here);
            }
            match Self::parse_term(tok, disallow_generics, arity_checker, true) {
                Err(e) => {
                    return Err(e);
                },
                Ok(None) => {
                    let arity = arguments.len();
                    match arity_checker.check_new_arity(name.as_str(), arity) {
                        Err(e) => {
                            return Err(e);
                        },
                        Ok(_) => {
                            return Ok((Function::new(name, arity), arguments));
                        },
                    }
                },
                Ok(Some(arg)) => {
                    arguments.push(arg);
                    assert(args_view(&arguments) =~= before.push(arg@));
                },
            }
        }
    }

    /// Reads the next token.
    fn consume(&mut self) -> (t: Token)
        requires
            old(self).wf(),
        ensures
            final(self).wf(),
            final(self).text() == old(self).text(),
            t@ == next_token(old(self).text(), old(self).position()).0,
            final(self).position() == old(self).position() + next_token(
                old(self).text(),
                old(self).position(),
            ).1,
    {
        let ghost s = self.input@;
        let n = self.input.len();
        let mut i: usize = self.pos;
        while i < n
            invariant
                self.pos <= i <= n,
                n == self.input.len(),
                s == self.input@,
                space_len(s, self.pos as int) == (i - self.pos) + space_len(s, i as int),
            ensures
                i < n ==> !is_space(s[i as int]),
            decreases n - i,
        {
            if !self.input[i].is_whitespace() {
                break ;
            }
            i += 1;
        }
        if i >= n {
            self.pos = i;
            return Token::End;
        }
        let c = self.input[i];
        if c == '(' {
            self.pos = i + 1;
            return Token::LParen;
        }
        if c == ')' {
            self.pos = i + 1;
            return Token::RParen;
        }
        let mut j: usize = i + 1;
        while j < n
            invariant
                i < j <= n,
                n == self.input.len(),
                s == self.input@,
                name_len(s, i + 1) == (j - i - 1) + name_len(s, j as int),
            ensures
                j < n ==> is_delimiter(s[j as int]),
            decreases n - j,
        {
            let d = self.input[j];
            if d.is_whitespace() || d == '(' || d == ')' {
                break ;
            }
            j += 1;
        }
        let name = string_of(&self.input, i, j);
        self.pos = j;
        if c == 'p' {
            Token::GenericVariable(name)
        } else {
            Token::ConcreteVariable(name)
        }
    }
}

/// A program: one term without generic variables.
pub struct Program {
    root: Term,
}

impl View for Program {
    type V = TermView;

    closed spec fn view(&self) -> TermView {
        self.root@
    }
}

/// Whether `r` reports the outcome `value` of reading a program.
pub open spec fn reports_program(
    r: Result<Program, EggvizProgramParseError>,
    value: Result<TermView, ParseFailure>,
) -> bool {
    match r {
        Ok(p) => value == Ok::<TermView, ParseFailure>(p@),
        Err(e) => value is Err && e@.msg == failure_message(value->Err_0) && e@.context is None,
    }
}

impl Program {
    /// Reads a program: one term, in which no generic variable may stand.
    pub fn from_str(input: &str, arity_checker: &mut ArityChecker) -> (r: Result<
        Program,
        EggvizProgramParseError,
    >)
        ensures
            reports_program(r, parse_text(input@, true, old(arity_checker)@).0),
            final(arity_checker)@ == parse_text(input@, true, old(arity_checker)@).1,
    {
        match Parser::parse(input, true, arity_checker) {
            Ok(root) => Ok(Program { root }),
            Err(e) => Err(e),
        }
    }

    /// The text of the program's term.
    pub fn to_egg(&self) -> (s: String)
        ensures
            s@ == term_text(self@),
    {
        self.root.to_egg()
    }

    /// The program's term.
    pub fn root(&self) -> (t: &Term)
        ensures
            t@ == self@,
    {
        &self.root
    }
}

/// A rewrite rule: the term to look for and the term to put beside it.
pub struct RewriteRule {
    left: Term,
    right: Term,
}

/// What a rewrite rule is.
pub struct RewriteRuleView {
    pub left: TermView,
    pub right: TermView,
}

impl View for RewriteRule {
    type V = RewriteRuleView;

    closed spec fn view(&self) -> RewriteRuleView {
        RewriteRuleView { left: self.left@, right: self.right@ }
    }
}

/// The rule that the texts `l` and `r` denote, or why they denote none, and
/// the arities known afterwards. The left side is read first; the right side
/// is read only if the left side is a term.
pub open spec fn parse_rule(l: Seq<char>, r: Seq<char>, arities: Map<Seq<char>, nat>) -> (
    Result<RewriteRuleView, ParseFailure>,
    Map<Seq<char>, nat>,
) {
    let (left, known) = parse_text(l, false, arities);
    match left {
        Err(f) => (Err(f), known),
        Ok(left) => {
            let (right, known) = parse_text(r, false, known);
            match right {
                Err(f) => (Err(f), known),
                Ok(right) => (Ok(RewriteRuleView { left, right }), known),
            }
        },
    }
}

impl RewriteRule {
    /// Reads the two sides of a rule. Generic variables may stand in both.
    pub fn from_str(l: &str, r: &str, arity_checker: &mut ArityChecker) -> (res: Result<
        RewriteRule,
        EggvizProgramParseError,
    >)
        ensures
            final(arity_checker)@ == parse_rule(l@, r@, old(arity_checker)@).1,
            match res {
                Ok(rule) => parse_rule(l@, r@, old(arity_checker)@).0 == Ok::<
                    RewriteRuleView,
                    ParseFailure,
                >(rule@),
                Err(e) => {
                    let value = parse_rule(l@, r@, old(arity_checker)@).0;
                    value is Err && e@.msg == failure_message(value->Err_0) && e@.context is None
                },
            },
    {
        let left = match Parser::parse(l, false, arity_checker) {
            Ok(t) => t,
            Err(e) => {
                return Err(e);
            },
        };
        let right = match Parser::parse(r, false, arity_checker) {
            Ok(t) => t,
            Err(e) => {
                return Err(e);
            },
        };
        Ok(RewriteRule { left, right })
    }

    /// The text of the left side.
    pub fn left_to_egg(&self) -> (s: String)
        ensures
            s@ == term_text(self@.left),
    {
        self.left.to_egg()
    }

    /// The text of the right side.
    pub fn right_to_egg(&self) -> (s: String)
        ensures
            s@ == term_text(self@.right),
    {
        self.right.to_egg()
    }
}

impl EggvizRewriteRule for RewriteRule {
    open spec fn left_text(&self) -> Seq<char> {
        term_text(self@.left)
    }

    open spec fn right_text(&self) -> Seq<char> {
        term_text(self@.right)
    }

    fn left_to_egg(&self) -> (s: String) {
        self.left.to_egg()
    }

    fn right_to_egg(&self) -> (s: String) {
        self.right.to_egg()
    }
}

impl EggvizProgram for Program {
    type RewriteRule = RewriteRule;

    type ParseState = ArityChecker;

    type Reading = Map<Seq<char>, nat>;

    open spec fn reading(state: ArityChecker) -> Map<Seq<char>, nat> {
        state@
    }

    open spec fn refusal(input: Seq<char>) -> Option<ParseErrorView> {
        match parse_text(input, true, Map::empty()).0 {
            Ok(_) => None,
            Err(f) => Some(ParseErrorView { msg: failure_message(f), context: None }),
        }
    }

    open spec fn first_reading(input: Seq<char>) -> Map<Seq<char>, nat> {
        parse_text(input, true, Map::empty()).1
    }

    open spec fn program_text(input: Seq<char>) -> Seq<char> {
        term_text(parse_text(input, true, Map::empty()).0->Ok_0)
    }

    open spec fn text(&self) -> Seq<char> {
        term_text(self@)
    }

    open spec fn rule_reading(
        before: Map<Seq<char>, nat>,
        label: LabelView,
        left: Seq<char>,
        right: Seq<char>,
    ) -> (Result<(Seq<char>, Seq<char>), ParseErrorView>, Map<Seq<char>, nat>) {
        let (read, known) = parse_rule(left, right, before);
        (
            match read {
                Ok(rule) => Ok((term_text(rule.left), term_text(rule.right))),
                Err(f) => Err(ParseErrorView { msg: failure_message(f), context: None }),
            },
            known,
        )
    }

    fn parse_str(input: &str) -> (r: Result<(Self, ArityChecker), EggvizProgramParseError>)
        ensures
            match r {
                Ok((p, known)) => parse_text(input@, true, Map::empty()) == (
                    Ok::<TermView, ParseFailure>(p@),
                    known@,
                ),
                Err(e) => {
                    let value = parse_text(input@, true, Map::empty()).0;
                    value is Err && e@.msg == failure_message(value->Err_0) && e@.context is None
                },
            },
    {
        let mut arity_checker = ArityChecker::new();
        match Parser::parse(input, true, &mut arity_checker) {
            Ok(root) => Ok((Program { root }, arity_checker)),
            Err(e) => Err(e),
        }
    }

    fn parse_rewrite_rule(
        &self,
        arity_checker: &mut ArityChecker,
        _label: &EggvizRewriteRuleLabel,
        left: &str,
        right: &str,
    ) -> (res: Result<RewriteRule, EggvizProgramParseError>)
        ensures
            final(arity_checker)@ == parse_rule(left@, right@, old(arity_checker)@).1,
            match res {
                Ok(rule) => parse_rule(left@, right@, old(arity_checker)@).0 == Ok::<
                    RewriteRuleView,
                    ParseFailure,
                >(rule@),
                Err(e) => {
                    let value = parse_rule(left@, right@, old(arity_checker)@).0;
                    value is Err && e@.msg == failure_message(value->Err_0) && e@.context is None
                },
            },
    {
        RewriteRule::from_str(left, right, arity_checker)
    }

    fn to_egg(&self) -> (s: String) {
        self.root.to_egg()
    }
}

/// The tokens of `s` from `pos` on, up to the end of the text.
pub open spec fn tokens_from(s: Seq<char>, pos: int) -> Seq<TokenView>
    decreases remaining(s, pos),
{
    let (tok, n) = next_token(s, pos);
    if tok is End {
        Seq::empty()
    } else {
        proof {
            next_token_bound(s, pos);
        }
        seq![tok] + tokens_from(s, pos + n)
    }
}

/// The tokens of a term: the token of a variable, or between parentheses
/// the token of the function's name and the tokens of the arguments.
pub open spec fn term_tokens(t: TermView) -> Seq<TokenView>
    decreases t,
{
    match t {
        TermView::Singleton(VariableView::Concrete(name)) => seq![
            TokenView::ConcreteVariable(name),
        ],
        TermView::Singleton(VariableView::Generic(name)) => seq![TokenView::GenericVariable(name)],
        TermView::Invocation(f, args) => seq![TokenView::LParen, name_token(f.name)] + args_tokens(
            args,
            args.len(),
        ) + seq![TokenView::RParen],
    }
}

/// The tokens of the first `n` terms of `args`.
pub open spec fn args_tokens(args: Seq<TermView>, n: nat) -> Seq<TokenView>
    decreases args, n,
{
    if n == 0 || n > args.len() {
        Seq::empty()
    } else {
        args_tokens(args, (n - 1) as nat) + term_tokens(args[n - 1])
    }
}

/// What is read as a term has the tokens of the term: the tokens of the
/// text from the first token of the term on are the tokens of the term, and
/// then the tokens of the text that follows the term.
pub proof fn parsed_term_tokens(
    s: Seq<char>,
    pos: int,
    arities: Map<Seq<char>, nat>,
    disallow_generics: bool,
    internal: bool,
)
    requires
        0 <= pos <= s.len(),
        parse_after(
            s,
            next_token(s, pos).0,
            pos + next_token(s, pos).1,
            arities,
            disallow_generics,
            internal,
        ).value matches Ok(Some(_)),
    ensures
        ({
            let (tok, n) = next_token(s, pos);
            let o = parse_after(s, tok, pos + n, arities, disallow_generics, internal);
            &&& pos + n + o.read <= s.len()
            &&& tokens_from(s, pos) == term_tokens(o.value->Ok_0->Some_0) + tokens_from(
                s,
                pos + n + o.read,
            )
        }),
    decreases remaining(s, pos), 1nat,
{
    let (tok, n) = next_token(s, pos);
    next_token_bound(s, pos);
    if tok is LParen {
        parsed_function_tokens(s, pos + n, arities, disallow_generics);
    }
}

/// What is read as an application has the tokens of the application but for
/// the opening parenthesis, which was read before.
pub proof fn parsed_function_tokens(
    s: Seq<char>,
    pos: int,
    arities: Map<Seq<char>, nat>,
    disallow_generics: bool,
)
    requires
        0 <= pos <= s.len(),
        parse_function(s, pos, arities, disallow_generics).value is Ok,
    ensures
        ({
            let o = parse_function(s, pos, arities, disallow_generics);
            &&& pos + o.read <= s.len()
            &&& o.value->Ok_0 is Invocation
            &&& term_tokens(o.value->Ok_0)[0] == TokenView::LParen
            &&& tokens_from(s, pos) == term_tokens(o.value->Ok_0).drop_first() + tokens_from(
                s,
                pos + o.read,
            )
        }),
    decreases remaining(s, pos), 0nat,
{
    let (tok, n) = next_token(s, pos);
    next_token_bound(s, pos);
    let name = match tok {
        TokenView::GenericVariable(name) => name,
        TokenView::ConcreteVariable(name) => name,
        _ => Seq::empty(),
    };
    parsed_args_tokens(s, pos + n, arities, disallow_generics, name, Seq::empty());
}

/// What is read as the rest of an application, after the arguments `acc`,
/// has the tokens of the arguments that follow and of the closing
/// parenthesis; the application holds `acc` and then those arguments.
pub proof fn parsed_args_tokens(
    s: Seq<char>,
    pos: int,
    arities: Map<Seq<char>, nat>,
    disallow_generics: bool,
    name: Seq<char>,
    acc: Seq<TermView>,
)
    requires
        0 <= pos <= s.len(),
        parse_args(s, pos, arities, disallow_generics, name, acc).value is Ok,
    ensures
        ({
            let o = parse_args(s, pos, arities, disallow_generics, name, acc);
            let t = o.value->Ok_0;
            &&& pos + o.read <= s.len()
            &&& t is Invocation
            &&& t->Invocation_0 == (FunctionView { name, arity: t->Invocation_1.len() })
            &&& acc.len() <= t->Invocation_1.len()
            &&& t->Invocation_1.take(acc.len() as int) == acc
            &&& args_tokens(t->Invocation_1, acc.len()) + tokens_from(s, pos) == args_tokens(
                t->Invocation_1,
                t->Invocation_1.len(),
            ) + seq![TokenView::RParen] + tokens_from(s, pos + o.read)
        }),
    decreases remaining(s, pos), 2nat,
{
    let (tok, n) = next_token(s, pos);
    next_token_bound(s, pos);
    let whole = parse_args(s, pos, arities, disallow_generics, name, acc);
    let t = whole.value->Ok_0;
    if !(tok is End) && !(tok is RParen) {
        let o = parse_after(s, tok, pos + n, arities, disallow_generics, true);
        parsed_term_tokens(s, pos, arities, disallow_generics, true);
        let first = o.value->Ok_0->Some_0;
        let next = pos + n + o.read;
        parsed_args_tokens(s, next, o.arities, disallow_generics, name, acc.push(first));
        let args = t->Invocation_1;
        assert(args.take(acc.len() as int) =~= acc) by {
            assert forall|i: int| 0 <= i < acc.len() implies args.take(acc.len() as int)[i]
                == acc[i] by {}
        }
        assert(args[acc.len() as int] == first) by {
            assert(args.take((acc.len() + 1) as int)[acc.len() as int] == acc.push(
                first,
            )[acc.len() as int]);
        }
    }
}

/// A text that is read as a term has the tokens of the term, and no others.
pub proof fn parsed_text_tokens(
    s: Seq<char>,
    disallow_generics: bool,
    arities: Map<Seq<char>, nat>,
)
    requires
        parse_text(s, disallow_generics, arities).0 is Ok,
    ensures
        tokens_from(s, 0) == term_tokens(parse_text(s, disallow_generics, arities).0->Ok_0),
{
    parsed_term_tokens(s, 0, arities, disallow_generics, false);
}

} // verus!
