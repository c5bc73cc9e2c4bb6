//! The grammar: recursive-descent rules over the [`Scanner`], producing
//! [`ContentToken`] trees, together with the structured error model that every
//! rule wraps scanner-level failures in.
use vstd::prelude::*;
use vstd::string::*;

use crate::scan::Action;
use crate::scan::ErrorPosition;
use crate::scan::ScanError;
use crate::scan::Scanner;
use crate::scan::UnexpectedSymbol;
use crate::scan::col_of;
use crate::scan::lemma_run_end;
use crate::scan::lemma_scan_while;
use crate::scan::line_of;
use crate::scan::run_end;
use crate::scan::stack_after_err;
use crate::scan::stack_at;
use crate::scan::while_model;
use crate::token::ContentToken;
use crate::token::ContentTokens;
use crate::token::Ident;
use crate::token::Tok;
use crate::token::locale_of;
use crate::token::locale_ok;
use crate::token::parse_locale;
use crate::token::tok_view;
use vstd::pervasive::unreached;

verus! {

/// Terminal symbols of the template grammar.
#[derive(Copy, Clone, Debug, PartialEq, Eq)]
pub enum Terminals {
    LBrace,
    RBrace,
    Cash,
    Colon,
    Nl,
}

impl Terminals {
    /// The character this terminal stands for.
    pub open spec fn spec_char(self) -> char {
        match self {
            Terminals::LBrace => '{',
            Terminals::RBrace => '}',
            Terminals::Cash => '$',
            Terminals::Colon => ':',
            Terminals::Nl => '\n',
        }
    }

    pub fn as_char(self) -> (c: char)
        ensures
            c == self.spec_char(),
    {
        match self {
            Terminals::LBrace => '{',
            Terminals::RBrace => '}',
            Terminals::Cash => '$',
            Terminals::Colon => ':',
            Terminals::Nl => '\n',
        }
    }
}

/// The three characters that end a literal text run: `{`, `}` and `$`.
/// `:` is not among them because it is a terminal only inside a key.
pub open spec fn is_terminal_char(c: char) -> bool {
    c == '{' || c == '}' || c == '$'
}

/// A symbol that can be classified as terminal or non-terminal.
pub trait Symbol {
    spec fn spec_terminal(&self) -> bool;

    fn is_terminal(&self) -> (r: bool)
        ensures
            r == self.spec_terminal(),
    ;

    fn is_non_terminal(&self) -> (r: bool)
        ensures
            r == !self.spec_terminal(),
    ;
}

impl Symbol for char {
    open spec fn spec_terminal(&self) -> bool {
        is_terminal_char(*self)
    }

    fn is_terminal(&self) -> (r: bool) {
        *self == '{' || *self == '}' || *self == '$'
    }

    fn is_non_terminal(&self) -> (r: bool) {
        !self.is_terminal()
    }
}

/// Which rule, and which part of it, a failure occurred in.
#[derive(Clone, Debug, PartialEq, Eq)]
pub enum ContextMsg {
    /// Invalid character(s) contained in the named part.
    InvalidContainedIn(String),
    /// Invalid opening character for the named rule.
    InvalidOpeningOf(String),
    /// Invalid closing character for the named rule.
    InvalidClosingOf(String),
    /// The input was empty where an item was needed.
    EmptyInput,
    Unspecified,
}

/// A human suggestion attached to a failure.
#[derive(Clone, Debug, PartialEq, Eq)]
pub enum PossibleMsg {
    DidYouMean(String),
    DidYouForget(String),
    AllowedAre(String),
    ForbiddenAre(String),
    Unspecified,
}

/// A grammar-level failure: either a wrapped character-level failure, or a
/// first line that the locale validator rejected (carrying the rejected tag).
#[derive(Clone, Debug, PartialEq, Eq)]
pub enum ParseError {
    LexicalError(ScanError),
    LocaleError(String),
}

/// A failure enriched with the rule context it occurred in and a suggestion.
#[derive(Clone, Debug, PartialEq, Eq)]
pub struct UserError {
    pub parse_error: ParseError,
    pub context: ContextMsg,
    pub possible: PossibleMsg,
}

/// Mathematical value of a [`ContextMsg`].
pub ghost enum CtxView {
    ContainedIn { what: Seq<char> },
    OpeningOf { what: Seq<char> },
    ClosingOf { what: Seq<char> },
    EmptyInput,
    Unspecified,
}

/// Mathematical value of a [`PossibleMsg`].
pub ghost enum PossView {
    Mean { what: Seq<char> },
    Forget { what: Seq<char> },
    Allowed { what: Seq<char> },
    Forbidden { what: Seq<char> },
    Unspecified,
}

/// Mathematical value of a [`ParseError`].
pub ghost enum PErrView {
    Lex { e: ScanError },
    Loc { tag: Seq<char> },
}

/// Mathematical value of a [`UserError`].
pub ghost struct UErrView {
    pub err: PErrView,
    pub ctx: CtxView,
    pub poss: PossView,
}

impl View for ContextMsg {
    type V = CtxView;

    open spec fn view(&self) -> CtxView {
        match self {
            ContextMsg::InvalidContainedIn(s) => CtxView::ContainedIn { what: s@ },
            ContextMsg::InvalidOpeningOf(s) => CtxView::OpeningOf { what: s@ },
            ContextMsg::InvalidClosingOf(s) => CtxView::ClosingOf { what: s@ },
            ContextMsg::EmptyInput => CtxView::EmptyInput,
            ContextMsg::Unspecified => CtxView::Unspecified,
        }
    }
}

impl View for PossibleMsg {
    type V = PossView;

    open spec fn view(&self) -> PossView {
        match self {
            PossibleMsg::DidYouMean(s) => PossView::Mean { what: s@ },
            PossibleMsg::DidYouForget(s) => PossView::Forget { what: s@ },
            PossibleMsg::AllowedAre(s) => PossView::Allowed { what: s@ },
            PossibleMsg::ForbiddenAre(s) => PossView::Forbidden { what: s@ },
            PossibleMsg::Unspecified => PossView::Unspecified,
        }
    }
}

impl View for ParseError {
    type V = PErrView;

    open spec fn view(&self) -> PErrView {
        match self {
            ParseError::LexicalError(e) => PErrView::Lex { e: *e },
            ParseError::LocaleError(tag) => PErrView::Loc { tag: tag@ },
        }
    }
}

impl View for UserError {
    type V = UErrView;

    open spec fn view(&self) -> UErrView {
        UErrView { err: self.parse_error@, ctx: self.context@, poss: self.possible@ }
    }
}

impl UserError {
    /// Whether the positions carried by the wrapped failure are consistent.
    pub open spec fn wf(&self) -> bool {
        match self.parse_error {
            ParseError::LexicalError(e) => e.wf(),
            ParseError::LocaleError(_) => true,
        }
    }

    /// Of two failures, keep the one whose attempt advanced further into the
    /// source before failing; `self` wins ties, and `self` also wins whenever
    /// either failure is no character-level failure.
    pub fn or_better(self, other: Self) -> (r: Self)
        requires
            self.wf(),
            other.wf(),
        ensures
            r == self || r == other,
            r.wf(),
            ({
                match (self.parse_error, other.parse_error) {
                    (ParseError::LexicalError(se), ParseError::LexicalError(oe)) => {
                        if se.position().active - se.position().base >= oe.position().active
                            - oe.position().base {
                            r == self
                        } else {
                            r == other
                        }
                    },
                    _ => r == self,
                }
            }),
    {
        match (&self.parse_error, &other.parse_error) {
            (ParseError::LexicalError(self_err), ParseError::LexicalError(other_err)) => {
                if self_err.failed_after() >= other_err.failed_after() {
                    self
                } else {
                    other
                }
            },
            _ => self,
        }
    }
}

/// Characters an identifier may consist of: ASCII letters and digits.
pub open spec fn is_ident_char(c: char) -> bool {
    ('A' <= c && c <= 'Z') || ('a' <= c && c <= 'z') || ('0' <= c && c <= '9')
}

/// The whitespace characters of the `ws` rule.
pub open spec fn is_ws_char(c: char) -> bool {
    c == ' ' || c == '\t' || c == '\n'
}

/// The Unicode `White_Space` characters, the set std documents for
/// `char::is_whitespace`: the ASCII blanks and line breaks, next line,
/// no-break and Ogham space marks, the typographic spaces, the line and
/// paragraph separators, and the narrow no-break, mathematical and
/// ideographic spaces.
pub open spec fn is_white_space(c: char) -> bool {
    ||| c == '\t' || c == '\n' || c == '\u{B}' || c == '\u{C}' || c == '\r' || c == ' '
    ||| c == '\u{85}' || c == '\u{A0}' || c == '\u{1680}'
    ||| ('\u{2000}' <= c && c <= '\u{200A}')
    ||| c == '\u{2028}' || c == '\u{2029}' || c == '\u{202F}' || c == '\u{205F}' || c == '\u{3000}'
}

/// Relies on `char::is_whitespace` of std: true exactly of the characters
/// with the Unicode `White_Space` property, the fixed set stated above.
#[verifier::external_body]
fn char_is_whitespace(c: char) -> (r: bool)
    ensures
        r == is_white_space(c),
{
    c.is_whitespace()
}

pub open spec fn ident_p() -> spec_fn(char) -> bool {
    |c: char| is_ident_char(c)
}

pub open spec fn text_p() -> spec_fn(char) -> bool {
    |c: char| !is_terminal_char(c)
}

pub open spec fn chars_p() -> spec_fn(char) -> bool {
    |c: char| !is_white_space(c) && !is_terminal_char(c)
}

pub open spec fn ws_p() -> spec_fn(char) -> bool {
    |c: char| is_ws_char(c)
}

/// The position of the layer right below the active one: where the enclosing
/// speculative attempt began.
pub open spec fn under(st: Seq<usize>) -> int {
    if st.len() > 1 {
        st[st.len() - 2] as int
    } else {
        st.last() as int
    }
}

/// The character-level failure `found the wrong symbol at position `active`,
/// in an attempt begun at `base``.
pub open spec fn sym_err(s: Seq<char>, active: int, base: int, found: char) -> ScanError {
    ScanError::UnexpectedSymbol(
        (UnexpectedSymbol {
            found,
            expected: None,
            position: (ErrorPosition {
                active: active as usize,
                base: base as usize,
                line: line_of(s, active) as usize,
                column: col_of(s, active) as usize,
            }),
        }),
    )
}

/// The character-level failure `input ended at position `active`, in an
/// attempt begun at `base``.
pub open spec fn eoi_err(s: Seq<char>, active: int, base: int) -> ScanError {
    ScanError::UnexpectedEndOfInput(
        (ErrorPosition {
            active: active as usize,
            base: base as usize,
            line: line_of(s, active) as usize,
            column: col_of(s, active) as usize,
        }),
    )
}

/// A character-level failure wrapped with a rule context and a suggestion.
pub open spec fn uerr(e: ScanError, ctx: CtxView, poss: PossView) -> UErrView {
    UErrView { err: PErrView::Lex { e }, ctx, poss }
}

/// Outcome of a rule that yields a character sequence.
pub ghost enum StrOut {
    Found { got: Seq<char>, next: int },
    Fail { err: UErrView },
}

/// Outcome of the bare `ident` rule, which wraps its failure in no context.
pub ghost enum IdentOut {
    Found { id: Seq<char>, next: int },
    Fail { e: ScanError },
}

/// What `ident` yields at position `i`, inside an attempt begun at `base`:
/// the longest nonempty run of ASCII letters and digits.
pub open spec fn spec_ident(s: Seq<char>, i: int, base: int) -> IdentOut {
    if i >= s.len() {
        IdentOut::Fail { e: eoi_err(s, i, base) }
    } else if !is_ident_char(s[i]) {
        IdentOut::Fail { e: sym_err(s, i, base, s[i]) }
    } else {
        IdentOut::Found { id: s.subrange(i, run_end(s, i, ident_p())), next: run_end(s, i, ident_p()) }
    }
}

/// What `text` yields at position `i`: the longest nonempty run of characters
/// that are none of `{`, `}`, `$`.
pub open spec fn spec_text(s: Seq<char>, i: int) -> StrOut {
    if i >= s.len() {
        StrOut::Fail {
            err: uerr(
                eoi_err(s, i, i),
                CtxView::ContainedIn { what: "text section"@ },
                PossView::Forbidden { what: "'{', '}' or '$'"@ },
            ),
        }
    } else if is_terminal_char(s[i]) {
        StrOut::Fail {
            err: uerr(
                sym_err(s, i, i, s[i]),
                CtxView::ContainedIn { what: "text section"@ },
                PossView::Forbidden { what: "'{', '}' or '$'"@ },
            ),
        }
    } else {
        StrOut::Found { got: s.subrange(i, run_end(s, i, text_p())), next: run_end(s, i, text_p()) }
    }
}

/// What `chars` yields at position `i`: the longest nonempty run of
/// characters that are neither whitespace nor one of `{`, `}`, `$`.
pub open spec fn spec_chars(s: Seq<char>, i: int) -> StrOut {
    if i >= s.len() {
        StrOut::Fail {
            err: uerr(
                eoi_err(s, i, i),
                CtxView::ContainedIn { what: "characters section"@ },
                PossView::Forbidden { what: "'{', '}', '$' or whitespace characters"@ },
            ),
        }
    } else if is_white_space(s[i]) || is_terminal_char(s[i]) {
        StrOut::Fail {
            err: uerr(
                sym_err(s, i, i, s[i]),
                CtxView::ContainedIn { what: "characters section"@ },
                PossView::Forbidden { what: "'{', '}', '$' or whitespace characters"@ },
            ),
        }
    } else {
        StrOut::Found {
            got: s.subrange(i, run_end(s, i, chars_p())),
            next: run_end(s, i, chars_p()),
        }
    }
}

/// What `ws` yields at position `i`: the longest nonempty run of space, tab
/// and newline characters.
pub open spec fn spec_ws(s: Seq<char>, i: int) -> StrOut {
    if i >= s.len() {
        StrOut::Fail {
            err: uerr(
                eoi_err(s, i, i),
                CtxView::ContainedIn { what: "whitespace section"@ },
                PossView::Allowed { what: "'\\n', '\\t' or ' '"@ },
            ),
        }
    } else if !is_ws_char(s[i]) {
        StrOut::Fail {
            err: uerr(
                sym_err(s, i, i, s[i]),
                CtxView::ContainedIn { what: "whitespace section"@ },
                PossView::Allowed { what: "'\\n', '\\t' or ' '"@ },
            ),
        }
    } else {
        StrOut::Found { got: s.subrange(i, run_end(s, i, ws_p())), next: run_end(s, i, ws_p()) }
    }
}

/// `<ident> ::= ([A-Z] | [a-z] | [0-9])+` — one or more ASCII letters or
/// digits, scanned on the enclosing rule's speculative layer.
pub fn ident(scanner: &mut Scanner) -> (r: Result<Ident, ParseError>)
    requires
        old(scanner).wf(),
    ensures
        final(scanner).wf(),
        final(scanner).src() == old(scanner).src(),
        match spec_ident(old(scanner).src(), old(scanner).pos(), under(old(scanner).stack())) {
            IdentOut::Found { id, next } => {
                &&& r matches Ok(out) && out@ == id
                &&& final(scanner).stack() == stack_at(old(scanner).stack(), next)
            },
            IdentOut::Fail { e } => {
                &&& r == Err::<Ident, ParseError>(ParseError::LexicalError(e))
                &&& final(scanner).stack() == stack_after_err(old(scanner).stack())
            },
        },
{
    let ghost s = scanner.src();
    let ghost i = scanner.pos();
    proof {
        scanner.lemma_wf_bounds();
        lemma_run_end(s, i, ident_p());
        lemma_scan_while(s, i, ident_p());
    }
    let callback = |c: char| -> (a: Option<Action>)
        ensures
            ({
                let m = while_model(ident_p());
                a == m(c)
            }),
        {
            if (('A' <= c && c <= 'Z') || ('a' <= c && c <= 'z') || ('0' <= c && c <= '9')) {
                Some(Action::Request)
            } else {
                None
            }
        };
    let scanned = scanner.scan(callback, Ghost(while_model(ident_p())));
    match scanned {
        Ok(id) => Ok(Ident::new(id.as_str())),
        Err(e) => Err(ParseError::LexicalError(e)),
    }
}

/// `<text> ::= (<chars> | <ws>)+` — one or more characters that are none of
/// `{`, `}`, `$`; whitespace has no special meaning here.
pub fn text(scanner: &mut Scanner) -> (r: Result<String, UserError>)
    requires
        old(scanner).wf(),
    ensures
        final(scanner).wf(),
        final(scanner).src() == old(scanner).src(),
        match spec_text(old(scanner).src(), old(scanner).pos()) {
            StrOut::Found { got, next } => {
                &&& r matches Ok(out) && out@ == got
                &&& final(scanner).stack() == stack_at(old(scanner).stack(), next)
            },
            StrOut::Fail { err } => {
                &&& r matches Err(e) && e@ == err
                &&& final(scanner).stack() == old(scanner).stack()
            },
        },
{
    let ghost s = scanner.src();
    let ghost i = scanner.pos();
    proof {
        scanner.lemma_wf_bounds();
        lemma_run_end(s, i, text_p());
        lemma_scan_while(s, i, text_p());
    }
    scanner.begin();
    let callback = |c: char| -> (a: Option<Action>)
        ensures
            ({
                let m = while_model(text_p());
                a == m(c)
            }),
        {
            if !(c == '{' || c == '}' || c == '$') {
                Some(Action::Request)
            } else {
                None
            }
        };
    let scanned = scanner.scan(callback, Ghost(while_model(text_p())));
    match scanned {
        Ok(got) => {
            scanner.commit();
            proof {
                assert(scanner.stack() =~= stack_at(old(scanner).stack(), run_end(s, i, text_p())));
            }
            Ok(got)
        },
        Err(e) => Err(UserError {
            parse_error: ParseError::LexicalError(e),
            context: ContextMsg::InvalidContainedIn(String::from_str("text section")),
            possible: PossibleMsg::ForbiddenAre(String::from_str("'{', '}' or '$'")),
        }),
    }
}

/// `<chars>` — one or more characters that are neither whitespace nor one of
/// `{`, `}`, `$`; the shape of a locale tag.
pub fn chars(scanner: &mut Scanner) -> (r: Result<String, UserError>)
    requires
        old(scanner).wf(),
    ensures
        final(scanner).wf(),
        final(scanner).src() == old(scanner).src(),
        match spec_chars(old(scanner).src(), old(scanner).pos()) {
            StrOut::Found { got, next } => {
                &&& r matches Ok(out) && out@ == got
                &&& final(scanner).stack() == stack_at(old(scanner).stack(), next)
            },
            StrOut::Fail { err } => {
                &&& r matches Err(e) && e@ == err
                &&& final(scanner).stack() == old(scanner).stack()
            },
        },
{
    let ghost s = scanner.src();
    let ghost i = scanner.pos();
    proof {
        scanner.lemma_wf_bounds();
        lemma_run_end(s, i, chars_p());
        lemma_scan_while(s, i, chars_p());
    }
    scanner.begin();
    let callback = |c: char| -> (a: Option<Action>)
        ensures
            ({
                let m = while_model(chars_p());
                a == m(c)
            }),
        {
            if char_is_whitespace(c) {
                None
            } else if !(c == '{' || c == '}' || c == '$') {
                Some(Action::Request)
            } else {
                None
            }
        };
    let scanned = scanner.scan(callback, Ghost(while_model(chars_p())));
    match scanned {
        Ok(got) => {
            scanner.commit();
            proof {
                assert(scanner.stack() =~= stack_at(
                    old(scanner).stack(),
                    run_end(s, i, chars_p()),
                ));
            }
            Ok(got)
        },
        Err(e) => Err(UserError {
            parse_error: ParseError::LexicalError(e),
            context: ContextMsg::InvalidContainedIn(String::from_str("characters section")),
            possible: PossibleMsg::ForbiddenAre(
                String::from_str("'{', '}', '$' or whitespace characters"),
            ),
        }),
    }
}

/// `<ws> ::= (" " | "\t" | "\n")+` — one or more whitespace characters.
pub fn ws(scanner: &mut Scanner) -> (r: Result<String, UserError>)
    requires
        old(scanner).wf(),
    ensures
        final(scanner).wf(),
        final(scanner).src() == old(scanner).src(),
        match spec_ws(old(scanner).src(), old(scanner).pos()) {
            StrOut::Found { got, next } => {
                &&& r matches Ok(out) && out@ == got
                &&& final(scanner).stack() == stack_at(old(scanner).stack(), next)
            },
            StrOut::Fail { err } => {
                &&& r matches Err(e) && e@ == err
                &&& final(scanner).stack() == old(scanner).stack()
            },
        },
{
    let ghost s = scanner.src();
    let ghost i = scanner.pos();
    proof {
        scanner.lemma_wf_bounds();
        lemma_run_end(s, i, ws_p());
        lemma_scan_while(s, i, ws_p());
    }
    scanner.begin();
    let callback = |c: char| -> (a: Option<Action>)
        ensures
            ({
                let m = while_model(ws_p());
                a == m(c)
            }),
        {
            if c == ' ' || c == '\t' || c == '\n' {
                Some(Action::Request)
            } else {
                None
            }
        };
    let scanned = scanner.scan(callback, Ghost(while_model(ws_p())));
    match scanned {
        Ok(got) => {
            scanner.commit();
            proof {
                assert(scanner.stack() =~= stack_at(old(scanner).stack(), run_end(s, i, ws_p())));
            }
            Ok(got)
        },
        Err(e) => Err(UserError {
            parse_error: ParseError::LexicalError(e),
            context: ContextMsg::InvalidContainedIn(String::from_str("whitespace section")),
            possible: PossibleMsg::AllowedAre(String::from_str("'\\n', '\\t' or ' '")),
        }),
    }
}

/// Outcome of a rule that yields one token.
pub ghost enum TokOut {
    Found { tok: Tok, next: int },
    Fail { err: UErrView },
}

/// Outcome of the `default` rule, which may find no default at all.
pub ghost enum DefOut {
    Found { d: Option<Box<Tok>>, next: int },
    Fail { err: UErrView },
}

/// What `constant` yields at position `i`: `$` followed by an identifier.
pub open spec fn spec_constant(s: Seq<char>, i: int) -> TokOut {
    if i >= s.len() {
        TokOut::Fail {
            err: uerr(
                eoi_err(s, i, i),
                CtxView::OpeningOf { what: "constant"@ },
                PossView::Mean { what: "$"@ },
            ),
        }
    } else if s[i] != '$' {
        TokOut::Fail {
            err: uerr(
                sym_err(s, i, i, s[i]),
                CtxView::OpeningOf { what: "constant"@ },
                PossView::Mean { what: "$"@ },
            ),
        }
    } else {
        match spec_ident(s, i + 1, i) {
            IdentOut::Fail { e } => TokOut::Fail {
                err: uerr(
                    e,
                    CtxView::ContainedIn { what: "identifier of constant"@ },
                    PossView::Allowed { what: "'A'-'Z', 'a'-'z' and '0'-'9'"@ },
                ),
            },
            IdentOut::Found { id, next } => TokOut::Found { tok: Tok::Constant { id }, next },
        }
    }
}

/// What `key` yields at position `i`: `{` identifier (`:` item)? `}`.
pub open spec fn spec_key(s: Seq<char>, i: int) -> TokOut
    decreases s.len() - i, 1int,
        via spec_key_dec
{
    if i >= s.len() {
        TokOut::Fail {
            err: uerr(
                eoi_err(s, i, i),
                CtxView::OpeningOf { what: "key"@ },
                PossView::Mean { what: "{"@ },
            ),
        }
    } else if s[i] != '{' {
        TokOut::Fail {
            err: uerr(
                sym_err(s, i, i, s[i]),
                CtxView::OpeningOf { what: "key"@ },
                PossView::Mean { what: "{"@ },
            ),
        }
    } else {
        match spec_ident(s, i + 1, i) {
            IdentOut::Fail { e } => TokOut::Fail {
                err: uerr(
                    e,
                    CtxView::ContainedIn { what: "identifier of key"@ },
                    PossView::Allowed { what: "'A'-'Z', 'a'-'z' and '0'-'9'"@ },
                ),
            },
            IdentOut::Found { id, next } => match spec_default(s, next) {
                DefOut::Fail { err } => TokOut::Fail { err },
                DefOut::Found { d, next: k } => {
                    if k >= s.len() {
                        TokOut::Fail {
                            err: uerr(
                                eoi_err(s, k, i),
                                CtxView::ClosingOf { what: "key"@ },
                                PossView::Mean { what: "}"@ },
                            ),
                        }
                    } else if s[k] != '}' {
                        // A stray character before the closing brace is
                        // invalid content in the key's identifier; only a
                        // missing end of input is a missing closing brace.
                        TokOut::Fail {
                            err: uerr(
                                sym_err(s, k, i, s[k]),
                                CtxView::ContainedIn { what: "identifier of key"@ },
                                PossView::Allowed { what: "'A'-'Z', 'a'-'z' and '0'-'9'"@ },
                            ),
                        }
                    } else {
                        TokOut::Found { tok: Tok::Key { id, default: d }, next: k + 1 }
                    }
                },
            },
        }
    }
}

#[via_fn]
proof fn spec_key_dec(s: Seq<char>, i: int) {
    if 0 <= i + 1 <= s.len() {
        lemma_run_end(s, i + 1, ident_p());
    }
}

/// What `default` yields at position `i`: a `:`-prefixed nested item, or
/// nothing at all when no colon stands there.  A failing nested item is
/// re-tagged as invalid content in the default.
pub open spec fn spec_default(s: Seq<char>, i: int) -> DefOut
    decreases s.len() - i, 0int,
{
    if i >= s.len() || s[i] != ':' {
        DefOut::Found { d: None, next: i }
    } else {
        match spec_item(s, i + 1) {
            TokOut::Found { tok, next } => DefOut::Found { d: Some(Box::new(tok)), next },
            TokOut::Fail { err } => DefOut::Fail {
                err: (UErrView {
                    err: err.err,
                    ctx: CtxView::ContainedIn { what: "default for key"@ },
                    poss: err.poss,
                }),
            },
        }
    }
}

/// What `option` yields at position `i`: `$` followed by a key, wrapped
/// unchanged.  A failing key is re-tagged as the option's identifier.
pub open spec fn spec_option(s: Seq<char>, i: int) -> TokOut
    decreases s.len() - i, 2int,
{
    if i >= s.len() {
        TokOut::Fail {
            err: uerr(
                eoi_err(s, i, i),
                CtxView::OpeningOf { what: "option"@ },
                PossView::Mean { what: "$"@ },
            ),
        }
    } else if s[i] != '$' {
        TokOut::Fail {
            err: uerr(
                sym_err(s, i, i, s[i]),
                CtxView::OpeningOf { what: "option"@ },
                PossView::Mean { what: "$"@ },
            ),
        }
    } else {
        match spec_key(s, i + 1) {
            TokOut::Fail { err } => TokOut::Fail {
                err: (UErrView {
                    err: err.err,
                    ctx: CtxView::ContainedIn { what: "identifier of option"@ },
                    poss: err.poss,
                }),
            },
            TokOut::Found { tok, next } => TokOut::Found {
                tok: Tok::Opt { key: Box::new(tok) },
                next,
            },
        }
    }
}

/// What `item` yields at position `i`: a one- or two-character lookahead
/// dispatches to exactly one of option (`${`), constant (`$` not followed by
/// `{`), key (`{`) or text; a `$` at the very end of the input, like an empty
/// input, is a failure of the dispatch itself.
pub open spec fn spec_item(s: Seq<char>, i: int) -> TokOut
    decreases s.len() - i, 3int,
{
    if i >= s.len() {
        TokOut::Fail {
            err: uerr(eoi_err(s, i, i), CtxView::EmptyInput, PossView::Unspecified),
        }
    } else if s[i] == '$' && i + 1 < s.len() && s[i + 1] == '{' {
        spec_option(s, i)
    } else if s[i] == '$' && i + 1 >= s.len() {
        TokOut::Fail {
            err: uerr(eoi_err(s, i + 1, i), CtxView::EmptyInput, PossView::Unspecified),
        }
    } else if s[i] == '$' {
        spec_constant(s, i)
    } else if s[i] == '{' {
        spec_key(s, i)
    } else {
        match spec_text(s, i) {
            StrOut::Found { got, next } => TokOut::Found { tok: Tok::Text { text: got }, next },
            StrOut::Fail { err } => TokOut::Fail { err },
        }
    }
}

/// A found item always consumes at least one character and never runs past
/// the end of the input; a found default consumes none or more.
pub proof fn lemma_item_progress(s: Seq<char>, i: int)
    requires
        0 <= i <= s.len(),
    ensures
        spec_item(s, i) matches TokOut::Found { next, .. } ==> i < next <= s.len(),
        spec_key(s, i) matches TokOut::Found { next, .. } ==> i < next <= s.len(),
        spec_option(s, i) matches TokOut::Found { next, .. } ==> i < next <= s.len(),
        spec_constant(s, i) matches TokOut::Found { next, .. } ==> i < next <= s.len(),
        spec_default(s, i) matches DefOut::Found { next, .. } ==> i <= next <= s.len(),
    decreases s.len() - i, 4int,
{
    lemma_run_end(s, i, text_p());
    if i < s.len() {
        lemma_run_end(s, i + 1, ident_p());
        lemma_item_progress(s, i + 1);
        let j = run_end(s, i + 1, ident_p());
        lemma_item_progress(s, j);
    }
}

/// `<key> ::= "{" <ident> <default>? "}"`.
#[verifier::rlimit(100)]
#[verifier::spinoff_prover]
pub fn key(scanner: &mut Scanner) -> (r: Result<ContentToken, UserError>)
    requires
        old(scanner).wf(),
    ensures
        final(scanner).wf(),
        final(scanner).src() == old(scanner).src(),
        match spec_key(old(scanner).src(), old(scanner).pos()) {
            TokOut::Found { tok, next } => {
                &&& r matches Ok(t) && tok_view(t) == tok
                &&& final(scanner).stack() == stack_at(old(scanner).stack(), next)
            },
            TokOut::Fail { err } => {
                &&& r matches Err(e) && e@ == err
                &&& final(scanner).stack() == old(scanner).stack()
            },
        },
    decreases scanner.src().len() - scanner.pos(), 1int,
{
    let ghost s = scanner.src();
    let ghost i = scanner.pos();
    let ghost st0 = scanner.stack();
    proof {
        scanner.lemma_wf_bounds();
        if i < s.len() {
            lemma_run_end(s, i + 1, ident_p());
            lemma_item_progress(s, run_end(s, i + 1, ident_p()));
        }
    }
    scanner.begin();
    if let Err(e) = scanner.take(Terminals::LBrace) {
        return Err(UserError {
            parse_error: ParseError::LexicalError(e),
            context: ContextMsg::InvalidOpeningOf(String::from_str("key")),
            possible: PossibleMsg::DidYouMean(String::from_str("{")),
        });
    }

    let id = match ident(scanner) {
        Ok(id) => id,
        Err(e) => {
            return Err(UserError {
                parse_error: e,
                context: ContextMsg::InvalidContainedIn(String::from_str("identifier of key")),
                possible: PossibleMsg::AllowedAre(String::from_str("'A'-'Z', 'a'-'z' and '0'-'9'")),
            });
        },
    };
    let def = match default(scanner) {
        Ok(found) => match found {
            Some(token) => Some(Box::new(token)),
            None => None,
        },
        Err(e) => {
            scanner.abort();
            return Err(e);
        },
    };
    if let Err(e) = scanner.take(Terminals::RBrace) {
        return Err(match e {
            ScanError::UnexpectedSymbol(_) => UserError {
                parse_error: ParseError::LexicalError(e),
                context: ContextMsg::InvalidContainedIn(String::from_str("identifier of key")),
                possible: PossibleMsg::AllowedAre(String::from_str("'A'-'Z', 'a'-'z' and '0'-'9'")),
            },
            ScanError::UnexpectedEndOfInput(_) => UserError {
                parse_error: ParseError::LexicalError(e),
                context: ContextMsg::InvalidClosingOf(String::from_str("key")),
                possible: PossibleMsg::DidYouMean(String::from_str("}")),
            },
        });
    }
    scanner.commit();
    proof {
        assert(scanner.stack() =~= stack_at(st0, scanner.pos()));
    }
    Ok(ContentToken::Key(id, def))
}

/// `<default> ::= ":" <item>` — optional: a missing colon means no default.
#[verifier::rlimit(100)]
#[verifier::spinoff_prover]
pub fn default(scanner: &mut Scanner) -> (r: Result<Option<ContentToken>, UserError>)
    requires
        old(scanner).wf(),
    ensures
        final(scanner).wf(),
        final(scanner).src() == old(scanner).src(),
        match spec_default(old(scanner).src(), old(scanner).pos()) {
            DefOut::Found { d, next } => {
                &&& r matches Ok(found) && (match found {
                    Some(t) => d matches Some(bt) && *bt == tok_view(t),
                    None => d is None,
                })
                &&& final(scanner).stack() == stack_at(old(scanner).stack(), next)
            },
            DefOut::Fail { err } => {
                &&& r matches Err(e) && e@ == err
                &&& final(scanner).stack() == old(scanner).stack()
            },
        },
    decreases scanner.src().len() - scanner.pos(), 4int,
{
    let ghost st0 = scanner.stack();
    proof {
        scanner.lemma_wf_bounds();
    }
    scanner.begin();
    if let Err(_) = scanner.take(Terminals::Colon) {
        proof {
            assert(scanner.stack() =~= stack_at(st0, scanner.pos()));
        }
        return Ok(None);
    }
    match item(scanner) {
        Ok(token) => {
            scanner.commit();
            proof {
                assert(scanner.stack() =~= stack_at(st0, scanner.pos()));
            }
            Ok(Some(token))
        },
        Err(e) => {
            scanner.abort();
            let mut e = e;
            e.context = ContextMsg::InvalidContainedIn(String::from_str("default for key"));
            Err(e)
        },
    }
}

/// `<option> ::= "$" <key>`.
#[verifier::rlimit(100)]
#[verifier::spinoff_prover]
pub fn option(scanner: &mut Scanner) -> (r: Result<ContentToken, UserError>)
    requires
        old(scanner).wf(),
    ensures
        final(scanner).wf(),
        final(scanner).src() == old(scanner).src(),
        match spec_option(old(scanner).src(), old(scanner).pos()) {
            TokOut::Found { tok, next } => {
                &&& r matches Ok(t) && tok_view(t) == tok
                &&& final(scanner).stack() == stack_at(old(scanner).stack(), next)
            },
            TokOut::Fail { err } => {
                &&& r matches Err(e) && e@ == err
                &&& final(scanner).stack() == old(scanner).stack()
            },
        },
    decreases scanner.src().len() - scanner.pos(), 2int,
{
    let ghost st0 = scanner.stack();
    proof {
        scanner.lemma_wf_bounds();
    }
    scanner.begin();
    if let Err(e) = scanner.take(Terminals::Cash) {
        return Err(UserError {
            parse_error: ParseError::LexicalError(e),
            context: ContextMsg::InvalidOpeningOf(String::from_str("option")),
            possible: PossibleMsg::DidYouMean(String::from_str("$")),
        });
    }
    match key(scanner) {
        Ok(token) => {
            scanner.commit();
            proof {
                assert(scanner.stack() =~= stack_at(st0, scanner.pos()));
            }
            Ok(ContentToken::Option(Box::new(token)))
        },
        Err(e) => {
            scanner.abort();
            let mut e = e;
            e.context = ContextMsg::InvalidContainedIn(String::from_str("identifier of option"));
            Err(e)
        },
    }
}

/// `<constant> ::= "$" <ident>` — never followed by `{`; the dispatch in
/// [`item`] tells it apart from an option by one character of lookahead.
#[verifier::rlimit(100)]
#[verifier::spinoff_prover]
pub fn constant(scanner: &mut Scanner) -> (r: Result<ContentToken, UserError>)
    requires
        old(scanner).wf(),
    ensures
        final(scanner).wf(),
        final(scanner).src() == old(scanner).src(),
        match spec_constant(old(scanner).src(), old(scanner).pos()) {
            TokOut::Found { tok, next } => {
                &&& r matches Ok(t) && tok_view(t) == tok
                &&& final(scanner).stack() == stack_at(old(scanner).stack(), next)
            },
            TokOut::Fail { err } => {
                &&& r matches Err(e) && e@ == err
                &&& final(scanner).stack() == old(scanner).stack()
            },
        },
{
    let ghost st0 = scanner.stack();
    proof {
        scanner.lemma_wf_bounds();
    }
    scanner.begin();
    if let Err(e) = scanner.take(Terminals::Cash) {
        return Err(UserError {
            parse_error: ParseError::LexicalError(e),
            context: ContextMsg::InvalidOpeningOf(String::from_str("constant")),
            possible: PossibleMsg::DidYouMean(String::from_str("$")),
        });
    }
    match ident(scanner) {
        Ok(id) => {
            scanner.commit();
            proof {
                assert(scanner.stack() =~= stack_at(st0, scanner.pos()));
            }
            Ok(ContentToken::Constant(id))
        },
        Err(e) => Err(UserError {
            parse_error: e,
            context: ContextMsg::InvalidContainedIn(String::from_str("identifier of constant")),
            possible: PossibleMsg::AllowedAre(String::from_str("'A'-'Z', 'a'-'z' and '0'-'9'")),
        }),
    }
}

/// `<item> ::= <key> | <option> | <constant> | <text>` — a short lookahead
/// dispatches deterministically to exactly one alternative.
#[verifier::rlimit(100)]
#[verifier::spinoff_prover]
pub fn item(scanner: &mut Scanner) -> (r: Result<ContentToken, UserError>)
    requires
        old(scanner).wf(),
    ensures
        final(scanner).wf(),
        final(scanner).src() == old(scanner).src(),
        match spec_item(old(scanner).src(), old(scanner).pos()) {
            TokOut::Found { tok, next } => {
                &&& r matches Ok(t) && tok_view(t) == tok
                &&& final(scanner).stack() == stack_at(old(scanner).stack(), next)
            },
            TokOut::Fail { err } => {
                &&& r matches Err(e) && e@ == err
                &&& final(scanner).stack() == old(scanner).stack()
            },
        },
    decreases scanner.src().len() - scanner.pos(), 3int,
{
    proof {
        scanner.lemma_wf_bounds();
    }
    match scanner.current_char() {
        None => {
            // The input ended where an item was to begin; fail on a probe for
            // any terminal so the failure carries this exact position.
            scanner.begin();
            if let Err(e) = scanner.take(Terminals::Cash) {
                return Err(UserError {
                    parse_error: ParseError::LexicalError(e),
                    context: ContextMsg::EmptyInput,
                    possible: PossibleMsg::Unspecified,
                });
            }
            unreached()
        },
        Some(c) => {
            if c == '$' {
                if scanner.peek('{') {
                    option(scanner)
                } else {
                    // A `$` may still be the last character of the input, on
                    // which the dispatch itself fails: probe past it.
                    scanner.begin();
                    if let Err(_) = scanner.take(Terminals::Cash) {
                        return unreached();
                    }
                    match scanner.take(Terminals::Cash) {
                        Err(e) => {
                            if let ScanError::UnexpectedEndOfInput(_) = e {
                                Err(UserError {
                                    parse_error: ParseError::LexicalError(e),
                                    context: ContextMsg::EmptyInput,
                                    possible: PossibleMsg::Unspecified,
                                })
                            } else {
                                constant(scanner)
                            }
                        },
                        Ok(_) => {
                            scanner.abort();
                            constant(scanner)
                        },
                    }
                }
            } else if c == '{' {
                key(scanner)
            } else {
                match text(scanner) {
                    Ok(got) => Ok(ContentToken::Text(got)),
                    Err(e) => Err(e),
                }
            }
        },
    }
}

/// Outcome of the optional leading locale line.
pub ghost enum LocOut {
    Found { tag: Seq<char>, next: int },
    NoLoc { err: UErrView },
}

/// What the `locale` rule yields at position `i`: a nonempty run of
/// non-whitespace, non-terminal characters that the locale validator accepts,
/// closed by a newline — or the failure that makes the template locale-free.
pub open spec fn spec_locale(s: Seq<char>, i: int) -> LocOut {
    match spec_chars(s, i) {
        StrOut::Fail { err } => LocOut::NoLoc { err },
        StrOut::Found { got: tag, next: j } => {
            if !locale_ok(tag) {
                LocOut::NoLoc {
                    err: (UErrView {
                        err: PErrView::Loc { tag },
                        ctx: CtxView::ContainedIn { what: "locale"@ },
                        poss: PossView::Unspecified,
                    }),
                }
            } else if j >= s.len() {
                LocOut::NoLoc {
                    err: uerr(
                        eoi_err(s, j, i),
                        CtxView::ClosingOf { what: "locale"@ },
                        PossView::Forget { what: "a new line after the locale"@ },
                    ),
                }
            } else if s[j] != '\n' {
                LocOut::NoLoc {
                    err: uerr(
                        sym_err(s, j, i, s[j]),
                        CtxView::ClosingOf { what: "locale"@ },
                        PossView::Forget { what: "a new line after the locale"@ },
                    ),
                }
            } else {
                LocOut::Found { tag, next: j + 1 }
            }
        },
    }
}

/// `<locale> ::= <chars> "\n"` — an optional first line naming the document's
/// locale; any failure leaves the scanner where it started, so the line is
/// re-read as ordinary template content.
#[verifier::rlimit(100)]
#[verifier::spinoff_prover]
pub fn locale(scanner: &mut Scanner) -> (r: Result<unic_locale::Locale, UserError>)
    requires
        old(scanner).wf(),
    ensures
        final(scanner).wf(),
        final(scanner).src() == old(scanner).src(),
        match spec_locale(old(scanner).src(), old(scanner).pos()) {
            LocOut::Found { tag, next } => {
                &&& r matches Ok(found) && found == locale_of(tag)
                &&& locale_ok(tag)
                &&& final(scanner).stack() == stack_at(old(scanner).stack(), next)
            },
            LocOut::NoLoc { err } => {
                &&& r matches Err(e) && e@ == err
                &&& final(scanner).stack() == old(scanner).stack()
            },
        },
{
    let ghost s = scanner.src();
    let ghost i = scanner.pos();
    let ghost st0 = scanner.stack();
    proof {
        scanner.lemma_wf_bounds();
        lemma_run_end(s, i, chars_p());
    }
    scanner.begin();
    let input = match chars(scanner) {
        Ok(input) => input,
        Err(e) => {
            scanner.abort();
            return Err(e);
        },
    };
    let parsed = match parse_locale(input.as_str()) {
        Some(parsed) => parsed,
        None => {
            scanner.abort();
            return Err(UserError {
                parse_error: ParseError::LocaleError(input),
                context: ContextMsg::InvalidContainedIn(String::from_str("locale")),
                possible: PossibleMsg::Unspecified,
            });
        },
    };
    if let Err(e) = scanner.take(Terminals::Nl) {
        return Err(UserError {
            parse_error: ParseError::LexicalError(e),
            context: ContextMsg::InvalidClosingOf(String::from_str("locale")),
            possible: PossibleMsg::DidYouForget(String::from_str("a new line after the locale")),
        });
    }
    scanner.commit();
    proof {
        assert(scanner.stack() =~= stack_at(st0, scanner.pos()));
    }
    Ok(parsed)
}

/// What parsing `<item>+` greedily from position `i` yields: the items found,
/// the position where no further item begins, and the failure of the attempt
/// that stopped the loop.
pub open spec fn spec_items(s: Seq<char>, i: int) -> (Seq<Tok>, int, UErrView)
    decreases s.len() - i,
{
    match spec_item(s, i) {
        TokOut::Fail { err } => (Seq::empty(), i, err),
        TokOut::Found { tok, next } => {
            if i < next <= s.len() {
                let (rest, end, err) = spec_items(s, next);
                (seq![tok] + rest, end, err)
            } else {
                // A found item always consumes at least one character, so
                // this arm is never the meaning of any input.
                (
                    seq![tok],
                    next,
                    UErrView {
                        err: PErrView::Lex { e: eoi_err(s, i, i) },
                        ctx: CtxView::Unspecified,
                        poss: PossView::Unspecified,
                    },
                )
            }
        },
    }
}

/// Outcome of the whole template: a document, or the failure of the item
/// attempt that stopped the parse, with the position the items ended at.
pub ghost enum TemplOut {
    Parsed { loc: LocOut, toks: Seq<Tok>, next: int },
    Failed { err: UErrView, at: int },
}

/// What `template ::= <locale>? <item>+` yields starting at position `i`:
/// the whole remaining input must be consumed by at least one item, else the
/// failure that stopped the item loop is the overall outcome.  A failed
/// locale line never aborts the parse: the items are then read from `i`.
pub open spec fn spec_template(s: Seq<char>, i: int) -> TemplOut {
    let loc = spec_locale(s, i);
    let start = match loc {
        LocOut::Found { next, .. } => next,
        LocOut::NoLoc { .. } => i,
    };
    let (toks, end, err) = spec_items(s, start);
    if toks.len() > 0 && end == s.len() {
        TemplOut::Parsed { loc, toks, next: end }
    } else {
        TemplOut::Failed { err, at: end }
    }
}

/// `template ::= <locale>? <item>+` — parse a whole document: an optional
/// locale line (whose failure is downgraded to a diagnostic), then items
/// until the first failure, which must coincide with the end of the input.
#[verifier::rlimit(100)]
#[verifier::spinoff_prover]
#[verifier::loop_isolation(false)]
pub fn template(scanner: &mut Scanner) -> (r: Result<ContentTokens, UserError>)
    requires
        old(scanner).wf(),
    ensures
        final(scanner).wf(),
        final(scanner).src() == old(scanner).src(),
        match spec_template(old(scanner).src(), old(scanner).pos()) {
            TemplOut::Parsed { loc, toks, next } => {
                &&& r matches Ok(ct) && ct.toks() == toks && (match loc {
                    LocOut::Found { tag, .. } => ct.friendly().len() == 0 && locale_ok(tag)
                        && ct.locale_val() == locale_of(tag),
                    LocOut::NoLoc { err } => ct.friendly() == seq![err] && ct.locale_val()
                        == locale_of("en-US"@),
                })
                &&& final(scanner).stack() == stack_at(old(scanner).stack(), next)
            },
            TemplOut::Failed { err, at } => {
                &&& r matches Err(e) && e@ == err
                &&& final(scanner).stack() == stack_at(old(scanner).stack(), at)
            },
        },
{
    let ghost s = scanner.src();
    let ghost i = scanner.pos();
    let ghost st0 = scanner.stack();
    proof {
        scanner.lemma_wf_bounds();
        lemma_run_end(s, i, chars_p());
    }
    let mut tokens = match locale(scanner) {
        Ok(found) => ContentTokens::from(found),
        Err(e) => {
            let ghost ev = e@;
            let mut empty_doc = ContentTokens::new();
            empty_doc.add_friendly(e);
            proof {
                assert(empty_doc.friendly() =~= seq![ev]);
            }
            empty_doc
        },
    };
    let ghost start = scanner.pos();
    proof {
        scanner.lemma_wf_bounds();
        assert(scanner.stack() =~= stack_at(st0, scanner.pos()));
    }
    let mut failure: Option<UserError> = None;
    while failure.is_none()
        invariant
            scanner.wf(),
            scanner.src() == s,
            scanner.stack().len() == st0.len(),
            scanner.stack() == stack_at(st0, scanner.pos()),
            start <= scanner.pos() <= s.len(),
            match spec_locale(s, i) {
                LocOut::Found { tag, .. } => tokens.friendly().len() == 0 && locale_ok(tag)
                    && tokens.locale_val() == locale_of(tag),
                LocOut::NoLoc { err } => tokens.friendly() == seq![err] && tokens.locale_val()
                    == locale_of("en-US"@),
            },
            match failure {
                None => {
                    &&& spec_items(s, start).0 == tokens.toks() + spec_items(s, scanner.pos()).0
                    &&& spec_items(s, start).1 == spec_items(s, scanner.pos()).1
                    &&& spec_items(s, start).2 == spec_items(s, scanner.pos()).2
                },
                Some(e) => {
                    &&& spec_items(s, start).0 == tokens.toks()
                    &&& spec_items(s, start).1 == scanner.pos()
                    &&& spec_items(s, start).2 == e@
                },
            },
        decreases s.len() - scanner.pos(), (if failure is None { 1int } else { 0int }),
    {
        proof {
            lemma_item_progress(s, scanner.pos());
        }
        let ghost toks_before = tokens.toks();
        let ghost pos_before = scanner.pos();
        match item(scanner) {
            Ok(token) => {
                proof {
                    assert(seq![tok_view(token)] + spec_items(s, scanner.pos()).0 =~= spec_items(
                        s,
                        pos_before,
                    ).0);
                    assert(toks_before + (seq![tok_view(token)] + spec_items(s, scanner.pos()).0)
                        =~= toks_before.push(tok_view(token)) + spec_items(s, scanner.pos()).0);
                }
                tokens.push(token);
            },
            Err(e) => {
                failure = Some(e);
                proof {
                    assert(tokens.toks() + spec_items(s, scanner.pos()).0 =~= tokens.toks());
                }
            },
        }
    }
    if tokens.len() > 0 && scanner.at_end() {
        Ok(tokens)
    } else {
        match failure {
            Some(e) => Err(e),
            None => unreached(),
        }
    }
}


/// Literal-text inputs parse as one text token: a nonempty input holding none
/// of `{`, `}`, `$`, whose start no locale line can be read from, parses
/// successfully into exactly one text token carrying the whole input.
pub proof fn lemma_plain_text_parses(s: Seq<char>)
    requires
        s.len() > 0,
        forall|k: int| 0 <= k < s.len() ==> !is_terminal_char(#[trigger] s[k]),
        spec_locale(s, 0) is NoLoc,
    ensures
        spec_template(s, 0) == (TemplOut::Parsed {
            loc: spec_locale(s, 0),
            toks: seq![Tok::Text { text: s }],
            next: s.len() as int,
        }),
{
    lemma_run_end(s, 0, text_p());
    let e = run_end(s, 0, text_p());
    assert(e == s.len());
    assert(s.subrange(0, e) =~= s);
    assert(spec_item(s, 0) == (TokOut::Found { tok: Tok::Text { text: s }, next: s.len() as int }));
    assert(seq![Tok::Text { text: s }] + spec_items(s, s.len() as int).0 =~= seq![
        Tok::Text { text: s },
    ]);
}

/// The whole input is consumed: a parse never succeeds leaving trailing
/// content behind, and never succeeds on an input without a single item.
pub proof fn lemma_whole_input_consumed(s: Seq<char>, i: int)
    ensures
        spec_template(s, i) matches TemplOut::Parsed { next, toks, .. } ==> next == s.len()
            && toks.len() > 0,
{
}

/// The dispatch is deterministic and never confused: `${` always parses as an
/// option, `$` not followed by `{` as a constant, `{` as a key, and anything
/// else as text, regardless of the characters that follow.
pub proof fn lemma_dispatch(s: Seq<char>, i: int)
    requires
        0 <= i < s.len(),
    ensures
        s[i] == '$' && i + 1 < s.len() && s[i + 1] == '{' ==> spec_item(s, i) == spec_option(s, i),
        s[i] == '$' && i + 1 < s.len() && s[i + 1] != '{' ==> spec_item(s, i) == spec_constant(
            s,
            i,
        ),
        s[i] != '$' && s[i] == '{' ==> spec_item(s, i) == spec_key(s, i),
        spec_option(s, i) matches TokOut::Found { tok, .. } ==> tok is Opt,
        spec_constant(s, i) matches TokOut::Found { tok, .. } ==> tok is Constant,
        spec_key(s, i) matches TokOut::Found { tok, .. } ==> tok is Key,
{
}

/// The identifier character set: `ident` accepts exactly a nonempty run of
/// ASCII letters and digits, stops right before the first other character,
/// and rejects an input whose first character is no letter or digit.
pub proof fn lemma_ident_charset(s: Seq<char>, i: int, base: int)
    requires
        0 <= i <= s.len(),
    ensures
        spec_ident(s, i, base) matches IdentOut::Found { id, next } ==> {
            &&& 1 <= id.len()
            &&& next == i + id.len()
            &&& id == s.subrange(i, next)
            &&& (forall|k: int| 0 <= k < id.len() ==> is_ident_char(#[trigger] id[k]))
            &&& (next == s.len() || !is_ident_char(s[next]))
        },
        (spec_ident(s, i, base) is Fail) <==> (i == s.len() || !is_ident_char(s[i])),
{
    lemma_run_end(s, i, ident_p());
    match spec_ident(s, i, base) {
        IdentOut::Found { id, next } => {
            assert(forall|k: int| 0 <= k < id.len() ==> id[k] == s[i + k] && is_ident_char(
                #[trigger] id[k],
            ));
        },
        IdentOut::Fail { .. } => {},
    }
}


/// The decimal digits of `n`, most significant first.
pub open spec fn dec_digits(n: nat) -> Seq<char>
    decreases n,
{
    if n < 10 {
        seq![digit_char(n)]
    } else {
        dec_digits(n / 10).push(digit_char(n % 10))
    }
}

/// The character of one decimal digit.
pub open spec fn digit_char(d: nat) -> char {
    if d == 0 {
        '0'
    } else if d == 1 {
        '1'
    } else if d == 2 {
        '2'
    } else if d == 3 {
        '3'
    } else if d == 4 {
        '4'
    } else if d == 5 {
        '5'
    } else if d == 6 {
        '6'
    } else if d == 7 {
        '7'
    } else if d == 8 {
        '8'
    } else {
        '9'
    }
}

/// Render a number in decimal.
fn usize_to_string(n: usize) -> (r: String)
    ensures
        r@ == dec_digits(n as nat),
    decreases n,
{
    let rem = n % 10;
    let digit: &str = if rem == 0 {
        "0"
    } else if rem == 1 {
        "1"
    } else if rem == 2 {
        "2"
    } else if rem == 3 {
        "3"
    } else if rem == 4 {
        "4"
    } else if rem == 5 {
        "5"
    } else if rem == 6 {
        "6"
    } else if rem == 7 {
        "7"
    } else if rem == 8 {
        "8"
    } else {
        "9"
    };
    proof {
        reveal_strlit("0");
        reveal_strlit("1");
        reveal_strlit("2");
        reveal_strlit("3");
        reveal_strlit("4");
        reveal_strlit("5");
        reveal_strlit("6");
        reveal_strlit("7");
        reveal_strlit("8");
        reveal_strlit("9");
        assert(digit@ =~= seq![digit_char((n % 10) as nat)]);
    }
    if n < 10 {
        String::from_str(digit)
    } else {
        let mut prefix = usize_to_string(n / 10);
        prefix.append(digit);
        proof {
            assert(prefix@ =~= dec_digits(n as nat));
        }
        prefix
    }
}

/// The textual rendering of an error position: its 1-based column, with the
/// line named too once the position lies past the first line.
pub open spec fn spec_position_msg(p: ErrorPosition) -> Seq<char> {
    if p.line == 1 {
        "column "@ + dec_digits(p.column as nat)
    } else {
        "line "@ + dec_digits(p.line as nat) + ", column "@ + dec_digits(p.column as nat)
    }
}

/// The textual rendering of a character-level failure.
pub open spec fn spec_scan_msg(e: ScanError) -> Seq<char> {
    match e {
        ScanError::UnexpectedSymbol(u) => match u.expected {
            Some(x) => "'"@ + seq![u.found] + "' at "@ + spec_position_msg(u.position)
                + " (expected '"@ + seq![x] + "')"@,
            None => "'"@ + seq![u.found] + "' at "@ + spec_position_msg(u.position),
        },
        ScanError::UnexpectedEndOfInput(p) => "Unexpected end of input reached at position "@
            + spec_position_msg(p),
    }
}

/// The textual rendering of a grammar-level failure.
pub open spec fn spec_parse_msg(e: PErrView) -> Seq<char> {
    match e {
        PErrView::Lex { e } => spec_scan_msg(e),
        PErrView::Loc { .. } => "Locale Error"@,
    }
}

/// The textual rendering of a failure's rule context.
pub open spec fn spec_context_msg(c: CtxView) -> Seq<char> {
    match c {
        CtxView::ContainedIn { what } => "Found invalid character(s) contained in "@ + what,
        CtxView::OpeningOf { what } => "Found invalid opening character for "@ + what,
        CtxView::ClosingOf { what } => "Found invalid closing character for "@ + what,
        CtxView::EmptyInput => "Cannot process an empty input"@,
        CtxView::Unspecified => Seq::empty(),
    }
}

/// The textual rendering of a failure's suggestion.
pub open spec fn spec_possible_msg(p: PossView) -> Seq<char> {
    match p {
        PossView::Mean { what } => "Did you maybe mean '"@ + what + "'?"@,
        PossView::Forget { what } => "Did you maybe forget "@ + what + "?"@,
        PossView::Allowed { what } => "Allowed characters are "@ + what,
        PossView::Forbidden { what } => "Forbidden characters are "@ + what,
        PossView::Unspecified => Seq::empty(),
    }
}

/// The whole human-readable rendering of a failure:
/// `context: lexical-message`, then the suggestion on a line of its own.
pub open spec fn spec_user_msg(v: UErrView) -> Seq<char> {
    spec_context_msg(v.ctx) + ": "@ + spec_parse_msg(v.err) + "\n"@ + spec_possible_msg(v.poss)
}

/// Relies on `String::push` of std: appends exactly the given character.
#[verifier::external_body]
fn push_char(out: &mut String, c: char)
    ensures
        final(out)@ == old(out)@.push(c),
{
    out.push(c);
}

/// Append the rendering of an error position.
fn append_position(out: &mut String, p: &ErrorPosition)
    ensures
        final(out)@ == old(out)@ + spec_position_msg(*p),
{
    if p.line == 1 {
        out.append("column ");
        let col = usize_to_string(p.column);
        out.append(col.as_str());
        proof {
            assert(final(out)@ =~= old(out)@ + spec_position_msg(*p));
        }
    } else {
        out.append("line ");
        let line = usize_to_string(p.line);
        out.append(line.as_str());
        out.append(", column ");
        let col = usize_to_string(p.column);
        out.append(col.as_str());
        proof {
            assert(final(out)@ =~= old(out)@ + spec_position_msg(*p));
        }
    }
}

impl ScanError {
    /// The human-readable rendering of this failure.
    pub fn message(&self) -> (r: String)
        ensures
            r@ == spec_scan_msg(*self),
    {
        let mut out = String::new();
        match self {
            ScanError::UnexpectedSymbol(u) => {
                out.append("'");
                push_char(&mut out, u.found);
                out.append("' at ");
                append_position(&mut out, &u.position);
                match u.expected {
                    Some(x) => {
                        out.append(" (expected '");
                        push_char(&mut out, x);
                        out.append("')");
                        proof {
                            assert(out@ =~= spec_scan_msg(*self));
                        }
                    },
                    None => {
                        proof {
                            assert(out@ =~= spec_scan_msg(*self));
                        }
                    },
                }
            },
            ScanError::UnexpectedEndOfInput(p) => {
                out.append("Unexpected end of input reached at position ");
                append_position(&mut out, p);
                proof {
                    assert(out@ =~= spec_scan_msg(*self));
                }
            },
        }
        out
    }
}

impl UserError {
    /// The whole human-readable rendering of this failure:
    /// `context: lexical-message`, then the suggestion on a line of its own.
    pub fn message(&self) -> (r: String)
        ensures
            r@ == spec_user_msg(self@),
    {
        let mut out = String::new();
        match &self.context {
            ContextMsg::InvalidContainedIn(what) => {
                out.append("Found invalid character(s) contained in ");
                out.append(what.as_str());
            },
            ContextMsg::InvalidOpeningOf(what) => {
                out.append("Found invalid opening character for ");
                out.append(what.as_str());
            },
            ContextMsg::InvalidClosingOf(what) => {
                out.append("Found invalid closing character for ");
                out.append(what.as_str());
            },
            ContextMsg::EmptyInput => {
                out.append("Cannot process an empty input");
            },
            ContextMsg::Unspecified => {},
        }
        proof {
            assert(out@ =~= spec_context_msg(self.context@));
        }
        out.append(": ");
        match &self.parse_error {
            ParseError::LexicalError(e) => {
                let lexical = e.message();
                out.append(lexical.as_str());
            },
            ParseError::LocaleError(_) => {
                out.append("Locale Error");
            },
        }
        out.append("\n");
        match &self.possible {
            PossibleMsg::DidYouMean(what) => {
                out.append("Did you maybe mean '");
                out.append(what.as_str());
                out.append("'?");
            },
            PossibleMsg::DidYouForget(what) => {
                out.append("Did you maybe forget ");
                out.append(what.as_str());
                out.append("?");
            },
            PossibleMsg::AllowedAre(what) => {
                out.append("Allowed characters are ");
                out.append(what.as_str());
            },
            PossibleMsg::ForbiddenAre(what) => {
                out.append("Forbidden characters are ");
                out.append(what.as_str());
            },
            PossibleMsg::Unspecified => {},
        }
        proof {
            assert(out@ =~= spec_user_msg(self@));
        }
        out
    }
}


/// What `characters` yields at position `i`, inside an attempt begun at
/// `base`: the longest nonempty run of characters that are none of `{`, `}`,
/// `$`, scanned on the enclosing rule's speculative layer.
pub open spec fn spec_characters(s: Seq<char>, i: int, base: int) -> StrOut {
    if i >= s.len() {
        StrOut::Fail {
            err: uerr(
                eoi_err(s, i, base),
                CtxView::ContainedIn { what: "text section"@ },
                PossView::Forbidden { what: "'{', '}' or '$'"@ },
            ),
        }
    } else if is_terminal_char(s[i]) {
        StrOut::Fail {
            err: uerr(
                sym_err(s, i, base, s[i]),
                CtxView::ContainedIn { what: "text section"@ },
                PossView::Forbidden { what: "'{', '}' or '$'"@ },
            ),
        }
    } else {
        StrOut::Found { got: s.subrange(i, run_end(s, i, text_p())), next: run_end(s, i, text_p()) }
    }
}

/// `<characters>` — one or more characters that are none of `{`, `}`, `$`,
/// scanned directly on the enclosing rule's speculative layer.
pub fn characters(scanner: &mut Scanner) -> (r: Result<String, UserError>)
    requires
        old(scanner).wf(),
    ensures
        final(scanner).wf(),
        final(scanner).src() == old(scanner).src(),
        match spec_characters(old(scanner).src(), old(scanner).pos(), under(old(scanner).stack())) {
            StrOut::Found { got, next } => {
                &&& r matches Ok(out) && out@ == got
                &&& final(scanner).stack() == stack_at(old(scanner).stack(), next)
            },
            StrOut::Fail { err } => {
                &&& r matches Err(e) && e@ == err
                &&& final(scanner).stack() == stack_after_err(old(scanner).stack())
            },
        },
{
    let ghost s = scanner.src();
    let ghost i = scanner.pos();
    proof {
        scanner.lemma_wf_bounds();
        lemma_run_end(s, i, text_p());
        lemma_scan_while(s, i, text_p());
    }
    let callback = |c: char| -> (a: Option<Action>)
        ensures
            ({
                let m = while_model(text_p());
                a == m(c)
            }),
        {
            if !(c == '{' || c == '}' || c == '$') {
                Some(Action::Request)
            } else {
                None
            }
        };
    let scanned = scanner.scan(callback, Ghost(while_model(text_p())));
    match scanned {
        Ok(got) => Ok(got),
        Err(e) => Err(UserError {
            parse_error: ParseError::LexicalError(e),
            context: ContextMsg::InvalidContainedIn(String::from_str("text section")),
            possible: PossibleMsg::ForbiddenAre(String::from_str("'{', '}' or '$'")),
        }),
    }
}

} // verus!
