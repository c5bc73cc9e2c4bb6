//! Character-level scanning with transactional backtracking.
//!
//! A [`Scanner`] owns the source as a sequence of characters and a [`Cursor`]:
//! a stack of positions into that sequence.  Pushing a layer starts a
//! speculative attempt; popping either merges the advanced position into the
//! layer below (the attempt succeeded) or discards it (the attempt failed and
//! every side effect on the position is undone).
use vstd::prelude::*;
use vstd::string::*;

use crate::parse::Terminals;

verus! {

/// Line number (1-based) of the position `pos` in `s`: one more than the
/// number of newline characters strictly before `pos`.
pub open spec fn line_of(s: Seq<char>, pos: int) -> int
    decreases pos,
{
    if pos <= 0 {
        1
    } else {
        line_of(s, pos - 1) + if s[pos - 1] == '\n' {
            1int
        } else {
            0int
        }
    }
}

/// Column number (1-based) of the position `pos` in `s`: columns restart at 1
/// right after every newline character.
pub open spec fn col_of(s: Seq<char>, pos: int) -> int
    decreases pos,
{
    if pos <= 0 {
        1
    } else if s[pos - 1] == '\n' {
        1
    } else {
        col_of(s, pos - 1) + 1
    }
}

pub proof fn lemma_line_col_bounds(s: Seq<char>, pos: int)
    requires
        0 <= pos,
    ensures
        1 <= line_of(s, pos) <= pos + 1,
        1 <= col_of(s, pos) <= pos + 1,
    decreases pos,
{
    if pos > 0 {
        lemma_line_col_bounds(s, pos - 1);
    }
}

/// Resolve a position into its 1-based (line, column) pair.
fn as_lines(s: &Vec<char>, pos: usize) -> (r: (usize, usize))
    requires
        pos <= s@.len(),
        s@.len() < usize::MAX,
    ensures
        r.0 == line_of(s@, pos as int),
        r.1 == col_of(s@, pos as int),
{
    let mut line: usize = 1;
    let mut column: usize = 1;
    let mut i: usize = 0;
    while i < pos
        invariant
            i <= pos,
            pos <= s@.len(),
            s@.len() < usize::MAX,
            line == line_of(s@, i as int),
            column == col_of(s@, i as int),
        decreases pos - i,
    {
        proof {
            lemma_line_col_bounds(s@, i as int);
        }
        if s[i] == '\n' {
            line = line + 1;
            column = 1;
        } else {
            column = column + 1;
        }
        i = i + 1;
    }
    (line, column)
}

/// Where a speculative attempt failed: `active` is the cursor position at the
/// failure, `base` the position where the attempt began, and (`line`,
/// `column`) resolve `active` into 1-based human coordinates.
#[derive(Copy, Clone, Debug, PartialEq, Eq)]
pub struct ErrorPosition {
    pub active: usize,
    pub base: usize,
    pub line: usize,
    pub column: usize,
}

impl ErrorPosition {
    /// The attempt began no later than it failed.
    pub open spec fn wf(&self) -> bool {
        self.base <= self.active
    }
}

/// The error position produced by collapsing the top layer of the stack `st`:
/// the discarded position is `active`, the layer below it is `base`.
pub open spec fn collapse_ep(src: Seq<char>, st: Seq<usize>) -> ErrorPosition {
    (ErrorPosition {
        active: st.last(),
        base: if st.len() > 1 {
            st[st.len() - 2]
        } else {
            st.last()
        },
        line: line_of(src, st.last() as int) as usize,
        column: col_of(src, st.last() as int) as usize,
    })
}

/// The stack after a failed attempt: the top layer is discarded, but the root
/// layer is never removed.
pub open spec fn stack_after_err(st: Seq<usize>) -> Seq<usize> {
    if st.len() > 1 {
        st.drop_last()
    } else {
        st
    }
}

/// Stack of virtual cursor positions; always holds at least the root layer,
/// and every layer sits at or past the layer below it.
#[derive(Debug)]
pub struct Cursor(Vec<usize>);

impl View for Cursor {
    type V = Seq<usize>;

    closed spec fn view(&self) -> Seq<usize> {
        self.0@
    }
}

impl Cursor {
    pub open spec fn wf(&self) -> bool {
        &&& self@.len() >= 1
        &&& forall|i: int| 0 <= i < self@.len() - 1 ==> #[trigger] self@[i] <= self@[i + 1]
    }

    pub fn new() -> (r: Self)
        ensures
            r.wf(),
            r@ == seq![0usize],
    {
        let mut layers: Vec<usize> = Vec::new();
        layers.push(0);
        proof {
            assert(layers@ =~= seq![0usize]);
        }
        Cursor(layers)
    }

    /// Add a new active layer, starting at the current position.
    pub fn add(&mut self)
        requires
            old(self).wf(),
        ensures
            final(self).wf(),
            final(self)@ == old(self)@.push(old(self)@.last()),
    {
        let current = self.0[self.0.len() - 1];
        self.0.push(current);
    }

    /// Delete the active layer and move the layer below to its position.
    pub fn merge(&mut self)
        requires
            old(self).wf(),
        ensures
            final(self).wf(),
            old(self)@.len() > 1 ==> final(self)@ == old(self)@.drop_last().update(
                old(self)@.len() - 2,
                old(self)@.last(),
            ),
            old(self)@.len() == 1 ==> final(self)@ == old(self)@,
    {
        if self.0.len() > 1 {
            let current = self.0.pop().unwrap();
            let n = self.0.len();
            self.0[n - 1] = current;
        }
    }

    /// Delete the active layer, discarding its position; the source is needed
    /// so the discarded position can be resolved into (line, column).
    pub fn collapse(&mut self, s: &Vec<char>) -> (r: ErrorPosition)
        requires
            old(self).wf(),
            old(self)@.last() <= s@.len(),
            s@.len() < usize::MAX,
        ensures
            final(self).wf(),
            final(self)@ == stack_after_err(old(self)@),
            r == collapse_ep(s@, old(self)@),
            r.wf(),
    {
        proof {
            lemma_line_col_bounds(s@, old(self)@.last() as int);
        }
        if self.0.len() > 1 {
            let active = self.0.pop().unwrap();
            let base = self.0[self.0.len() - 1];
            let (line, column) = as_lines(s, active);
            ErrorPosition { active, base, line, column }
        } else {
            let active = self.0[0];
            let (line, column) = as_lines(s, active);
            ErrorPosition { active, base: active, line, column }
        }
    }

    /// The position of the active layer.
    pub fn at(&self) -> (r: usize)
        requires
            self.wf(),
        ensures
            r == self@.last(),
    {
        self.0[self.0.len() - 1]
    }

    /// Advance the position of the active layer by one character.
    pub fn inc(&mut self)
        requires
            old(self).wf(),
            old(self)@.last() < usize::MAX,
        ensures
            final(self).wf(),
            final(self)@ == old(self)@.update(old(self)@.len() - 1, (old(self)@.last() + 1) as usize),
    {
        let n = self.0.len();
        let current = self.0[n - 1];
        self.0[n - 1] = current + 1;
    }
}

/// A symbol other than the expected one stood at `position`.
#[derive(Copy, Clone, Debug, PartialEq, Eq)]
pub struct UnexpectedSymbol {
    pub found: char,
    pub expected: Option<char>,
    pub position: ErrorPosition,
}

/// A character-level failure: either an unexpected symbol or the end of the
/// input, each with the position of the failed speculative attempt.
#[derive(Copy, Clone, Debug, PartialEq, Eq)]
pub enum ScanError {
    UnexpectedSymbol(UnexpectedSymbol),
    UnexpectedEndOfInput(ErrorPosition),
}

impl ScanError {
    pub open spec fn position(&self) -> ErrorPosition {
        match self {
            ScanError::UnexpectedSymbol(symbol) => symbol.position,
            ScanError::UnexpectedEndOfInput(position) => *position,
        }
    }

    pub open spec fn wf(&self) -> bool {
        self.position().wf()
    }

    /// How far the failed attempt progressed: the difference between the
    /// position at the failure and the position where the attempt began.
    pub fn failed_after(&self) -> (r: usize)
        requires
            self.wf(),
        ensures
            r == self.position().active - self.position().base,
    {
        let err_pos = match self {
            ScanError::UnexpectedSymbol(symbol) => symbol.position,
            ScanError::UnexpectedEndOfInput(position) => *position,
        };
        err_pos.active - err_pos.base
    }
}

/// What a scan callback asks the scanner to do after seeing the sequence
/// extended by one more character.
#[derive(Copy, Clone, Debug, PartialEq, Eq)]
pub enum Action {
    /// Accept the character and continue; the sequence so far becomes a valid
    /// result if no further character can be accepted.
    Request,
    /// Accept the character and stop with a successful result.
    Return,
    /// Accept the character conditionally: the next character must be the
    /// given one, or the character is handed back and the sequence up to it
    /// is the result.
    Require(char),
}

/// Outcome of a greedy scan: a successful sequence together with the position
/// the cursor ends at, or a failure with the position it occurred at.  On a
/// success after a missed `Require`, `next` is one past the end of `got`
/// because the mismatching character was consumed but handed back.
pub ghost enum ScanOutcome {
    Done { got: Seq<char>, next: int },
    Sym { found: char, at: int },
    Eoi { at: int },
}

/// One step of the scan automaton at position `i`, having accepted `acc`,
/// with a pending `Require` character and whether a result was already
/// requested.  Mirrors exactly what the callback-driven scan consumes.
pub open spec fn scan_rec(
    s: Seq<char>,
    i: int,
    acc: Seq<char>,
    require: Option<char>,
    request: bool,
    model: spec_fn(Seq<char>) -> Option<Action>,
) -> ScanOutcome
    decreases s.len() - i,
{
    if i < 0 || i >= s.len() {
        if request {
            ScanOutcome::Done { got: acc, next: i }
        } else {
            ScanOutcome::Eoi { at: i }
        }
    } else {
        let c = s[i];
        match model(acc.push(c)) {
            Option::None => if request {
                ScanOutcome::Done { got: acc, next: i }
            } else {
                ScanOutcome::Sym { found: c, at: i }
            },
            Option::Some(Action::Request) => scan_rec(s, i + 1, acc.push(c), None, true, model),
            Option::Some(Action::Return) => match require {
                Option::Some(rq) => if c == rq {
                    ScanOutcome::Done { got: acc.push(c), next: i + 1 }
                } else {
                    ScanOutcome::Done { got: acc, next: i + 1 }
                },
                Option::None => ScanOutcome::Done { got: acc.push(c), next: i + 1 },
            },
            Option::Some(Action::Require(rq)) => scan_rec(s, i + 1, acc.push(c), Some(rq), request, model),
        }
    }
}

/// What a scan started at position `i` yields.
pub open spec fn scan_model(
    s: Seq<char>,
    i: int,
    model: spec_fn(Seq<char>) -> Option<Action>,
) -> ScanOutcome {
    scan_rec(s, i, Seq::empty(), None, false, model)
}

/// The stack with the top layer moved to position `at`.
pub open spec fn stack_at(st: Seq<usize>, at: int) -> Seq<usize> {
    st.update(st.len() - 1, at as usize)
}

/// What a completed scan guarantees: how the result and the scanner state
/// after the call relate to the outcome of the scan automaton started on the
/// stack `st`.
pub open spec fn scan_post(
    s: Seq<char>,
    st: Seq<usize>,
    model: spec_fn(Seq<char>) -> Option<Action>,
    post: Scanner,
    r: Result<String, ScanError>,
) -> bool {
    match scan_model(s, st.last() as int, model) {
        ScanOutcome::Done { got, next } => {
            &&& r matches Ok(out) && out@ == got
            &&& post.stack() == stack_at(st, next)
        },
        ScanOutcome::Sym { found, at } => {
            &&& r == Err::<String, ScanError>(ScanError::UnexpectedSymbol(
                (UnexpectedSymbol {
                    found,
                    expected: None,
                    position: collapse_ep(s, stack_at(st, at)),
                }),
            ))
            &&& post.stack() == stack_after_err(stack_at(st, at))
        },
        ScanOutcome::Eoi { at } => {
            &&& r == Err::<String, ScanError>(ScanError::UnexpectedEndOfInput(
                collapse_ep(s, stack_at(st, at)),
            ))
            &&& post.stack() == stack_after_err(stack_at(st, at))
        },
    }
}

/// Lift a per-character callback model to a per-sequence one: only the most
/// recently accepted character is examined.
pub open spec fn lift_model(model: spec_fn(char) -> Option<Action>) -> spec_fn(Seq<char>) -> Option<
    Action,
> {
    |t: Seq<char>| model(t.last())
}

/// The model of a callback that keeps accepting characters while `p` holds of
/// each and rejects the first character that fails it.
pub open spec fn while_model(p: spec_fn(char) -> bool) -> spec_fn(char) -> Option<Action> {
    |c: char|
        if p(c) {
            Some(Action::Request)
        } else {
            None
        }
}

/// The end of the longest run of characters satisfying `p` that starts at `i`.
pub open spec fn run_end(s: Seq<char>, i: int, p: spec_fn(char) -> bool) -> int
    decreases s.len() - i,
{
    if 0 <= i < s.len() && p(s[i]) {
        run_end(s, i + 1, p)
    } else {
        i
    }
}

pub proof fn lemma_run_end(s: Seq<char>, i: int, p: spec_fn(char) -> bool)
    requires
        0 <= i <= s.len(),
    ensures
        i <= run_end(s, i, p) <= s.len(),
        forall|k: int| i <= k < run_end(s, i, p) ==> p(#[trigger] s[k]),
        run_end(s, i, p) < s.len() ==> !p(s[run_end(s, i, p)]),
    decreases s.len() - i,
{
    if i < s.len() && p(s[i]) {
        lemma_run_end(s, i + 1, p);
    }
}

proof fn lemma_scan_while_req(s: Seq<char>, i: int, acc: Seq<char>, p: spec_fn(char) -> bool)
    requires
        0 <= i <= s.len(),
    ensures
        scan_rec(s, i, acc, None, true, lift_model(while_model(p))) == (ScanOutcome::Done {
            got: acc + s.subrange(i, run_end(s, i, p)),
            next: run_end(s, i, p),
        }),
    decreases s.len() - i,
{
    let m = lift_model(while_model(p));
    if i == s.len() {
        assert(acc + s.subrange(i, i) =~= acc);
    } else {
        let c = s[i];
        assert(m(acc.push(c)) == while_model(p)(c));
        if p(c) {
            lemma_run_end(s, i + 1, p);
            lemma_scan_while_req(s, i + 1, acc.push(c), p);
            assert(acc.push(c) + s.subrange(i + 1, run_end(s, i + 1, p)) =~= acc + s.subrange(
                i,
                run_end(s, i, p),
            ));
        } else {
            assert(acc + s.subrange(i, i) =~= acc);
        }
    }
}

/// What a scan with a keep-while-`p` callback yields: the longest run of
/// characters satisfying `p`, or a failure on the very first character.
pub proof fn lemma_scan_while(s: Seq<char>, i: int, p: spec_fn(char) -> bool)
    requires
        0 <= i <= s.len(),
    ensures
        i < s.len() && p(s[i]) ==> scan_model(s, i, lift_model(while_model(p)))
            == (ScanOutcome::Done {
            got: s.subrange(i, run_end(s, i, p)),
            next: run_end(s, i, p),
        }),
        i < s.len() && !p(s[i]) ==> scan_model(s, i, lift_model(while_model(p)))
            == (ScanOutcome::Sym { found: s[i], at: i }),
        i == s.len() ==> scan_model(s, i, lift_model(while_model(p))) == (ScanOutcome::Eoi {
            at: i,
        }),
{
    let m = lift_model(while_model(p));
    if i < s.len() {
        let c = s[i];
        assert(m(Seq::<char>::empty().push(c)) == while_model(p)(c));
        if p(c) {
            lemma_run_end(s, i + 1, p);
            lemma_scan_while_req(s, i + 1, Seq::<char>::empty().push(c), p);
            assert(Seq::<char>::empty().push(c) + s.subrange(i + 1, run_end(s, i + 1, p))
                =~= s.subrange(i, run_end(s, i, p)));
        }
    }
}

/// Owner of the source characters and the cursor stack that drives one parse.
pub struct Scanner {
    cursor: Cursor,
    chars: Vec<char>,
    text: String,
}

impl Scanner {
    /// The source as a sequence of characters.
    pub closed spec fn src(&self) -> Seq<char> {
        self.chars@
    }

    /// The cursor stack, bottom first.
    pub closed spec fn stack(&self) -> Seq<usize> {
        self.cursor@
    }

    /// The position of the active cursor layer.
    pub open spec fn pos(&self) -> int {
        self.stack().last() as int
    }

    /// How many cursor layers are open.
    pub open spec fn depth(&self) -> int {
        self.stack().len() as int
    }

    pub closed spec fn text_inv(&self) -> bool {
        self.text@ == self.chars@
    }

    pub closed spec fn wf(&self) -> bool {
        &&& self.stack().len() >= 1
        &&& (forall|i: int|
            0 <= i < self.stack().len() - 1 ==> #[trigger] self.stack()[i] <= self.stack()[i + 1])
        &&& (forall|i: int| 0 <= i < self.stack().len() ==> #[trigger] self.stack()[i] <= self.src().len())
        &&& self.src().len() < usize::MAX
        &&& self.text_inv()
    }

    /// What well-formedness guarantees about the cursor stack: at least the
    /// root layer, every layer within the source, and each layer at or past
    /// the one below it.
    pub proof fn lemma_wf_bounds(&self)
        requires
            self.wf(),
        ensures
            self.stack().len() >= 1,
            self.src().len() < usize::MAX,
            0 <= self.pos() <= self.src().len(),
            forall|k: int| 0 <= k < self.stack().len() ==> #[trigger] self.stack()[k] <= self.src().len(),
            forall|k: int|
                0 <= k < self.stack().len() - 1 ==> #[trigger] self.stack()[k] <= self.stack()[k + 1],
    {
    }

    pub fn new(s: &str) -> (r: Self)
        requires
            s@.len() < usize::MAX,
        ensures
            r.wf(),
            r.src() == s@,
            r.stack() == seq![0usize],
    {
        let n = s.unicode_len();
        let mut chars: Vec<char> = Vec::new();
        let mut i: usize = 0;
        while i < n
            invariant
                i <= n,
                n == s@.len(),
                chars@ == s@.subrange(0, i as int),
            decreases n - i,
        {
            chars.push(s.get_char(i));
            proof {
                assert(chars@ =~= s@.subrange(0, i + 1));
            }
            i = i + 1;
        }
        proof {
            assert(chars@ =~= s@);
        }
        Scanner { cursor: Cursor::new(), chars, text: String::from_str(s) }
    }

    /// Whether the active layer has consumed the whole source.
    pub fn at_end(&self) -> (r: bool)
        requires
            self.wf(),
        ensures
            r == (self.pos() == self.src().len()),
    {
        self.cursor.at() == self.chars.len()
    }

    /// Start a speculative attempt: push a new cursor layer.
    pub fn begin(&mut self)
        requires
            old(self).wf(),
        ensures
            final(self).wf(),
            final(self).src() == old(self).src(),
            final(self).stack() == old(self).stack().push(old(self).stack().last()),
    {
        self.cursor.add();
    }

    /// Abandon the current speculative attempt, restoring the position the
    /// attempt began at.
    pub fn abort(&mut self)
        requires
            old(self).wf(),
        ensures
            final(self).wf(),
            final(self).src() == old(self).src(),
            final(self).stack() == stack_after_err(old(self).stack()),
    {
        self.cursor.collapse(&self.chars);
    }

    /// Finish the current speculative attempt, keeping its advancement.
    pub fn commit(&mut self)
        requires
            old(self).wf(),
        ensures
            final(self).wf(),
            final(self).src() == old(self).src(),
            old(self).depth() > 1 ==> final(self).stack() == old(self).stack().drop_last().update(
                old(self).stack().len() - 2,
                old(self).stack().last(),
            ),
            old(self).depth() == 1 ==> final(self).stack() == old(self).stack(),
    {
        self.cursor.merge();
    }

    /// The character at the current position, if any.
    pub fn current_char(&self) -> (r: Option<char>)
        requires
            self.wf(),
        ensures
            r == (if self.pos() < self.src().len() {
                Some(self.src()[self.pos()])
            } else {
                None::<char>
            }),
    {
        let at = self.cursor.at();
        if at < self.chars.len() {
            Some(self.chars[at])
        } else {
            None
        }
    }

    /// Whether the character one past the current position equals `expected`.
    pub fn peek(&self, expected: char) -> (r: bool)
        requires
            self.wf(),
        ensures
            r == (self.pos() + 1 < self.src().len() && self.src()[self.pos() + 1] == expected),
    {
        let at = self.cursor.at();
        if at + 1 < self.chars.len() {
            self.chars[at + 1] == expected
        } else {
            false
        }
    }

    /// Greedily consume characters: the candidate sequence is extended one
    /// character at a time and `callback` classifies each extended candidate.
    /// `model` is the pure description of the callback's answers; the result
    /// is exactly what the scan automaton [`scan_model`] yields.
    #[verifier::loop_isolation(false)]
    #[verifier::rlimit(50)]
    pub fn scan_str<F: Fn(&str) -> Option<Action>>(
        &mut self,
        callback: F,
        Ghost(model): Ghost<spec_fn(Seq<char>) -> Option<Action>>,
    ) -> (r: Result<String, ScanError>)
        requires
            old(self).wf(),
            forall|t: &str| t@.len() >= 1 ==> #[trigger] callback.requires((t,)),
            forall|t: &str, a: Option<Action>|
                #[trigger] callback.ensures((t,), a) ==> a == model(t@),
        ensures
            final(self).wf(),
            final(self).src() == old(self).src(),
            scan_post(old(self).src(), old(self).stack(), model, *final(self), r),
    {
        let ghost s = self.src();
        let ghost st0 = self.stack();
        let start = self.cursor.at();
        let mut require: Option<char> = None;
        let mut request: bool = false;
        proof {
            assert(s.subrange(start as int, start as int) =~= Seq::<char>::empty());
            assert(self.stack() =~= stack_at(st0, start as int));
        }
        loop
            invariant
                self.wf(),
                self.src() == s,
                self.stack().len() == st0.len(),
                self.stack() == stack_at(st0, self.pos()),
                start as int == st0.last() as int,
                start <= self.pos() <= s.len(),
                scan_rec(s, self.pos(), s.subrange(start as int, self.pos()), require, request, model)
                    == scan_model(s, start as int, model),
            decreases s.len() - self.pos(),
        {
            let i = self.cursor.at();
            match self.current_char() {
                Some(target) => {
                    proof {
                        assert(s.subrange(start as int, i as int).push(s[i as int]) =~= s.subrange(
                            start as int,
                            i + 1,
                        ));
                    }
                    let cand: &str = self.text.as_str().substring_char(start, i + 1);
                    let action = callback(cand);
                    match action {
                        None => {
                            if request {
                                let got = self.text.as_str().substring_char(start, i);
                                return Ok(String::from_str(got));
                            } else {
                                let symbol = UnexpectedSymbol {
                                    found: target,
                                    expected: None,
                                    position: self.cursor.collapse(&self.chars),
                                };
                                return Err(ScanError::UnexpectedSymbol(symbol));
                            }
                        },
                        Some(Action::Request) => {
                            self.cursor.inc();
                            proof {
                                assert(self.stack() =~= stack_at(st0, i + 1));
                            }
                            require = None;
                            request = true;
                        },
                        Some(Action::Return) => {
                            self.cursor.inc();
                            proof {
                                assert(self.stack() =~= stack_at(st0, i + 1));
                            }
                            match require {
                                Some(rq) => {
                                    if target == rq {
                                        let got = self.text.as_str().substring_char(start, i + 1);
                                        return Ok(String::from_str(got));
                                    } else {
                                        let got = self.text.as_str().substring_char(start, i);
                                        return Ok(String::from_str(got));
                                    }
                                },
                                None => {
                                    let got = self.text.as_str().substring_char(start, i + 1);
                                    return Ok(String::from_str(got));
                                },
                            }
                        },
                        Some(Action::Require(rq)) => {
                            self.cursor.inc();
                            proof {
                                assert(self.stack() =~= stack_at(st0, i + 1));
                            }
                            require = Some(rq);
                        },
                    }
                },
                None => {
                    if request {
                        let got = self.text.as_str().substring_char(start, i);
                        return Ok(String::from_str(got));
                    } else {
                        return Err(ScanError::UnexpectedEndOfInput(self.cursor.collapse(&self.chars)));
                    }
                },
            }
        }
    }

    /// Greedily consume characters, letting `callback` classify each newly
    /// seen character on its own; `model` is the pure description of the
    /// callback's answers.
    pub fn scan<F: Fn(char) -> Option<Action>>(
        &mut self,
        callback: F,
        Ghost(model): Ghost<spec_fn(char) -> Option<Action>>,
    ) -> (r: Result<String, ScanError>)
        requires
            old(self).wf(),
            forall|c: char| #[trigger] callback.requires((c,)),
            forall|c: char, a: Option<Action>| #[trigger] callback.ensures((c,), a) ==> a == model(c),
        ensures
            final(self).wf(),
            final(self).src() == old(self).src(),
            scan_post(old(self).src(), old(self).stack(), lift_model(model), *final(self), r),
    {
        let lifted: Ghost<spec_fn(Seq<char>) -> Option<Action>> = Ghost(lift_model(model));
        let wrapper = |t: &str| -> (a: Option<Action>)
            requires
                t@.len() >= 1,
            ensures
                a == lifted@(t@),
            {
                let n = t.unicode_len();
                callback(t.get_char(n - 1))
            };
        self.scan_str(wrapper, lifted)
    }

    /// Consume exactly the given terminal character; on failure the current
    /// speculative layer is collapsed and the failure carries its position.
    pub fn take(&mut self, terminal: Terminals) -> (r: Result<(), ScanError>)
        requires
            old(self).wf(),
        ensures
            final(self).wf(),
            final(self).src() == old(self).src(),
            ({
                let s = old(self).src();
                let st = old(self).stack();
                let p = old(self).pos();
                if p < s.len() && s[p] == terminal.spec_char() {
                    &&& r == Ok::<(), ScanError>(())
                    &&& final(self).stack() == st.update(st.len() - 1, (st.last() + 1) as usize)
                } else if p < s.len() {
                    &&& r == Err::<(), ScanError>(ScanError::UnexpectedSymbol(
                        (UnexpectedSymbol {
                            found: s[p],
                            expected: None,
                            position: collapse_ep(s, st),
                        }),
                    ))
                    &&& final(self).stack() == stack_after_err(st)
                } else {
                    &&& r == Err::<(), ScanError>(ScanError::UnexpectedEndOfInput(collapse_ep(s, st)))
                    &&& final(self).stack() == stack_after_err(st)
                }
            }),
    {
        match self.current_char() {
            Some(character) => {
                if terminal.as_char() == character {
                    self.cursor.inc();
                    Ok(())
                } else {
                    let symbol = UnexpectedSymbol {
                        found: character,
                        expected: None,
                        position: self.cursor.collapse(&self.chars),
                    };
                    Err(ScanError::UnexpectedSymbol(symbol))
                }
            },
            None => Err(ScanError::UnexpectedEndOfInput(self.cursor.collapse(&self.chars))),
        }
    }
}

} // verus!
