//! The token data model: the [`ContentToken`] tree a template parses into,
//! the [`ContentTokens`] document, and the [`ContentMap`] of replacement
//! values, together with the resolution (`fill_out`) and draft-derivation
//! algorithms that walk the tree.
use vstd::prelude::*;
use vstd::string::*;

use crate::parse::UserError;

verus! {

/// An identifier of a substitution: ASCII letters and digits.
#[derive(Clone, Debug, PartialEq, Eq, Hash)]
pub struct Ident(String);

impl View for Ident {
    type V = Seq<char>;

    closed spec fn view(&self) -> Seq<char> {
        self.0@
    }
}

impl Ident {
    pub fn new(s: &str) -> (r: Self)
        ensures
            r@ == s@,
    {
        Ident(String::from_str(s))
    }

    pub fn as_str(&self) -> (r: &str)
        ensures
            r@ == self@,
    {
        self.0.as_str()
    }
}

/// One node of a parsed template: literal text, a `{key}` with an optional
/// nested default, a `$Constant`, or an `${Option}` wrapping a key.
#[derive(Debug, PartialEq)]
pub enum ContentToken {
    Text(String),
    Key(Ident, Option<Box<ContentToken>>),
    Constant(Ident),
    Option(Box<ContentToken>),
}

/// Mathematical value of a [`ContentToken`] tree.
pub ghost enum Tok {
    Text { text: Seq<char> },
    Key { id: Seq<char>, default: Option<Box<Tok>> },
    Constant { id: Seq<char> },
    Opt { key: Box<Tok> },
}

/// The mathematical value of a token tree.
pub open spec fn tok_view(t: ContentToken) -> Tok
    decreases t,
{
    match t {
        ContentToken::Text(s) => Tok::Text { text: s@ },
        ContentToken::Key(id, d) => Tok::Key {
            id: id@,
            default: match d {
                Some(b) => Some(Box::new(tok_view(*b))),
                None => None,
            },
        },
        ContentToken::Constant(id) => Tok::Constant { id: id@ },
        ContentToken::Option(b) => Tok::Opt { key: Box::new(tok_view(*b)) },
    }
}

/// The mathematical value of a token sequence.
pub open spec fn toks_view(ts: Seq<ContentToken>) -> Seq<Tok> {
    ts.map_values(|t: ContentToken| tok_view(t))
}

/// The kind of a substitution a value is supplied for.
#[derive(Copy, Clone, Debug, PartialEq, Eq, Hash, Structural)]
pub enum Token {
    Key,
    Constant,
    Option,
}

/// The composite lookup key of a replacement value: the same textual name may
/// appear both as a `{key}` and as a `$Constant` and must resolve separately.
#[derive(Clone, Debug, PartialEq, Eq, Hash)]
pub struct TokenIdent(String, Token);

impl View for TokenIdent {
    type V = (Seq<char>, Token);

    closed spec fn view(&self) -> (Seq<char>, Token) {
        (self.0@, self.1)
    }
}

impl TokenIdent {
    pub fn new(ident: &str, token: Token) -> (r: Self)
        ensures
            r@ == (ident@, token),
    {
        TokenIdent(String::from_str(ident), token)
    }

    /// The textual name of the identifier.
    pub fn name(&self) -> (r: &String)
        ensures
            r@ == self@.0,
    {
        &self.0
    }

    /// The kind of substitution the identifier belongs to.
    pub fn kind(&self) -> (r: Token)
        ensures
            r == self@.1,
    {
        self.1
    }
}

/// Compares two lookup keys by name and kind.
fn token_ident_eq(a: &TokenIdent, b: &TokenIdent) -> (r: bool)
    ensures
        r == (a@ == b@),
{
    let kind_eq = a.1 == b.1;
    let name_eq = a.0 == b.0;
    kind_eq && name_eq
}

/// The mapping a sequence of (key, value) entries stands for; a later entry
/// with the same key overrides an earlier one.
pub open spec fn entries_map(s: Seq<(TokenIdent, String)>) -> Map<(Seq<char>, Token), Seq<char>>
    decreases s.len(),
{
    if s.len() == 0 {
        Map::empty()
    } else {
        entries_map(s.drop_last()).insert(s.last().0@, s.last().1@)
    }
}

proof fn lemma_entries_map_no_key(s: Seq<(TokenIdent, String)>, k: (Seq<char>, Token))
    requires
        forall|i: int| 0 <= i < s.len() ==> (#[trigger] s[i]).0@ != k,
    ensures
        !entries_map(s).contains_key(k),
    decreases s.len(),
{
    if s.len() > 0 {
        assert(s.last().0@ != k);
        lemma_entries_map_no_key(s.drop_last(), k);
    }
}

proof fn lemma_entries_map_at(s: Seq<(TokenIdent, String)>, k: (Seq<char>, Token), i: int)
    requires
        0 <= i < s.len(),
        s[i].0@ == k,
        forall|l: int| i < l < s.len() ==> (#[trigger] s[l]).0@ != k,
    ensures
        entries_map(s).contains_key(k),
        entries_map(s)[k] == s[i].1@,
    decreases s.len(),
{
    if i < s.len() - 1 {
        lemma_entries_map_at(s.drop_last(), k, i);
    }
}

/// A mapping from substitution identifiers to the replacement text each one
/// resolves to; later inserts override earlier ones.
#[derive(Clone, Debug, PartialEq)]
pub struct ContentMap(Vec<(TokenIdent, String)>);

impl View for ContentMap {
    type V = Map<(Seq<char>, Token), Seq<char>>;

    closed spec fn view(&self) -> Map<(Seq<char>, Token), Seq<char>> {
        entries_map(self.0@)
    }
}

impl ContentMap {
    pub fn new() -> (r: Self)
        ensures
            r@ == Map::<(Seq<char>, Token), Seq<char>>::empty(),
    {
        ContentMap(Vec::new())
    }

    pub fn insert(&mut self, token: TokenIdent, content: String)
        ensures
            final(self)@ == old(self)@.insert(token@, content@),
    {
        self.0.push((token, content));
        proof {
            assert(self.0@.drop_last() =~= old(self).0@);
        }
    }

    /// The entries in insertion order; a later entry with the same key
    /// overrides an earlier one.
    pub fn entries(&self) -> (r: &Vec<(TokenIdent, String)>)
        ensures
            entries_map(r@) == self@,
    {
        &self.0
    }

    pub fn get(&self, token: TokenIdent) -> (r: Option<&String>)
        ensures
            match r {
                Some(v) => self@.contains_key(token@) && v@ == self@[token@],
                None => !self@.contains_key(token@),
            },
    {
        let ghost k = token@;
        let mut i = self.0.len();
        while i > 0
            invariant
                i <= self.0.len(),
                forall|l: int| i <= l < self.0@.len() ==> (#[trigger] self.0@[l]).0@ != k,
                k == token@,
            decreases i,
        {
            i = i - 1;
            if token_ident_eq(&self.0[i].0, &token) {
                proof {
                    lemma_entries_map_at(self.0@, k, i as int);
                }
                return Some(&self.0[i].1);
            }
        }
        proof {
            lemma_entries_map_no_key(self.0@, k);
        }
        None
    }
}

/// Mathematical value of a [`FillOutError`].
pub ghost enum FillErr {
    MissingConstant { id: Seq<char> },
    MissingKey { id: Seq<char> },
}

/// Resolution failed: the value map lacks an entry the template requires.
/// Fatal — the caller must supply the missing entry and resolve again.
#[derive(Debug, PartialEq, Eq)]
pub enum FillOutError {
    MissingConstant(Ident),
    MissingKey(Ident),
}

impl View for FillOutError {
    type V = FillErr;

    open spec fn view(&self) -> FillErr {
        match self {
            FillOutError::MissingConstant(id) => FillErr::MissingConstant { id: id@ },
            FillOutError::MissingKey(id) => FillErr::MissingKey { id: id@ },
        }
    }
}

/// The textual rendering of a resolution failure.
pub open spec fn spec_fill_err_msg(e: FillErr) -> Seq<char> {
    match e {
        FillErr::MissingConstant { id } => "The given content is missing a constant with the name "@
            + id,
        FillErr::MissingKey { id } => "The given content is missing a key with the name "@ + id,
    }
}

impl FillOutError {
    /// The human-readable rendering of this failure.
    pub fn message(&self) -> (r: String)
        ensures
            r@ == spec_fill_err_msg(self@),
    {
        let mut out = String::new();
        match self {
            FillOutError::MissingConstant(id) => {
                out.append("The given content is missing a constant with the name ");
                out.append(id.as_str());
            },
            FillOutError::MissingKey(id) => {
                out.append("The given content is missing a key with the name ");
                out.append(id.as_str());
            },
        }
        out
    }
}

/// What resolving one token against the map `m` yields: the replacement text,
/// or the first missing identifier.
pub open spec fn spec_fill_token(t: Tok, m: Map<(Seq<char>, Token), Seq<char>>) -> Result<
    Seq<char>,
    FillErr,
>
    decreases t,
{
    match t {
        Tok::Text { text } => Ok(text),
        Tok::Constant { id } => if m.contains_key((id, Token::Constant)) {
            Ok(m[(id, Token::Constant)])
        } else {
            Err(FillErr::MissingConstant { id })
        },
        Tok::Key { id, default } => if m.contains_key((id, Token::Key)) {
            Ok(m[(id, Token::Key)])
        } else {
            match default {
                Some(d) => spec_fill_token(*d, m),
                None => Err(FillErr::MissingKey { id }),
            }
        },
        Tok::Opt { key } => spec_fill_token(*key, m),
    }
}

/// What resolving a token sequence in order yields: the concatenation of the
/// tokens' replacements, or the first failure.
pub open spec fn spec_fill(ts: Seq<Tok>, m: Map<(Seq<char>, Token), Seq<char>>) -> Result<
    Seq<char>,
    FillErr,
>
    decreases ts.len(),
{
    if ts.len() == 0 {
        Ok(Seq::empty())
    } else {
        match spec_fill_token(ts[0], m) {
            Ok(out0) => match spec_fill(ts.drop_first(), m) {
                Ok(rest) => Ok(out0 + rest),
                Err(e) => Err(e),
            },
            Err(e) => Err(e),
        }
    }
}

/// The map `m` after drafting one token: an empty-string placeholder is added
/// for the token's identifier and for every identifier in nested defaults;
/// literal text adds nothing.
pub open spec fn spec_draft_token(t: Tok, m: Map<(Seq<char>, Token), Seq<char>>) -> Map<
    (Seq<char>, Token),
    Seq<char>,
>
    decreases t,
{
    match t {
        Tok::Text { .. } => m,
        Tok::Constant { id } => m.insert((id, Token::Constant), Seq::empty()),
        Tok::Key { id, default } => {
            let m2 = m.insert((id, Token::Key), Seq::empty());
            match default {
                Some(d) => spec_draft_token(*d, m2),
                None => m2,
            }
        },
        Tok::Opt { key } => spec_draft_token(*key, m),
    }
}

/// The map `m` after drafting a token sequence in order.
pub open spec fn spec_draft(ts: Seq<Tok>, m: Map<(Seq<char>, Token), Seq<char>>) -> Map<
    (Seq<char>, Token),
    Seq<char>,
>
    decreases ts.len(),
{
    if ts.len() == 0 {
        m
    } else {
        spec_draft(ts.drop_first(), spec_draft_token(ts[0], m))
    }
}

/// Resolve one token against the map, appending the replacement to `output`.
fn fill_out_token(token: &ContentToken, content: &ContentMap, output: &mut String) -> (r: Result<
    (),
    FillOutError,
>)
    ensures
        match spec_fill_token(tok_view(*token), content@) {
            Ok(o) => r is Ok && final(output)@ == old(output)@ + o,
            Err(e) => r matches Err(er) && er@ == e,
        },
    decreases *token,
{
    match token {
        ContentToken::Text(text) => {
            output.append(text.as_str());
            Ok(())
        },
        ContentToken::Constant(ident) => {
            match content.get(TokenIdent::new(ident.as_str(), Token::Constant)) {
                Some(value) => {
                    output.append(value.as_str());
                    Ok(())
                },
                None => Err(FillOutError::MissingConstant(Ident::new(ident.as_str()))),
            }
        },
        ContentToken::Key(ident, default_box) => {
            match content.get(TokenIdent::new(ident.as_str(), Token::Key)) {
                Some(value) => {
                    output.append(value.as_str());
                    Ok(())
                },
                None => match default_box {
                    Some(default_token) => fill_out_token(default_token, content, output),
                    None => Err(FillOutError::MissingKey(Ident::new(ident.as_str()))),
                },
            }
        },
        ContentToken::Option(key_box) => fill_out_token(key_box, content, output),
    }
}

/// Every identifier a token requires a value for, nested defaults included;
/// literal text requires none.
pub open spec fn tok_idents(t: Tok) -> Set<(Seq<char>, Token)>
    decreases t,
{
    match t {
        Tok::Text { .. } => Set::empty(),
        Tok::Constant { id } => Set::empty().insert((id, Token::Constant)),
        Tok::Key { id, default } => {
            let base = Set::<(Seq<char>, Token)>::empty().insert((id, Token::Key));
            match default {
                Some(d) => base.union(tok_idents(*d)),
                None => base,
            }
        },
        Tok::Opt { key } => tok_idents(*key),
    }
}

/// Every identifier a token sequence requires a value for.
pub open spec fn toks_idents(ts: Seq<Tok>) -> Set<(Seq<char>, Token)>
    decreases ts.len(),
{
    if ts.len() == 0 {
        Set::empty()
    } else {
        tok_idents(ts[0]).union(toks_idents(ts.drop_first()))
    }
}

/// Drafting one token adds placeholders for exactly the identifiers the token
/// requires, and drops none that were already there.
pub proof fn lemma_draft_token_domain(t: Tok, m: Map<(Seq<char>, Token), Seq<char>>)
    ensures
        spec_draft_token(t, m).dom() == m.dom().union(tok_idents(t)),
    decreases t,
{
    match t {
        Tok::Text { .. } => {
            assert(spec_draft_token(t, m).dom() =~= m.dom().union(tok_idents(t)));
        },
        Tok::Constant { id } => {
            assert(spec_draft_token(t, m).dom() =~= m.dom().union(tok_idents(t)));
        },
        Tok::Key { id, default } => {
            let m2 = m.insert((id, Token::Key), Seq::empty());
            match default {
                Some(d) => {
                    lemma_draft_token_domain(*d, m2);
                    assert(m2.dom().union(tok_idents(*d)) =~= m.dom().union(tok_idents(t)));
                },
                None => {
                    assert(m2.dom() =~= m.dom().union(tok_idents(t)));
                },
            }
        },
        Tok::Opt { key } => {
            lemma_draft_token_domain(*key, m);
        },
    }
}

/// Drafting a token sequence adds placeholders for exactly the identifiers
/// the sequence requires — nested defaults surface too — and keeps every
/// entry the map already had.
pub proof fn lemma_draft_domain(ts: Seq<Tok>, m: Map<(Seq<char>, Token), Seq<char>>)
    ensures
        spec_draft(ts, m).dom() == m.dom().union(toks_idents(ts)),
    decreases ts.len(),
{
    if ts.len() == 0 {
        assert(spec_draft(ts, m).dom() =~= m.dom().union(toks_idents(ts)));
    } else {
        lemma_draft_token_domain(ts[0], m);
        lemma_draft_domain(ts.drop_first(), spec_draft_token(ts[0], m));
        assert(spec_draft_token(ts[0], m).dom().union(toks_idents(ts.drop_first())) =~= m.dom().union(
            toks_idents(ts),
        ));
    }
}

/// A token resolves whenever the map covers every identifier it requires.
pub proof fn lemma_fill_token_ok(t: Tok, m: Map<(Seq<char>, Token), Seq<char>>)
    requires
        tok_idents(t).subset_of(m.dom()),
    ensures
        spec_fill_token(t, m) is Ok,
    decreases t,
{
    match t {
        Tok::Text { .. } => {},
        Tok::Constant { id } => {
            assert(tok_idents(t).contains((id, Token::Constant)));
        },
        Tok::Key { id, default } => {
            assert(tok_idents(t).contains((id, Token::Key)));
        },
        Tok::Opt { key } => {
            lemma_fill_token_ok(*key, m);
        },
    }
}

/// A token sequence resolves whenever the map covers every identifier it
/// requires.
pub proof fn lemma_fill_ok(ts: Seq<Tok>, m: Map<(Seq<char>, Token), Seq<char>>)
    requires
        toks_idents(ts).subset_of(m.dom()),
    ensures
        spec_fill(ts, m) is Ok,
    decreases ts.len(),
{
    if ts.len() > 0 {
        assert(tok_idents(ts[0]).subset_of(m.dom()));
        lemma_fill_token_ok(ts[0], m);
        assert(toks_idents(ts.drop_first()).subset_of(m.dom()));
        lemma_fill_ok(ts.drop_first(), m);
    }
}

/// The round trip of drafting and filling out: a map that holds a value for
/// every placeholder the draft enumerates — the draft itself, or the draft
/// with every placeholder overwritten — resolves the token sequence without
/// a missing identifier.
pub proof fn lemma_fill_out_after_draft(ts: Seq<Tok>, m: Map<(Seq<char>, Token), Seq<char>>)
    requires
        spec_draft(ts, Map::<(Seq<char>, Token), Seq<char>>::empty()).dom().subset_of(m.dom()),
    ensures
        spec_fill(ts, m) is Ok,
{
    lemma_draft_domain(ts, Map::empty());
    assert(toks_idents(ts).subset_of(m.dom()));
    lemma_fill_ok(ts, m);
}

/// The locale-tag type of the `unic_locale` crate, opaque to the library: the
/// document carries a value of it, and only the trusted wrappers below ever
/// look inside one.
#[verifier::external_type_specification]
#[verifier::external_body]
pub struct ExLocale(unic_locale::Locale);

/// Whether the characters form a well-formed Unicode language identifier, as
/// decided by `unic_locale`'s re-exported `LanguageIdentifier` parser — a
/// pure function of the characters.  The library validates a locale line as a
/// bare language identifier: `unic_locale`'s full `Locale` parser aborts the
/// process on many ill-formed extension subtags (an `unimplemented!()` in its
/// extensions reader), so a tag carrying extensions counts as no locale line.
pub uninterp spec fn locale_ok(s: Seq<char>) -> bool;

/// The locale value the validator yields for an accepted tag — a pure
/// function of the tag's characters, shared by the fallback locale and a
/// parsed locale line.
pub uninterp spec fn locale_of(s: Seq<char>) -> unic_locale::Locale;

/// Relies on `unic_locale::LanguageIdentifier`'s `FromStr` (a pure parser
/// over the input characters, which returns an error rather than panicking on
/// every ill-formed input) to decide validity, and on
/// `unic_locale::Locale::from` (plain wrapping of the identifier with no
/// extensions) for the returned value.
#[verifier::external_body]
pub(crate) fn parse_locale(s: &str) -> (r: Option<unic_locale::Locale>)
    ensures
        r is Some <==> locale_ok(s@),
        r matches Some(found) ==> found == locale_of(s@),
{
    match s.parse::<unic_locale::LanguageIdentifier>() {
        Ok(id) => Some(unic_locale::Locale::from(id)),
        Err(_) => None,
    }
}

/// Relies on `unic_locale::LanguageIdentifier`'s `FromStr`: `en-US` (language
/// `en`, region `US`) is a well-formed language identifier, so the fallback
/// locale a document gets when its template names none always exists; and on
/// `unic_locale::Locale::from` to wrap it.
#[verifier::external_body]
pub(crate) fn default_locale() -> (r: unic_locale::Locale)
    ensures
        r == locale_of("en-US"@),
{
    let id = "en-US".parse::<unic_locale::LanguageIdentifier>().unwrap();
    unic_locale::Locale::from(id)
}

/// The parsed document: the tokens in order of appearance, the locale the
/// template names (or the fallback), and the non-fatal diagnostics collected
/// while parsing.
#[derive(Debug)]
pub struct ContentTokens {
    tokens: Vec<ContentToken>,
    locale: unic_locale::Locale,
    friendly_errors: Vec<UserError>,
}

impl ContentTokens {
    /// The mathematical value of the token sequence.
    pub closed spec fn toks(&self) -> Seq<Tok> {
        toks_view(self.tokens@)
    }

    /// The locale the document carries.
    pub closed spec fn locale_val(&self) -> unic_locale::Locale {
        self.locale
    }

    /// The non-fatal diagnostics, in the order they were recorded.
    pub closed spec fn friendly(&self) -> Seq<crate::parse::UErrView> {
        self.friendly_errors@.map_values(|e: UserError| e@)
    }

    /// An empty document with the fallback locale.
    pub fn new() -> (r: Self)
        ensures
            r.toks() == Seq::<Tok>::empty(),
            r.friendly() == Seq::<crate::parse::UErrView>::empty(),
            r.locale_val() == locale_of("en-US"@),
    {
        let r = ContentTokens {
            tokens: Vec::new(),
            locale: default_locale(),
            friendly_errors: Vec::new(),
        };
        proof {
            assert(r.toks() =~= Seq::<Tok>::empty());
            assert(r.friendly() =~= Seq::<crate::parse::UErrView>::empty());
        }
        r
    }

    /// An empty document with the given locale.
    pub fn from(locale: unic_locale::Locale) -> (r: Self)
        ensures
            r.toks() == Seq::<Tok>::empty(),
            r.friendly() == Seq::<crate::parse::UErrView>::empty(),
            r.locale_val() == locale,
    {
        let r = ContentTokens { tokens: Vec::new(), locale, friendly_errors: Vec::new() };
        proof {
            assert(r.toks() =~= Seq::<Tok>::empty());
            assert(r.friendly() =~= Seq::<crate::parse::UErrView>::empty());
        }
        r
    }

    /// Record a non-fatal diagnostic.
    pub fn add_friendly(&mut self, e: UserError)
        ensures
            final(self).toks() == old(self).toks(),
            final(self).locale_val() == old(self).locale_val(),
            final(self).friendly() == old(self).friendly().push(e@),
    {
        let ghost ev = e@;
        self.friendly_errors.push(e);
        proof {
            assert(self.friendly() =~= old(self).friendly().push(ev));
        }
    }

    /// Append a token to the document.
    pub fn push(&mut self, token: ContentToken)
        ensures
            final(self).toks() == old(self).toks().push(tok_view(token)),
            final(self).locale_val() == old(self).locale_val(),
            final(self).friendly() == old(self).friendly(),
    {
        let ghost tv = tok_view(token);
        self.tokens.push(token);
        proof {
            assert(self.toks() =~= old(self).toks().push(tv));
        }
    }

    /// How many tokens the document holds.
    pub fn len(&self) -> (r: usize)
        ensures
            r == self.toks().len(),
    {
        self.tokens.len()
    }

    /// The tokens, borrowed.
    pub fn tokens_ref(&self) -> (r: &Vec<ContentToken>)
        ensures
            toks_view(r@) == self.toks(),
    {
        &self.tokens
    }

    /// The tokens, owned.
    pub fn into_tokens(self) -> (r: Vec<ContentToken>)
        ensures
            toks_view(r@) == self.toks(),
    {
        self.tokens
    }

    /// The locale, borrowed.
    pub fn locale_ref(&self) -> (r: &unic_locale::Locale)
        ensures
            *r == self.locale_val(),
    {
        &self.locale
    }

    /// Resolve the document against the value map: substitute every token in
    /// order, or fail with the first missing identifier.
    #[verifier::loop_isolation(false)]
    pub fn fill_out(self, content: ContentMap) -> (r: Result<String, FillOutError>)
        ensures
            match spec_fill(self.toks(), content@) {
                Ok(o) => r matches Ok(out) && out@ == o,
                Err(e) => r matches Err(er) && er@ == e,
            },
    {
        let ghost toks = self.toks();
        let ghost m = content@;
        let mut output = String::new();
        let tokens = self.into_tokens();
        let n = tokens.len();
        let mut idx: usize = 0;
        proof {
            assert(toks.skip(0) =~= toks);
            assert(Seq::<char>::empty() + spec_fill(toks, m)->Ok_0 =~= spec_fill(toks, m)->Ok_0);
        }
        while idx < n
            invariant
                idx <= n,
                n == tokens.len(),
                toks == toks_view(tokens@),
                m == content@,
                match spec_fill(toks.skip(idx as int), m) {
                    Ok(b) => spec_fill(toks, m) == Ok::<Seq<char>, FillErr>(output@ + b),
                    Err(e) => spec_fill(toks, m) == Err::<Seq<char>, FillErr>(e),
                },
            decreases n - idx,
        {
            proof {
                assert(toks[idx as int] == tok_view(tokens@[idx as int]));
                assert(toks.skip(idx as int)[0] == toks[idx as int]);
                assert(toks.skip(idx as int).drop_first() =~= toks.skip(idx as int + 1));
            }
            let ghost out_before = output@;
            match fill_out_token(&tokens[idx], &content, &mut output) {
                Ok(_) => {
                    proof {
                        if spec_fill(toks.skip(idx as int + 1), m) is Ok {
                            let o = spec_fill_token(toks[idx as int], m)->Ok_0;
                            let b2 = spec_fill(toks.skip(idx as int + 1), m)->Ok_0;
                            assert(out_before + (o + b2) =~= (out_before + o) + b2);
                        }
                    }
                },
                Err(e) => {
                    return Err(e);
                },
            }
            idx = idx + 1;
        }
        proof {
            assert(toks.skip(n as int) =~= Seq::<Tok>::empty());
            assert(output@ + Seq::<char>::empty() =~= output@);
        }
        Ok(output)
    }

    /// Derive the skeleton value map of the document: one empty-string
    /// placeholder per distinct identifier the template requires, nested
    /// defaults included.
    #[verifier::loop_isolation(false)]
    pub fn draft(&self) -> (r: ContentMap)
        ensures
            r@ == spec_draft(self.toks(), Map::<(Seq<char>, Token), Seq<char>>::empty()),
    {
        let ghost toks = self.toks();
        let mut map = ContentMap::new();
        let n = self.tokens.len();
        let mut idx: usize = 0;
        proof {
            assert(toks.skip(0) =~= toks);
        }
        while idx < n
            invariant
                idx <= n,
                n == self.tokens.len(),
                toks == toks_view(self.tokens@),
                spec_draft(toks, Map::<(Seq<char>, Token), Seq<char>>::empty()) == spec_draft(
                    toks.skip(idx as int),
                    map@,
                ),
            decreases n - idx,
        {
            proof {
                assert(toks.skip(idx as int)[0] == toks[idx as int]);
                assert(toks.skip(idx as int).drop_first() =~= toks.skip(idx as int + 1));
            }
            draft_token(&self.tokens[idx], &mut map);
            idx = idx + 1;
        }
        proof {
            assert(toks.skip(n as int) =~= Seq::<Tok>::empty());
        }
        map
    }
}

/// Draft one token into the map: insert an empty-string placeholder for its
/// identifier and recurse into nested defaults.
fn draft_token(token: &ContentToken, map: &mut ContentMap)
    ensures
        final(map)@ == spec_draft_token(tok_view(*token), old(map)@),
    decreases *token,
{
    match token {
        ContentToken::Text(_) => {},
        ContentToken::Constant(ident) => {
            map.insert(TokenIdent::new(ident.as_str(), Token::Constant), String::new());
        },
        ContentToken::Key(ident, default_box) => {
            map.insert(TokenIdent::new(ident.as_str(), Token::Key), String::new());
            match default_box {
                Some(default_token) => draft_token(default_token, map),
                None => {},
            }
        },
        ContentToken::Option(key_box) => draft_token(key_box, map),
    }
}

} // verus!
