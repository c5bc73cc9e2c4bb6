//! Parser and resolver for a small text-templating language: literal text
//! interleaved with `{key}`, `$Constant` and `${Option}` substitutions, each
//! identifier optionally carrying a nested default value.  A template parses
//! into a [`token::ContentTokens`] document, which resolves against a
//! [`token::ContentMap`] of values into final text, or yields the skeleton
//! map of every identifier it requires.
use vstd::prelude::*;

pub mod parse;
pub mod scan;
pub mod token;

use crate::parse::LocOut;
use crate::parse::TemplOut;
use crate::parse::UserError;
use crate::parse::spec_template;
use crate::scan::Scanner;
use crate::token::ContentMap;
use crate::token::ContentTokens;
use crate::token::FillOutError;
use crate::token::locale_of;
use crate::token::locale_ok;
use crate::token::spec_fill;

verus! {

/// Parse the whole input into a document: an optional leading locale line,
/// then one or more items covering every remaining character.
pub fn parse_str(s: &str) -> (r: Result<ContentTokens, UserError>)
    requires
        s@.len() < usize::MAX,
    ensures
        match spec_template(s@, 0) {
            TemplOut::Parsed { loc, toks, .. } => r matches Ok(ct) && ct.toks() == toks && (
            match loc {
                LocOut::Found { tag, .. } => ct.friendly().len() == 0 && locale_ok(tag)
                    && ct.locale_val() == locale_of(tag),
                LocOut::NoLoc { err } => ct.friendly() == seq![err] && ct.locale_val()
                    == locale_of("en-US"@),
            }),
            TemplOut::Failed { err, .. } => r matches Err(e) && e@ == err,
        },
{
    let mut scanner = Scanner::new(s);
    parse::template(&mut scanner)
}

/// Resolve a parsed document against the value map: substitute every token in
/// order, or fail with the first missing identifier.
pub fn fill_out(tokens: ContentTokens, content: ContentMap) -> (r: Result<String, FillOutError>)
    ensures
        match spec_fill(tokens.toks(), content@) {
            Ok(o) => r matches Ok(out) && out@ == o,
            Err(e) => r matches Err(er) && er@ == e,
        },
{
    tokens.fill_out(content)
}

} // verus!
