//! Pattern matching over name records, backed by the `regex` crate.
//!
//! What the regular-expression engine computes is named, not restated: a
//! pattern text either builds an expression or does not
//! ([`regex_builds`]); a built expression either finds a match somewhere
//! in a text or does not ([`regex_found`]); replacing every match yields a
//! text determined by pattern, input and replacement ([`regex_replaced`]).
//! The library's own contracts are exact over those names.

use vstd::prelude::*;

use crate::errors::RenameError;

verus! {

/// Whether the pattern text compiles to a regular expression.
pub uninterp spec fn regex_builds(pattern: Seq<char>) -> bool;

/// Whether the expression built from `pattern` matches anywhere in `text`
/// (an unanchored, substring-style search).
pub uninterp spec fn regex_found(pattern: Seq<char>, text: Seq<char>) -> bool;

/// The text with every non-overlapping match of `pattern` replaced by
/// `replacement` (which may use group references).
pub uninterp spec fn regex_replaced(
    pattern: Seq<char>,
    text: Seq<char>,
    replacement: Seq<char>,
) -> Seq<char>;

#[verifier::external_type_specification]
#[verifier::external_body]
pub struct ExRegex(regex::Regex);

/// A compiled pattern, kept together with the text it was compiled from.
/// The only constructor is [`CompiledPattern::compile`], so the held
/// expression is always the one built from the held text.
pub struct CompiledPattern {
    regex: regex::Regex,
    pattern_text: String,
}

impl CompiledPattern {
    /// The pattern text this expression was compiled from.
    pub closed spec fn pattern(&self) -> Seq<char> {
        self.pattern_text@
    }

    /// Relies on regex::Regex::new: whether compilation succeeds is a
    /// function of the pattern text alone.
    #[verifier::external_body]
    pub(crate) fn compile(pattern_text: &str) -> (r: Option<CompiledPattern>)
        ensures
            r is Some <==> regex_builds(pattern_text@),
            r matches Some(p) ==> p.pattern() == pattern_text@,
    {
        match regex::Regex::new(pattern_text) {
            Ok(regex) => Some(CompiledPattern { regex, pattern_text: pattern_text.to_owned() }),
            Err(_) => None,
        }
    }

    /// Relies on regex::Regex::is_match: whether a match exists anywhere
    /// in the haystack is a function of the pattern and the haystack.
    #[verifier::external_body]
    pub(crate) fn is_match(&self, text: &str) -> (r: bool)
        ensures
            r == regex_found(self.pattern(), text@),
    {
        self.regex.is_match(text)
    }

    /// Relies on regex::Regex::replace_all: the result is a function of
    /// the pattern, the haystack and the replacement, and its
    /// documentation promises the haystack back unchanged when no match
    /// is found.
    #[verifier::external_body]
    pub(crate) fn replace_all(&self, text: &str, replacement: &str) -> (r: String)
        ensures
            r@ == regex_replaced(self.pattern(), text@, replacement@),
            !regex_found(self.pattern(), text@) ==> r@ == text@,
    {
        self.regex.replace_all(text, replacement).into_owned()
    }
}

/// The predicate a pattern filters name records by.
pub open spec fn match_pred(pattern: Seq<char>) -> spec_fn(Seq<char>) -> bool {
    |t: Seq<char>| regex_found(pattern, t)
}

/// Filters the name records by an optional pattern: with no pattern the
/// listing passes through whole; with one, exactly the records the
/// expression matches remain, in order; a pattern that does not compile
/// is a fatal error carrying the offending text.
pub fn filter_matches(items: Vec<String>, pattern: Option<&str>) -> (r: Result<
    Vec<String>,
    RenameError,
>)
    ensures
        r is Err <==> (pattern matches Some(p) && !regex_builds(p@)),
        r matches Ok(kept) ==> match pattern {
            None => kept@ == items@,
            Some(p) => kept.deep_view() == items.deep_view().filter(match_pred(p@)),
        },
        r matches Err(e) ==> (e matches RenameError::InvalidPattern(t)
            && pattern matches Some(p) && t@ == p@),
{
    let p = match pattern {
        None => {
            return Ok(items);
        },
        Some(p) => p,
    };
    let compiled = match CompiledPattern::compile(p) {
        None => {
            return Err(RenameError::InvalidPattern(p.to_owned()));
        },
        Some(c) => c,
    };
    let mut kept: Vec<String> = Vec::new();
    let mut i: usize = 0;
    proof {
        assert(items.deep_view().take(0) =~= Seq::<Seq<char>>::empty());
        assert(kept.deep_view() =~= items.deep_view().take(0).filter(match_pred(p@)));
    }
    while i < items.len()
        invariant
            i <= items@.len(),
            items.deep_view().len() == items@.len(),
            compiled.pattern() == p@,
            kept.deep_view() == items.deep_view().take(i as int).filter(match_pred(p@)),
        decreases items@.len() - i,
    {
        let ghost pre = kept.deep_view();
        if compiled.is_match(items[i].as_str()) {
            kept.push(items[i].clone());
        }
        proof {
            let dv = items.deep_view();
            assert(dv[i as int] == items@[i as int]@);
            assert(dv.take(i as int + 1) =~= dv.take(i as int).push(dv[i as int]));
            dv.take(i as int).lemma_filter_push(dv[i as int], match_pred(p@));
            if regex_found(p@, dv[i as int]) {
                assert(kept.deep_view() =~= pre.push(dv[i as int]));
            }
        }
        i += 1;
    }
    proof {
        assert(items.deep_view().take(items@.len() as int) =~= items.deep_view());
    }
    Ok(kept)
}

} // verus!
