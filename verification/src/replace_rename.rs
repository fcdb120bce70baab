//! Replace-mode: target names derived mechanically from a pattern and a
//! replacement.
//!
//! Every name record is transformed by substituting every non-overlapping
//! match of the pattern with the replacement; a record the pattern does
//! not match anywhere comes through unchanged — so on such records the
//! transform is idempotent.  The targets are positionally aligned with
//! the originals by construction, one output per input.

use vstd::prelude::*;

use crate::errors::RenameError;
use crate::matcher::{regex_builds, regex_found, regex_replaced, CompiledPattern};
use crate::planner::{plan_renames, NameMapping};

verus! {

/// One replace-mode transaction: the enumerated name records, the
/// compiled pattern, and the replacement text.
pub struct ReplaceRename {
    path_strs: Vec<String>,
    pattern: CompiledPattern,
    replacement: String,
}

impl ReplaceRename {
    /// The enumerated name records.
    pub closed spec fn paths(&self) -> Seq<Seq<char>> {
        self.path_strs.deep_view()
    }

    /// The pattern text the held expression was compiled from.
    pub closed spec fn pattern(&self) -> Seq<char> {
        self.pattern.pattern()
    }

    /// The replacement text.
    pub closed spec fn replacement(&self) -> Seq<char> {
        self.replacement@
    }

    /// Builds a replace-mode transaction over the given name records; a
    /// pattern that does not compile is a fatal error carrying the
    /// offending text.
    pub fn new(path_strs: Vec<String>, pattern: &str, replacement: String) -> (r: Result<
        ReplaceRename,
        RenameError,
    >)
        ensures
            r is Ok <==> regex_builds(pattern@),
            r matches Ok(rr) ==> {
                &&& rr.paths() == path_strs.deep_view()
                &&& rr.pattern() == pattern@
                &&& rr.replacement() == replacement@
            },
            r matches Err(e) ==> (e matches RenameError::InvalidPattern(t) && t@ == pattern@),
    {
        match CompiledPattern::compile(pattern) {
            None => Err(RenameError::InvalidPattern(pattern.to_owned())),
            Some(compiled) => Ok(
                ReplaceRename { path_strs, pattern: compiled, replacement },
            ),
        }
    }

    /// Applies the substitution to every name record, in order.  A record
    /// the pattern does not match anywhere is returned unchanged.
    pub fn replace(&self) -> (r: Vec<String>)
        ensures
            r@.len() == self.paths().len(),
            forall|i: int|
                0 <= i < r@.len() ==> #[trigger] r.deep_view()[i] == regex_replaced(
                    self.pattern(),
                    self.paths()[i],
                    self.replacement(),
                ),
            forall|i: int|
                0 <= i < r@.len() && !regex_found(self.pattern(), self.paths()[i])
                    ==> #[trigger] r.deep_view()[i] == self.paths()[i],
            // on a record the pattern matches nowhere, the substitution is
            // idempotent: a second application changes nothing either
            forall|i: int|
                0 <= i < r@.len() && !regex_found(self.pattern(), self.paths()[i])
                    ==> regex_replaced(
                        self.pattern(),
                        regex_replaced(self.pattern(), #[trigger] self.paths()[i], self.replacement()),
                        self.replacement(),
                    ) == self.paths()[i],
    {
        let mut r: Vec<String> = Vec::new();
        let mut i: usize = 0;
        while i < self.path_strs.len()
            invariant
                i <= self.path_strs@.len(),
                r@.len() == i,
                self.paths().len() == self.path_strs@.len(),
                forall|j: int|
                    0 <= j < i ==> #[trigger] r.deep_view()[j] == regex_replaced(
                        self.pattern(),
                        self.paths()[j],
                        self.replacement(),
                    ),
                forall|j: int|
                    0 <= j < i && !regex_found(self.pattern(), self.paths()[j])
                        ==> #[trigger] r.deep_view()[j] == self.paths()[j],
            decreases self.path_strs@.len() - i,
        {
            let replaced = self.pattern.replace_all(
                self.path_strs[i].as_str(),
                self.replacement.as_str(),
            );
            let ghost pre = r.deep_view();
            let ghost rv = replaced@;
            r.push(replaced);
            proof {
                assert(self.paths()[i as int] == self.path_strs@[i as int]@);
                assert(r.deep_view() =~= pre.push(rv));
                assert forall|j: int| 0 <= j < i implies
                    #[trigger] r.deep_view()[j] == pre[j] by {}
                assert(r.deep_view()[i as int] == rv);
            }
            i += 1;
        }
        proof {
            assert forall|j: int|
                0 <= j < r@.len() && !regex_found(self.pattern(), self.paths()[j]) implies
                regex_replaced(
                    self.pattern(),
                    regex_replaced(self.pattern(), #[trigger] self.paths()[j], self.replacement()),
                    self.replacement(),
                ) == self.paths()[j] by {
                assert(r.deep_view()[j] == regex_replaced(
                    self.pattern(),
                    self.paths()[j],
                    self.replacement(),
                ));
                assert(r.deep_view()[j] == self.paths()[j]);
            }
        }
        r
    }

    /// Pairs the original records with the replaced names.  The lengths
    /// agree by construction whenever `replaced` came from
    /// [`ReplaceRename::replace`], but the shared planner still checks.
    pub fn rename_using_replace(&self, replaced: &Vec<String>) -> (r: Result<
        NameMapping,
        RenameError,
    >)
        ensures
            r is Ok <==> self.paths().len() == replaced@.len(),
            r matches Ok(m) ==> {
                &&& m.pairs@.len() == self.paths().len()
                &&& forall|i: int|
                    0 <= i < m.pairs@.len()
                        ==> (#[trigger] m.pairs@[i]).0@ == self.paths()[i]
                            && m.pairs@[i].1@ == replaced@[i]@
            },
            r matches Err(e) ==> (e matches RenameError::LineCountMismatch(expected, actual)
                && expected == self.paths().len() && actual == replaced@.len()),
    {
        let r = plan_renames(&self.path_strs, replaced);
        proof {
            assert forall|i: int| 0 <= i < self.path_strs@.len() implies
                self.paths()[i] == self.path_strs@[i]@ by {}
        }
        r
    }
}

} // verus!
