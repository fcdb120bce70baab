//! The editor workflow's verified core.
//!
//! The interactive path writes a listing to a scratch file, blocks on the
//! user's editor, and reads the file back; those two boundary steps live
//! outside the library.  Everything around them is here: producing the
//! listing text from a snapshot, and validating the edited text against
//! the original records to obtain the mapping.

use vstd::prelude::*;

use crate::entries::{entry_views, get_string_paths, string_paths_spec, DirEntry};
use crate::errors::RenameError;
use crate::listing::{join_lines, joined_with, split_lines, split_lines_spec};
use crate::matcher::{filter_matches, match_pred, regex_builds};
use crate::planner::{plan_renames, NameMapping};

verus! {

/// The name records a listing holds for a snapshot: the full enumeration,
/// filtered by the pattern if one was given.
pub open spec fn listed_names(
    entries: Seq<(Seq<char>, bool)>,
    allow_hidden: bool,
    pattern: Option<Seq<char>>,
) -> Seq<Seq<char>> {
    let all = string_paths_spec(entries, allow_hidden);
    match pattern {
        None => all,
        Some(p) => all.filter(match_pred(p)),
    }
}

/// Enumerates a snapshot and produces both the matched name records and
/// the listing text to hand to the editor: the records joined by
/// newlines.  A pattern that does not compile is a fatal error, raised
/// before anything else happens.
pub fn prepare_listing(entries: Vec<DirEntry>, allow_hidden: bool, pattern: Option<&str>) -> (r:
    Result<(Vec<String>, String), RenameError>)
    ensures
        r is Err <==> (pattern matches Some(p) && !regex_builds(p@)),
        r matches Ok(listing) ==> {
            &&& listing.0.deep_view() == listed_names(
                entry_views(entries@),
                allow_hidden,
                match pattern {
                    None => None,
                    Some(p) => Some(p@),
                },
            )
            &&& listing.1@ == joined_with(listing.0.deep_view(), "\n"@)
        },
        r matches Err(e) ==> (e matches RenameError::InvalidPattern(t)
            && pattern matches Some(p) && t@ == p@),
{
    let all = get_string_paths(entries, allow_hidden);
    let names = match filter_matches(all, pattern) {
        Ok(names) => names,
        Err(e) => {
            return Err(e);
        },
    };
    let text = join_lines(&names);
    Ok((names, text))
}

/// Validates the edited listing text against the original records: its
/// lines, paired positionally with the originals, become the mapping;
/// a line added or removed is a fatal error, and nothing is renamed.
pub fn plan_from_edited(originals: &Vec<String>, edited: &str) -> (r: Result<
    NameMapping,
    RenameError,
>)
    ensures
        r is Ok <==> split_lines_spec(edited@).len() == originals@.len(),
        r matches Ok(m) ==> {
            &&& m.pairs@.len() == originals@.len()
            &&& forall|i: int|
                0 <= i < m.pairs@.len()
                    ==> (#[trigger] m.pairs@[i]).0@ == originals@[i]@
                        && m.pairs@[i].1@ == split_lines_spec(edited@)[i]
        },
        r matches Err(e) ==> (e matches RenameError::LineCountMismatch(expected, actual)
            && expected == originals@.len() && actual == split_lines_spec(edited@).len()),
{
    let targets = split_lines(edited);
    let r = plan_renames(originals, &targets);
    proof {
        assert(targets.deep_view().len() == targets@.len());
        assert forall|i: int| 0 <= i < targets@.len() implies
            targets@[i]@ == split_lines_spec(edited@)[i] by {
            assert(targets.deep_view()[i] == targets@[i]@);
        }
    }
    r
}

} // verus!
