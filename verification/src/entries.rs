//! Directory snapshot enumeration.
//!
//! A [`DirEntry`] is the plain-value picture of one direct child of the
//! working directory: its path text and whether it is a directory.  This
//! module turns a snapshot — a sequence of such entries in whatever order
//! the directory reader produced them — into the canonical ordered list of
//! name records: sorted by raw path text, normalized (a leading `./` is
//! stripped, a directory gains a trailing `/`), and with hidden entries
//! dropped unless asked for.

use vstd::prelude::*;
use vstd::multiset::Multiset;
use vstd::relations::{sorted_by, total_ordering};
use vstd::seq_lib::lemma_sorted_unique;

use crate::lex::{
    lemma_lex_le_antisymmetric, lemma_lex_le_connected, lemma_lex_le_reflexive,
    lemma_lex_le_transitive, lex_le, str_lex_le,
};

verus! {

/// One direct child of the directory being renamed, as plain values.
pub struct DirEntry {
    /// The path text as the directory reader produced it, e.g. `./a.txt`.
    pub path: String,
    /// Whether the entry is a directory.
    pub is_dir: bool,
}

impl View for DirEntry {
    type V = (Seq<char>, bool);

    open spec fn view(&self) -> (Seq<char>, bool) {
        (self.path@, self.is_dir)
    }
}

/// The order entries are listed in: by path text in code-point order, a
/// non-directory before a directory if two entries ever carried the same
/// path text.
pub open spec fn entry_le(a: (Seq<char>, bool), b: (Seq<char>, bool)) -> bool {
    if a.0 == b.0 {
        a.1 ==> b.1
    } else {
        lex_le(a.0, b.0)
    }
}

/// [`entry_le`] as a first-class relation, for the sorting specifications.
pub open spec fn entry_order() -> spec_fn((Seq<char>, bool), (Seq<char>, bool)) -> bool {
    |a: (Seq<char>, bool), b: (Seq<char>, bool)| entry_le(a, b)
}

/// The listing order is a total order, so a sorted snapshot is unique.
pub proof fn lemma_entry_order_total()
    ensures
        total_ordering(entry_order()),
{
    let leq = entry_order();
    assert forall|a: (Seq<char>, bool)| #[trigger] leq(a, a) by {
        lemma_lex_le_reflexive(a.0);
    }
    assert forall|a: (Seq<char>, bool), b: (Seq<char>, bool)| #[trigger] leq(a, b) && #[trigger] leq(b, a) implies a == b by {
        if a.0 == b.0 {
            assert(a.1 == b.1);
            assert(a =~= b);
        } else {
            lemma_lex_le_antisymmetric(a.0, b.0);
        }
    }
    assert forall|a: (Seq<char>, bool), b: (Seq<char>, bool), c: (Seq<char>, bool)|
        #[trigger] leq(a, b) && #[trigger] leq(b, c) implies leq(a, c) by {
        if a.0 == b.0 && b.0 == c.0 {
        } else if a.0 == b.0 {
        } else if b.0 == c.0 {
        } else {
            lemma_lex_le_transitive(a.0, b.0, c.0);
            if a.0 == c.0 {
                lemma_lex_le_antisymmetric(a.0, b.0);
            }
        }
    }
    assert forall|a: (Seq<char>, bool), b: (Seq<char>, bool)| #[trigger] leq(a, b) || #[trigger] leq(b, a) by {
        if a.0 == b.0 {
        } else {
            lemma_lex_le_connected(a.0, b.0);
        }
    }
}

proof fn lemma_entry_le_reflexive(a: (Seq<char>, bool))
    ensures
        entry_le(a, a),
{
    lemma_lex_le_reflexive(a.0);
}

proof fn lemma_entry_le_connected(a: (Seq<char>, bool), b: (Seq<char>, bool))
    ensures
        entry_le(a, b) || entry_le(b, a),
{
    if a.0 != b.0 {
        lemma_lex_le_connected(a.0, b.0);
    }
}

proof fn lemma_entry_le_transitive(a: (Seq<char>, bool), b: (Seq<char>, bool), c: (Seq<char>, bool))
    requires
        entry_le(a, b),
        entry_le(b, c),
    ensures
        entry_le(a, c),
{
    if a.0 == b.0 && b.0 == c.0 {
    } else if a.0 == b.0 || b.0 == c.0 {
    } else {
        lemma_lex_le_transitive(a.0, b.0, c.0);
        if a.0 == c.0 {
            lemma_lex_le_antisymmetric(a.0, b.0);
        }
    }
}

/// Applying the first-class relation is applying [`entry_le`].
proof fn lemma_entry_order_applies()
    ensures
        forall|x: (Seq<char>, bool), y: (Seq<char>, bool)|
            #[trigger] (entry_order()(x, y)) == entry_le(x, y),
{
}

/// Decides [`entry_le`] on two entries.
fn entry_le_exec(a: &DirEntry, b: &DirEntry) -> (r: bool)
    ensures
        r == entry_le(a@, b@),
{
    if a.path == b.path {
        !a.is_dir || b.is_dir
    } else {
        str_lex_le(a.path.as_str(), b.path.as_str())
    }
}

/// The mathematical picture of a sequence of entries.
pub open spec fn entry_views(entries: Seq<DirEntry>) -> Seq<(Seq<char>, bool)> {
    entries.map_values(|e: DirEntry| e@)
}

proof fn lemma_entry_views_push(s: Seq<DirEntry>, e: DirEntry)
    ensures
        entry_views(s.push(e)) == entry_views(s).push(e@),
{
    assert(entry_views(s.push(e)) =~= entry_views(s).push(e@));
}

proof fn lemma_entry_views_remove(s: Seq<DirEntry>, i: int)
    requires
        0 <= i < s.len(),
    ensures
        entry_views(s.remove(i)) == entry_views(s).remove(i),
{
    assert(entry_views(s.remove(i)) =~= entry_views(s).remove(i));
}

/// Sorts the snapshot into listing order.  The result is exactly the
/// (unique) sorted arrangement of the given entries.
pub fn get_sorted_paths(entries: Vec<DirEntry>) -> (r: Vec<DirEntry>)
    ensures
        entry_views(r@) == entry_views(entries@).sort_by(entry_order()),
{
    broadcast use vstd::seq_lib::group_to_multiset_ensures;
    broadcast use vstd::multiset::group_multiset_axioms;

    let ghost orig = entries@;
    let mut src = entries;
    let mut out: Vec<DirEntry> = Vec::new();
    while src.len() > 0
        invariant
            entry_views(out@).to_multiset().add(entry_views(src@).to_multiset())
                == entry_views(orig).to_multiset(),
            sorted_by(entry_views(out@), entry_order()),
            forall|i: int, j: int|
                0 <= i < out@.len() && 0 <= j < src@.len()
                    ==> entry_le(#[trigger] out@[i]@, #[trigger] src@[j]@),
        decreases src.len(),
    {
        let mut m: usize = 0;
        let mut k: usize = 1;
        while k < src.len()
            invariant
                0 < src@.len(),
                m < k,
                k <= src@.len(),
                forall|j: int| 0 <= j < k ==> entry_le(src@[m as int]@, #[trigger] src@[j]@),
            decreases src.len() - k,
        {
            if !entry_le_exec(&src[m], &src[k]) {
                proof {
                    let old_m = m as int;
                    lemma_entry_le_connected(src@[old_m]@, src@[k as int]@);
                    assert(entry_le(src@[k as int]@, src@[old_m]@));
                    assert forall|j: int| 0 <= j < k + 1 implies
                        entry_le(src@[k as int]@, #[trigger] src@[j]@) by {
                        if j < k {
                            lemma_entry_le_transitive(src@[k as int]@, src@[old_m]@, src@[j]@);
                        } else {
                            lemma_entry_le_reflexive(src@[k as int]@);
                        }
                    }
                }
                m = k;
            }
            k += 1;
        }
        let ghost pre_src = src@;
        let ghost picked = src@[m as int]@;
        let e = src.remove(m);
        let ghost pre_out = out@;
        out.push(e);
        proof {
            lemma_entry_views_remove(pre_src, m as int);
            lemma_entry_views_push(pre_out, e);
            lemma_entry_order_applies();
            // multiset bookkeeping
            let vs_pre = entry_views(pre_src);
            let vs_post = entry_views(src@);
            let os_pre = entry_views(pre_out);
            let os_post = entry_views(out@);
            assert(vs_post == vs_pre.remove(m as int));
            assert(os_post == os_pre.push(picked));
            assert(vs_pre[m as int] == picked);
            vs_pre.to_multiset_ensures();
            os_pre.to_multiset_ensures();
            assert(vs_pre.remove(m as int).to_multiset() =~= vs_pre.to_multiset().remove(picked));
            assert(os_pre.push(picked).to_multiset() =~= os_pre.to_multiset().insert(picked));
            assert(vs_pre.to_multiset().contains(picked));
            assert(os_post.to_multiset().add(vs_post.to_multiset())
                =~= os_pre.to_multiset().add(vs_pre.to_multiset()));
            // every element already emitted precedes every element still waiting
            assert forall|i: int, j: int|
                0 <= i < out@.len() && 0 <= j < src@.len() implies
                entry_le(#[trigger] out@[i]@, #[trigger] src@[j]@) by {
                let jj = if j < m as int { j } else { j + 1 };
                assert(src@[j] == pre_src[jj]);
                assert(entry_le(picked, pre_src[jj]@));
                if i < out@.len() - 1 {
                    assert(out@[i] == pre_out[i]);
                    assert(entry_le(pre_out[i]@, pre_src[jj]@));
                } else {
                    assert(out@[i]@ == picked);
                }
            }
            assert(sorted_by(os_post, entry_order())) by {
                lemma_entry_order_applies();
                assert forall|i: int, j: int| 0 <= i < j < os_post.len() implies
                    #[trigger] (entry_order()(os_post[i], os_post[j])) by {
                    if j < os_post.len() - 1 {
                        assert(entry_order()(os_pre[i], os_pre[j]));
                        assert(os_post[i] == os_pre[i]);
                        assert(os_post[j] == os_pre[j]);
                    } else if i < os_post.len() - 1 {
                        assert(entry_le(pre_out[i]@, pre_src[m as int]@));
                        assert(os_post[i] == pre_out[i]@);
                        assert(os_post[j] == picked);
                    } else {
                        lemma_entry_le_reflexive(picked);
                    }
                }
            }
        }
    }
    proof {
        lemma_entry_order_total();
        assert(entry_views(src@).to_multiset() =~= Multiset::<(Seq<char>, bool)>::empty());
        assert(entry_views(out@).to_multiset().add(Multiset::<(Seq<char>, bool)>::empty())
            =~= entry_views(out@).to_multiset());
        entry_views(orig).lemma_sort_by_ensures(entry_order());
        assert(entry_views(out@).to_multiset() == entry_views(orig).sort_by(entry_order()).to_multiset());
        lemma_sorted_unique(entry_views(out@), entry_views(orig).sort_by(entry_order()), entry_order());
    }
    out
}

/// The path text begins with the conventional current-directory marker `./`.
pub open spec fn has_dot_slash(p: Seq<char>) -> bool {
    p.len() >= 2 && p[0] == '.' && p[1] == '/'
}

/// The path text with a leading `./` stripped.
pub open spec fn stripped(p: Seq<char>) -> Seq<char> {
    if has_dot_slash(p) {
        p.skip(2)
    } else {
        p
    }
}

/// The name record of one entry: the stripped path text, with a trailing
/// separator when the entry is a directory.
pub open spec fn normalized_name(e: (Seq<char>, bool)) -> Seq<char> {
    if e.1 {
        stripped(e.0).push('/')
    } else {
        stripped(e.0)
    }
}

/// A normalized name denotes a hidden entry: it begins with a dot.
pub open spec fn is_hidden_name(n: Seq<char>) -> bool {
    n.len() > 0 && n[0] == '.'
}

/// Which normalized names stay in the listing.
pub open spec fn keep_name(allow_hidden: bool) -> spec_fn(Seq<char>) -> bool {
    |n: Seq<char>| allow_hidden || !is_hidden_name(n)
}

/// The name records of a sequence of entries, in the order given: each
/// entry normalized, hidden names dropped unless `allow_hidden`.
pub open spec fn converted_names(entries: Seq<(Seq<char>, bool)>, allow_hidden: bool) -> Seq<
    Seq<char>,
> {
    entries.map_values(|e: (Seq<char>, bool)| normalized_name(e)).filter(keep_name(allow_hidden))
}

/// The full listing of a snapshot: sorted, normalized, filtered.
pub open spec fn string_paths_spec(entries: Seq<(Seq<char>, bool)>, allow_hidden: bool) -> Seq<
    Seq<char>,
> {
    converted_names(entries.sort_by(entry_order()), allow_hidden)
}

/// Strips a leading `./` from a path text, if present.
pub fn remove_front(s: String) -> (r: String)
    ensures
        r@ == stripped(s@),
{
    let n = s.as_str().unicode_len();
    if n >= 2 {
        let c0 = s.as_str().get_char(0);
        let c1 = s.as_str().get_char(1);
        if c0 == '.' && c1 == '/' {
            let rest = s.as_str().substring_char(2, n);
            let r = rest.to_owned();
            proof {
                assert(s@.subrange(2, n as int) =~= s@.skip(2));
            }
            return r;
        }
    }
    s
}

/// Appends the path separator, marking a name as a directory's.
pub fn add_dir_slash(s: String) -> (r: String)
    ensures
        r@ == s@.push('/'),
{
    let r = s.concat("/");
    proof {
        reveal_strlit("/");
        assert(s@ + "/"@ =~= s@.push('/'));
    }
    r
}

/// Builds the name record of one entry.
pub fn normalize_entry(e: &DirEntry) -> (r: String)
    ensures
        r@ == normalized_name(e@),
{
    let path = e.path.clone();
    let stripped_path = remove_front(path);
    if e.is_dir {
        add_dir_slash(stripped_path)
    } else {
        stripped_path
    }
}

/// Decides whether a normalized name stays in the listing.
fn keep_name_exec(name: &String, allow_hidden: bool) -> (r: bool)
    ensures
        r == keep_name(allow_hidden)(name@),
{
    if allow_hidden {
        true
    } else if name.as_str().unicode_len() == 0 {
        true
    } else {
        name.as_str().get_char(0) != '.'
    }
}

/// Normalizes every entry, in order, and drops hidden names unless asked
/// to keep them.
pub fn convert_paths_to_string_iter(paths: &Vec<DirEntry>, allow_hidden: bool) -> (r: Vec<String>)
    ensures
        r.deep_view() == converted_names(entry_views(paths@), allow_hidden),
{
    let mut out: Vec<String> = Vec::new();
    let mut i: usize = 0;
    proof {
        assert(paths@.take(0) =~= Seq::<DirEntry>::empty());
        assert(entry_views(Seq::<DirEntry>::empty()) =~= Seq::<(Seq<char>, bool)>::empty());
        assert(out.deep_view() =~= converted_names(entry_views(paths@.take(0)), allow_hidden));
    }
    while i < paths.len()
        invariant
            i <= paths@.len(),
            out.deep_view() == converted_names(entry_views(paths@.take(i as int)), allow_hidden),
        decreases paths@.len() - i,
    {
        let name = normalize_entry(&paths[i]);
        let ghost pre = out.deep_view();
        let keep = keep_name_exec(&name, allow_hidden);
        if keep {
            out.push(name);
        }
        proof {
            let pred = keep_name(allow_hidden);
            let entry = paths@[i as int];
            assert(paths@.take(i as int + 1) =~= paths@.take(i as int).push(entry));
            lemma_entry_views_push(paths@.take(i as int), entry);
            let evs = entry_views(paths@.take(i as int));
            let evs1 = entry_views(paths@.take(i as int + 1));
            let named = evs.map_values(|e: (Seq<char>, bool)| normalized_name(e));
            let named1 = evs1.map_values(|e: (Seq<char>, bool)| normalized_name(e));
            assert(named1 =~= named.push(normalized_name(entry@)));
            named.lemma_filter_push(normalized_name(entry@), pred);
            if keep {
                assert(out.deep_view() =~= pre.push(name@));
            }
            assert(out.deep_view() == named1.filter(pred));
        }
        i += 1;
    }
    proof {
        assert(paths@.take(paths@.len() as int) =~= paths@);
    }
    out
}

/// The full enumeration step: sorts a snapshot into listing order and
/// produces its name records.
pub fn get_string_paths(entries: Vec<DirEntry>, allow_hidden: bool) -> (r: Vec<String>)
    ensures
        r.deep_view() == string_paths_spec(entry_views(entries@), allow_hidden),
{
    let ghost evs = entry_views(entries@);
    let sorted = get_sorted_paths(entries);
    let r = convert_paths_to_string_iter(&sorted, allow_hidden);
    proof {
        assert(entry_views(sorted@) == evs.sort_by(entry_order()));
    }
    r
}

/// Enumeration is deterministic: two snapshots holding the same entries —
/// in whatever order the directory reader produced them — yield the same
/// listing.
pub proof fn lemma_enumeration_deterministic(
    a: Seq<(Seq<char>, bool)>,
    b: Seq<(Seq<char>, bool)>,
    allow_hidden: bool,
)
    requires
        a.to_multiset() == b.to_multiset(),
    ensures
        string_paths_spec(a, allow_hidden) == string_paths_spec(b, allow_hidden),
{
    lemma_entry_order_total();
    a.lemma_sort_by_ensures(entry_order());
    b.lemma_sort_by_ensures(entry_order());
    assert(a.sort_by(entry_order()).to_multiset() == b.sort_by(entry_order()).to_multiset());
    lemma_sorted_unique(a.sort_by(entry_order()), b.sort_by(entry_order()), entry_order());
}

/// A directory's name record always ends with the separator; a
/// non-directory's never does, as long as its raw path text did not end
/// with one itself — which a directory reader never produces.
pub proof fn lemma_name_record_separator(e: (Seq<char>, bool))
    requires
        e.0.len() > 0 ==> e.0.last() != '/',
    ensures
        e.1 ==> normalized_name(e).len() > 0 && normalized_name(e).last() == '/',
        !e.1 && normalized_name(e).len() > 0 ==> normalized_name(e).last() != '/',
{
    if has_dot_slash(e.0) && e.0.len() > 2 {
        assert(stripped(e.0).last() == e.0.last());
    }
}

} // verus!
