//! The editable line listing.
//!
//! The matched name records are presented to the user (or to the replace
//! engine) as one text: the names joined by newlines.  After editing, the
//! text is read back as a sequence of lines — split on `\n`, a trailing
//! carriage return chomped from each line, a final newline tolerated —
//! which becomes the target half of the rename mapping.

use vstd::prelude::*;

verus! {

/// The items joined by `sep`: nothing for an empty sequence, the single
/// item alone, or the first item followed by `sep` and the rest joined.
pub open spec fn joined_with(items: Seq<Seq<char>>, sep: Seq<char>) -> Seq<char>
    decreases items.len(),
{
    if items.len() == 0 {
        Seq::empty()
    } else if items.len() == 1 {
        items[0]
    } else {
        items[0] + sep + joined_with(items.drop_first(), sep)
    }
}

/// Joining one more item appends a separator (unless nothing was joined
/// yet) and the item.
pub proof fn lemma_joined_with_push(items: Seq<Seq<char>>, x: Seq<char>, sep: Seq<char>)
    ensures
        joined_with(items.push(x), sep) == if items.len() == 0 {
            x
        } else {
            joined_with(items, sep) + sep + x
        },
    decreases items.len(),
{
    let pushed = items.push(x);
    if items.len() == 0 {
        assert(pushed.len() == 1);
        assert(pushed[0] == x);
    } else if items.len() == 1 {
        assert(pushed.drop_first() =~= items.drop_first().push(x));
        assert(items.drop_first().len() == 0);
        assert(joined_with(pushed.drop_first(), sep) == x);
        assert(pushed[0] == items[0]);
        assert(joined_with(items, sep) == items[0]);
    } else {
        assert(pushed.drop_first() =~= items.drop_first().push(x));
        lemma_joined_with_push(items.drop_first(), x, sep);
        assert(joined_with(pushed, sep) == pushed[0] + sep + joined_with(pushed.drop_first(), sep));
        assert(pushed[0] == items[0]);
        assert(joined_with(pushed.drop_first(), sep)
            == joined_with(items.drop_first(), sep) + sep + x);
        assert((items[0] + sep + (joined_with(items.drop_first(), sep) + sep + x))
            =~= ((items[0] + sep + joined_with(items.drop_first(), sep)) + sep + x));
    }
}

/// Joins the items with the given separator.
pub fn join_with(items: &Vec<String>, sep: &str) -> (r: String)
    ensures
        r@ == joined_with(items.deep_view(), sep@),
{
    let mut r = String::new();
    let mut i: usize = 0;
    proof {
        assert(items.deep_view().take(0) =~= Seq::<Seq<char>>::empty());
    }
    while i < items.len()
        invariant
            i <= items@.len(),
            items.deep_view().len() == items@.len(),
            r@ == joined_with(items.deep_view().take(i as int), sep@),
        decreases items@.len() - i,
    {
        let ghost pre = r@;
        if i > 0 {
            r.append(sep);
        }
        r.append(items[i].as_str());
        proof {
            let dv = items.deep_view();
            assert(dv[i as int] == items@[i as int]@);
            assert(dv.take(i as int + 1) =~= dv.take(i as int).push(dv[i as int]));
            lemma_joined_with_push(dv.take(i as int), dv[i as int], sep@);
            if i == 0 {
                assert(dv.take(0).len() == 0);
                assert(pre.len() == 0);
                assert(r@ =~= dv[0]);
            }
        }
        i += 1;
    }
    proof {
        assert(items.deep_view().take(items@.len() as int) =~= items.deep_view());
    }
    r
}

/// Joins the name records into the newline-separated listing text.
pub fn join_lines(items: &Vec<String>) -> (r: String)
    ensures
        r@ == joined_with(items.deep_view(), "\n"@),
{
    join_with(items, "\n")
}

/// The position of the first `\n`, or the length if there is none.
pub open spec fn line_break(s: Seq<char>) -> nat
    decreases s.len(),
{
    if s.len() == 0 {
        0
    } else if s[0] == '\n' {
        0
    } else {
        1 + line_break(s.drop_first())
    }
}

/// A position with no `\n` before it that sits on a `\n` (or at the end)
/// is the first line break.
pub proof fn lemma_line_break_at(s: Seq<char>, k: int)
    requires
        0 <= k <= s.len(),
        forall|i: int| 0 <= i < k ==> s[i] != '\n',
        k < s.len() ==> s[k] == '\n',
    ensures
        line_break(s) == k,
    decreases s.len(),
{
    if s.len() > 0 && k > 0 {
        assert(s[0] != '\n');
        assert forall|i: int| 0 <= i < k - 1 implies s.drop_first()[i] != '\n' by {
            assert(s.drop_first()[i] == s[i + 1]);
        }
        lemma_line_break_at(s.drop_first(), k - 1);
    }
}

/// A line as an editor leaves it: with a trailing carriage return removed.
pub open spec fn chomp_cr(l: Seq<char>) -> Seq<char> {
    if l.len() > 0 && l.last() == '\r' {
        l.drop_last()
    } else {
        l
    }
}

/// The lines of a text: split on `\n`, each line chomped of a trailing
/// `\r`, a final newline producing no extra empty line.
pub open spec fn split_lines_spec(s: Seq<char>) -> Seq<Seq<char>>
    decreases s.len(),
{
    if s.len() == 0 {
        Seq::empty()
    } else {
        let k = line_break(s);
        if k >= s.len() {
            seq![chomp_cr(s)]
        } else {
            seq![chomp_cr(s.take(k as int))] + split_lines_spec(s.skip(k as int + 1))
        }
    }
}

/// Splitting inverts joining: name records hold no line break and do not
/// end in a carriage return, so a listing that comes back from the editor
/// unedited — and whose last record is not empty — splits into exactly
/// the records that were joined.
pub proof fn lemma_split_inverts_join(items: Seq<Seq<char>>)
    requires
        forall|i: int, t: int|
            0 <= i < items.len() && 0 <= t < items[i].len() ==> #[trigger] items[i][t] != '\n',
        forall|i: int|
            0 <= i < items.len() && items[i].len() > 0 ==> (#[trigger] items[i]).last() != '\r',
        items.len() > 0 ==> items.last().len() > 0,
    ensures
        split_lines_spec(joined_with(items, "\n"@)) == items,
    decreases items.len(),
{
    reveal_strlit("\n");
    let sep = "\n"@;
    let j = joined_with(items, sep);
    if items.len() == 0 {
        assert(split_lines_spec(j) =~= items);
    } else if items.len() == 1 {
        assert(j == items[0]);
        assert(items.last() == items[0]);
        assert forall|t: int| 0 <= t < j.len() implies j[t] != '\n' by {
            assert(items[0][t] != '\n');
        }
        lemma_line_break_at(j, j.len() as int);
        assert(chomp_cr(j) == j);
        assert(split_lines_spec(j) =~= seq![j]);
        assert(seq![j] =~= items);
    } else {
        let l0 = items[0].len() as int;
        let rest = items.drop_first();
        let jr = joined_with(rest, sep);
        assert(j == items[0] + sep + jr);
        assert forall|t: int| 0 <= t < l0 implies j[t] != '\n' by {
            assert(j[t] == items[0][t]);
            assert(items[0][t] != '\n');
        }
        assert(j[l0] == '\n');
        lemma_line_break_at(j, l0);
        assert(j.take(l0) =~= items[0]);
        assert(chomp_cr(items[0]) == items[0]);
        assert(j.skip(l0 + 1) =~= jr);
        assert forall|i: int, t: int|
            0 <= i < rest.len() && 0 <= t < rest[i].len() implies #[trigger] rest[i][t]
            != '\n' by {
            assert(rest[i] == items[i + 1]);
            assert(items[i + 1][t] != '\n');
        }
        assert forall|i: int|
            0 <= i < rest.len() && rest[i].len() > 0 implies (#[trigger] rest[i]).last()
            != '\r' by {
            assert(rest[i] == items[i + 1]);
            assert(items[i + 1].last() != '\r');
        }
        assert(rest.last() == items.last());
        lemma_split_inverts_join(rest);
        assert(split_lines_spec(j) == seq![chomp_cr(j.take(l0))] + split_lines_spec(
            j.skip(l0 + 1),
        ));
        assert(seq![items[0]] + rest =~= items);
    }
}

/// Splits the edited text back into lines.
pub fn split_lines(s: &str) -> (r: Vec<String>)
    ensures
        r.deep_view() == split_lines_spec(s@),
    decreases s@.len(),
{
    let n = s.unicode_len();
    if n == 0 {
        let r: Vec<String> = Vec::new();
        proof {
            assert(r.deep_view() =~= split_lines_spec(s@));
        }
        return r;
    }
    let mut k: usize = 0;
    while k < n && s.get_char(k) != '\n'
        invariant
            k <= n,
            n == s@.len(),
            forall|i: int| 0 <= i < k ==> s@[i] != '\n',
        decreases n - k,
    {
        k += 1;
    }
    proof {
        lemma_line_break_at(s@, k as int);
    }
    // the first line, chomped of a trailing carriage return
    let line_end: usize = if k > 0 && s.get_char(k - 1) == '\r' {
        k - 1
    } else {
        k
    };
    let line = s.substring_char(0, line_end).to_owned();
    proof {
        assert(s@.take(k as int) =~= s@.subrange(0, k as int));
        if k > 0 && s@[k as int - 1] == '\r' {
            assert(s@.take(k as int).last() == s@[k as int - 1]);
            assert(s@.subrange(0, k as int - 1) =~= s@.take(k as int).drop_last());
        }
        assert(line@ == chomp_cr(s@.take(k as int)));
    }
    let mut r: Vec<String> = Vec::new();
    if k == n {
        r.push(line);
        proof {
            assert(s@.take(k as int) =~= s@);
            assert(r.deep_view() =~= split_lines_spec(s@));
        }
        return r;
    }
    let rest = s.substring_char(k + 1, n);
    proof {
        assert(rest@ =~= s@.skip(k as int + 1));
    }
    let mut tail = split_lines(rest);
    r.push(line);
    let ghost one = r.deep_view();
    r.append(&mut tail);
    proof {
        assert(one =~= seq![chomp_cr(s@.take(k as int))]);
        assert(r.deep_view() =~= one + split_lines_spec(s@.skip(k as int + 1)));
        assert(r.deep_view() =~= split_lines_spec(s@));
    }
    r
}

} // verus!
