use vstd::multiset::Multiset;
use vstd::prelude::*;

use crate::models::{Alias, Conflict, HistoryEntry, SyncHistoryEntry};
use crate::strutil::{
    lemma_lex_le_antisym, lemma_lex_le_total, lemma_lex_le_trans, lex_le, str_eq, str_le,
};

verus! {

/// Inserting an element anywhere in a sequence adds it to the multiset.
pub proof fn lemma_insert_to_multiset<A>(s: Seq<A>, pos: int, e: A)
    requires
        0 <= pos <= s.len(),
    ensures
        s.insert(pos, e).to_multiset() == s.to_multiset().insert(e),
{
    broadcast use vstd::seq_lib::group_to_multiset_ensures;

    let left = s.subrange(0, pos);
    let right = s.subrange(pos, s.len() as int);
    assert(s =~= left + right);
    assert(s.insert(pos, e) =~= left + seq![e] + right);
    vstd::seq_lib::lemma_multiset_commutative(left, right);
    vstd::seq_lib::lemma_multiset_commutative(left + seq![e], right);
    vstd::seq_lib::lemma_multiset_commutative(left, seq![e]);
    assert(seq![e].to_multiset() =~= Multiset::<A>::empty().insert(e));
    assert(s.insert(pos, e).to_multiset() =~= s.to_multiset().insert(e));
}

/// Removing the first element takes it out of the multiset.
pub proof fn lemma_remove_first_to_multiset<A>(s: Seq<A>)
    requires
        s.len() > 0,
    ensures
        s.remove(0).to_multiset() == s.to_multiset().remove(s[0]),
{
    broadcast use vstd::seq_lib::group_to_multiset_ensures;

    assert(s.remove(0).to_multiset() =~= s.to_multiset().remove(s[0]));
}

/// History-entry order by timestamp, ascending or descending.
pub open spec fn hist_le(asc: bool, a: HistoryEntry, b: HistoryEntry) -> bool {
    if asc {
        a.timestamp <= b.timestamp
    } else {
        a.timestamp >= b.timestamp
    }
}

/// Audit-entry order by timestamp, newest first.
pub open spec fn audit_le(a: SyncHistoryEntry, b: SyncHistoryEntry) -> bool {
    a.timestamp >= b.timestamp
}

/// Conflict order by creation time, newest first.
pub open spec fn conflict_le(a: Conflict, b: Conflict) -> bool {
    a.created_at >= b.created_at
}

/// Alias order: by group then name when `by_group` holds, else by name alone.
pub open spec fn alias_le(by_group: bool, a: Alias, b: Alias) -> bool {
    if by_group {
        lex_le(a.group_name@, b.group_name@) && (a.group_name@ != b.group_name@ || lex_le(
            a.name@,
            b.name@,
        ))
    } else {
        lex_le(a.name@, b.name@)
    }
}

proof fn lemma_alias_le_total(by_group: bool, a: Alias, b: Alias)
    ensures
        alias_le(by_group, a, b) || alias_le(by_group, b, a),
{
    lemma_lex_le_total(a.name@, b.name@);
    lemma_lex_le_total(a.group_name@, b.group_name@);
    if lex_le(a.group_name@, b.group_name@) && lex_le(b.group_name@, a.group_name@) {
        lemma_lex_le_antisym(a.group_name@, b.group_name@);
    }
}

proof fn lemma_alias_le_trans(by_group: bool, a: Alias, b: Alias, c: Alias)
    requires
        alias_le(by_group, a, b),
        alias_le(by_group, b, c),
    ensures
        alias_le(by_group, a, c),
{
    if by_group {
        lemma_lex_le_trans(a.group_name@, b.group_name@, c.group_name@);
        if a.group_name@ == c.group_name@ {
            if a.group_name@ != b.group_name@ {
                lemma_lex_le_antisym(a.group_name@, b.group_name@);
            } else {
                assert(b.group_name@ == c.group_name@);
                lemma_lex_le_trans(a.name@, b.name@, c.name@);
            }
        }
    } else {
        lemma_lex_le_trans(a.name@, b.name@, c.name@);
    }
}

fn alias_le_exec(by_group: bool, a: &Alias, b: &Alias) -> (r: bool)
    ensures
        r == alias_le(by_group, *a, *b),
{
    if by_group {
        if !str_le(a.group_name.as_str(), b.group_name.as_str()) {
            return false;
        }
        if str_eq(a.group_name.as_str(), b.group_name.as_str()) {
            str_le(a.name.as_str(), b.name.as_str())
        } else {
            true
        }
    } else {
        str_le(a.name.as_str(), b.name.as_str())
    }
}

/// Sorts aliases by group and name, or by name alone; the result is a
/// permutation of the input.
pub fn sort_aliases(v: Vec<Alias>, by_group: bool) -> (r: Vec<Alias>)
    ensures
        r@.len() == v@.len(),
        r@.to_multiset() == v@.to_multiset(),
        forall|i: int, j: int|
            0 <= i < j < r@.len() ==> alias_le(by_group, #[trigger] r@[i], #[trigger] r@[j]),
{
    broadcast use vstd::seq_lib::group_to_multiset_ensures;

    let mut src = v;
    let mut out: Vec<Alias> = Vec::new();
    proof {
        assert(out@.to_multiset().add(src@.to_multiset()) =~= v@.to_multiset());
    }
    while src.len() > 0
        invariant
            out@.to_multiset().add(src@.to_multiset()) == v@.to_multiset(),
            out@.len() + src@.len() == v@.len(),
            forall|i: int, j: int|
                0 <= i < j < out@.len() ==> alias_le(by_group, #[trigger] out@[i], #[trigger] out@[j]),
        decreases src@.len(),
    {
        let ghost src_prev = src@;
        let e = src.remove(0);
        proof {
            broadcast use vstd::multiset::group_multiset_axioms;

            lemma_remove_first_to_multiset(src_prev);
            src_prev.to_multiset_ensures();
            assert(src_prev.contains(src_prev[0]));
            assert(src_prev.to_multiset().count(src_prev[0]) > 0);
        }
        let mut pos: usize = 0;
        while pos < out.len() && alias_le_exec(by_group, &out[pos], &e)
            invariant
                pos <= out@.len(),
                forall|q: int| 0 <= q < pos ==> alias_le(by_group, #[trigger] out@[q], e),
            decreases out@.len() - pos,
        {
            pos += 1;
        }
        proof {
            if pos < out@.len() {
                lemma_alias_le_total(by_group, out@[pos as int], e);
            }
            assert forall|q: int| pos <= q < out@.len() implies alias_le(
                by_group,
                e,
                #[trigger] out@[q],
            ) by {
                if pos < out@.len() {
                    if q > pos {
                        lemma_alias_le_trans(by_group, e, out@[pos as int], out@[q]);
                    }
                }
            }
        }
        let ghost out_prev = out@;
        out.insert(pos, e);
        proof {
            lemma_insert_to_multiset(out_prev, pos as int, e);
            assert forall|i: int, j: int| 0 <= i < j < out@.len() implies alias_le(
                by_group,
                #[trigger] out@[i],
                #[trigger] out@[j],
            ) by {
                if j < pos {
                } else if i == pos as int {
                    assert(out@[j] == out_prev[j - 1]);
                } else if j == pos as int {
                    assert(out@[i] == out_prev[i]);
                } else if i < pos && j > pos {
                    assert(out@[i] == out_prev[i]);
                    assert(out@[j] == out_prev[j - 1]);
                } else {
                    assert(out@[i] == out_prev[i - 1]);
                    assert(out@[j] == out_prev[j - 1]);
                }
            }
            broadcast use vstd::multiset::group_multiset_axioms;

            assert(out@.to_multiset().add(src@.to_multiset()) =~= v@.to_multiset());
        }
    }
    proof {
        assert(src@.to_multiset() =~= Multiset::<Alias>::empty());
        assert(out@.to_multiset() =~= v@.to_multiset());
    }
    out
}

fn hist_le_exec(asc: bool, a: &HistoryEntry, b: &HistoryEntry) -> (r: bool)
    ensures
        r == hist_le(asc, *a, *b),
{
    if asc {
        a.timestamp <= b.timestamp
    } else {
        a.timestamp >= b.timestamp
    }
}

/// Sorts history entries by timestamp, ascending or descending; the result
/// is a permutation of the input.
pub fn sort_history(v: Vec<HistoryEntry>, asc: bool) -> (r: Vec<HistoryEntry>)
    ensures
        r@.len() == v@.len(),
        r@.to_multiset() == v@.to_multiset(),
        forall|i: int, j: int|
            0 <= i < j < r@.len() ==> hist_le(asc, #[trigger] r@[i], #[trigger] r@[j]),
{
    broadcast use vstd::seq_lib::group_to_multiset_ensures;

    let mut src = v;
    let mut out: Vec<HistoryEntry> = Vec::new();
    proof {
        assert(out@.to_multiset().add(src@.to_multiset()) =~= v@.to_multiset());
    }
    while src.len() > 0
        invariant
            out@.to_multiset().add(src@.to_multiset()) == v@.to_multiset(),
            out@.len() + src@.len() == v@.len(),
            forall|i: int, j: int|
                0 <= i < j < out@.len() ==> hist_le(asc, #[trigger] out@[i], #[trigger] out@[j]),
        decreases src@.len(),
    {
        let ghost src_prev = src@;
        let e = src.remove(0);
        proof {
            broadcast use vstd::multiset::group_multiset_axioms;

            lemma_remove_first_to_multiset(src_prev);
            src_prev.to_multiset_ensures();
            assert(src_prev.contains(src_prev[0]));
            assert(src_prev.to_multiset().count(src_prev[0]) > 0);
        }
        let mut pos: usize = 0;
        while pos < out.len() && hist_le_exec(asc, &out[pos], &e)
            invariant
                pos <= out@.len(),
                forall|q: int| 0 <= q < pos ==> hist_le(asc, #[trigger] out@[q], e),
            decreases out@.len() - pos,
        {
            pos += 1;
        }
        let ghost out_prev = out@;
        out.insert(pos, e);
        proof {
            lemma_insert_to_multiset(out_prev, pos as int, e);
            assert forall|i: int, j: int| 0 <= i < j < out@.len() implies hist_le(
                asc,
                #[trigger] out@[i],
                #[trigger] out@[j],
            ) by {
                if j < pos {
                } else if i == pos as int {
                    assert(out@[j] == out_prev[j - 1]);
                } else if j == pos as int {
                    assert(out@[i] == out_prev[i]);
                } else if i < pos && j > pos {
                    assert(out@[i] == out_prev[i]);
                    assert(out@[j] == out_prev[j - 1]);
                } else {
                    assert(out@[i] == out_prev[i - 1]);
                    assert(out@[j] == out_prev[j - 1]);
                }
            }
            broadcast use vstd::multiset::group_multiset_axioms;

            assert(out@.to_multiset().add(src@.to_multiset()) =~= v@.to_multiset());
        }
    }
    proof {
        assert(src@.to_multiset() =~= Multiset::<HistoryEntry>::empty());
        assert(out@.to_multiset() =~= v@.to_multiset());
    }
    out
}

/// Sorts audit entries newest first; the result is a permutation of the input.
pub fn sort_audit_desc(v: Vec<SyncHistoryEntry>) -> (r: Vec<SyncHistoryEntry>)
    ensures
        r@.len() == v@.len(),
        r@.to_multiset() == v@.to_multiset(),
        forall|i: int, j: int|
            0 <= i < j < r@.len() ==> audit_le(#[trigger] r@[i], #[trigger] r@[j]),
{
    broadcast use vstd::seq_lib::group_to_multiset_ensures;

    let mut src = v;
    let mut out: Vec<SyncHistoryEntry> = Vec::new();
    proof {
        assert(out@.to_multiset().add(src@.to_multiset()) =~= v@.to_multiset());
    }
    while src.len() > 0
        invariant
            out@.to_multiset().add(src@.to_multiset()) == v@.to_multiset(),
            out@.len() + src@.len() == v@.len(),
            forall|i: int, j: int|
                0 <= i < j < out@.len() ==> audit_le(#[trigger] out@[i], #[trigger] out@[j]),
        decreases src@.len(),
    {
        let ghost src_prev = src@;
        let e = src.remove(0);
        proof {
            broadcast use vstd::multiset::group_multiset_axioms;

            lemma_remove_first_to_multiset(src_prev);
            src_prev.to_multiset_ensures();
            assert(src_prev.contains(src_prev[0]));
            assert(src_prev.to_multiset().count(src_prev[0]) > 0);
        }
        let mut pos: usize = 0;
        while pos < out.len() && out[pos].timestamp >= e.timestamp
            invariant
                pos <= out@.len(),
                forall|q: int| 0 <= q < pos ==> audit_le(#[trigger] out@[q], e),
            decreases out@.len() - pos,
        {
            pos += 1;
        }
        let ghost out_prev = out@;
        out.insert(pos, e);
        proof {
            lemma_insert_to_multiset(out_prev, pos as int, e);
            assert forall|i: int, j: int| 0 <= i < j < out@.len() implies audit_le(
                #[trigger] out@[i],
                #[trigger] out@[j],
            ) by {
                if j < pos {
                } else if i == pos as int {
                    assert(out@[j] == out_prev[j - 1]);
                } else if j == pos as int {
                    assert(out@[i] == out_prev[i]);
                } else if i < pos && j > pos {
                    assert(out@[i] == out_prev[i]);
                    assert(out@[j] == out_prev[j - 1]);
                } else {
                    assert(out@[i] == out_prev[i - 1]);
                    assert(out@[j] == out_prev[j - 1]);
                }
            }
            broadcast use vstd::multiset::group_multiset_axioms;

            assert(out@.to_multiset().add(src@.to_multiset()) =~= v@.to_multiset());
        }
    }
    proof {
        assert(src@.to_multiset() =~= Multiset::<SyncHistoryEntry>::empty());
        assert(out@.to_multiset() =~= v@.to_multiset());
    }
    out
}

/// Sorts conflicts newest first; the result is a permutation of the input.
pub fn sort_conflicts_desc(v: Vec<Conflict>) -> (r: Vec<Conflict>)
    ensures
        r@.len() == v@.len(),
        r@.to_multiset() == v@.to_multiset(),
        forall|i: int, j: int|
            0 <= i < j < r@.len() ==> conflict_le(#[trigger] r@[i], #[trigger] r@[j]),
{
    broadcast use vstd::seq_lib::group_to_multiset_ensures;

    let mut src = v;
    let mut out: Vec<Conflict> = Vec::new();
    proof {
        assert(out@.to_multiset().add(src@.to_multiset()) =~= v@.to_multiset());
    }
    while src.len() > 0
        invariant
            out@.to_multiset().add(src@.to_multiset()) == v@.to_multiset(),
            out@.len() + src@.len() == v@.len(),
            forall|i: int, j: int|
                0 <= i < j < out@.len() ==> conflict_le(#[trigger] out@[i], #[trigger] out@[j]),
        decreases src@.len(),
    {
        let ghost src_prev = src@;
        let e = src.remove(0);
        proof {
            broadcast use vstd::multiset::group_multiset_axioms;

            lemma_remove_first_to_multiset(src_prev);
            src_prev.to_multiset_ensures();
            assert(src_prev.contains(src_prev[0]));
            assert(src_prev.to_multiset().count(src_prev[0]) > 0);
        }
        let mut pos: usize = 0;
        while pos < out.len() && out[pos].created_at >= e.created_at
            invariant
                pos <= out@.len(),
                forall|q: int| 0 <= q < pos ==> conflict_le(#[trigger] out@[q], e),
            decreases out@.len() - pos,
        {
            pos += 1;
        }
        let ghost out_prev = out@;
        out.insert(pos, e);
        proof {
            lemma_insert_to_multiset(out_prev, pos as int, e);
            assert forall|i: int, j: int| 0 <= i < j < out@.len() implies conflict_le(
                #[trigger] out@[i],
                #[trigger] out@[j],
            ) by {
                if j < pos {
                } else if i == pos as int {
                    assert(out@[j] == out_prev[j - 1]);
                } else if j == pos as int {
                    assert(out@[i] == out_prev[i]);
                } else if i < pos && j > pos {
                    assert(out@[i] == out_prev[i]);
                    assert(out@[j] == out_prev[j - 1]);
                } else {
                    assert(out@[i] == out_prev[i - 1]);
                    assert(out@[j] == out_prev[j - 1]);
                }
            }
            broadcast use vstd::multiset::group_multiset_axioms;

            assert(out@.to_multiset().add(src@.to_multiset()) =~= v@.to_multiset());
        }
    }
    proof {
        assert(src@.to_multiset() =~= Multiset::<Conflict>::empty());
        assert(out@.to_multiset() =~= v@.to_multiset());
    }
    out
}

} // verus!
