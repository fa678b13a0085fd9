use vstd::prelude::*;

verus! {

/// One step of an edit script that turns an old sequence of rows into a
/// new one. Indices count rows from zero.
#[derive(Copy, Clone, Debug, PartialEq, Eq, Structural)]
pub enum EditOp {
    /// The old row at the first index is the new row at the second.
    Unchanged(usize, usize),
    /// The new row at this index has no old counterpart.
    Added(usize),
    /// The old row at this index has no new counterpart.
    Removed(usize),
}

/// The length of the longest common subsequence of the first `i` items of
/// `a` and the first `j` items of `b`.
pub open spec fn lcs_len<T>(a: Seq<T>, b: Seq<T>, i: int, j: int) -> nat
    recommends
        0 <= i <= a.len(),
        0 <= j <= b.len(),
    decreases i + j,
{
    if i <= 0 || j <= 0 {
        0
    } else if a[i - 1] == b[j - 1] {
        lcs_len(a, b, i - 1, j - 1) + 1
    } else if lcs_len(a, b, i - 1, j) >= lcs_len(a, b, i, j - 1) {
        lcs_len(a, b, i - 1, j)
    } else {
        lcs_len(a, b, i, j - 1)
    }
}

/// The edit script for the first `i` items of `a` and the first `j` items
/// of `b`, read off the table of [`lcs_len`] from its far corner.
///
/// Where the last items are equal the step is `Unchanged`. Otherwise the
/// step follows the larger neighbour in the table. Where both neighbours
/// are equal the last step is `Added`, so that in the finished script a
/// removal stands before the addition that replaces it.
pub open spec fn edit_script<T>(a: Seq<T>, b: Seq<T>, i: int, j: int) -> Seq<EditOp>
    recommends
        0 <= i <= a.len() <= usize::MAX,
        0 <= j <= b.len() <= usize::MAX,
    decreases i + j,
{
    if i < 0 || j < 0 || (i == 0 && j == 0) {
        Seq::empty()
    } else if i > 0 && j > 0 && a[i - 1] == b[j - 1] {
        edit_script(a, b, i - 1, j - 1).push(EditOp::Unchanged((i - 1) as usize, (j - 1) as usize))
    } else if j > 0 && (i == 0 || lcs_len(a, b, i, j - 1) >= lcs_len(a, b, i - 1, j)) {
        edit_script(a, b, i, j - 1).push(EditOp::Added((j - 1) as usize))
    } else {
        edit_script(a, b, i - 1, j).push(EditOp::Removed((i - 1) as usize))
    }
}

/// The whole edit script from `a` to `b`.
pub open spec fn full_script<T>(a: Seq<T>, b: Seq<T>) -> Seq<EditOp> {
    edit_script(a, b, a.len() as int, b.len() as int)
}

/// The texts of a list of row tokens.
pub open spec fn token_texts(rows: Seq<String>) -> Seq<Seq<char>> {
    Seq::new(rows.len(), |k: int| rows[k]@)
}

/// A common subsequence is no longer than either prefix.
pub proof fn lemma_lcs_len_bound<T>(a: Seq<T>, b: Seq<T>, i: int, j: int)
    requires
        0 <= i,
        0 <= j,
    ensures
        lcs_len(a, b, i, j) <= i,
        lcs_len(a, b, i, j) <= j,
    decreases i + j,
{
    if i > 0 && j > 0 {
        lemma_lcs_len_bound(a, b, i - 1, j - 1);
        lemma_lcs_len_bound(a, b, i - 1, j);
        lemma_lcs_len_bound(a, b, i, j - 1);
    }
}

/// Is `table` the table of [`lcs_len`] for the first `rows` prefixes of `a`
/// against every prefix of `b`?
pub open spec fn table_filled<T>(table: Seq<Vec<usize>>, a: Seq<T>, b: Seq<T>, rows: int) -> bool {
    &&& table.len() == rows
    &&& forall|i: int| 0 <= i < rows ==> (#[trigger] table[i]).len() == b.len() + 1
    &&& forall|i: int, j: int|
        0 <= i < rows && 0 <= j <= b.len() ==> (#[trigger] table[i][j]) as int == lcs_len(
            a,
            b,
            i,
            j,
        )
}

/// Builds the dynamic-programming table: entry `[i][j]` is the length of the
/// longest common subsequence of the first `i` old rows and the first `j`
/// new rows.
pub fn lcs_table(old_rows: &Vec<String>, new_rows: &Vec<String>) -> (table: Vec<Vec<usize>>)
    ensures
        table_filled(
            table@,
            token_texts(old_rows@),
            token_texts(new_rows@),
            old_rows.len() + 1,
        ),
{
    let ghost a = token_texts(old_rows@);
    let ghost b = token_texts(new_rows@);
    let m: usize = old_rows.len();
    let n: usize = new_rows.len();
    let mut table: Vec<Vec<usize>> = Vec::new();
    let mut first: Vec<usize> = Vec::new();
    first.push(0);
    let mut j: usize = 0;
    while j < n
        invariant
            j <= n,
            first.len() == j + 1,
            forall|t: int| 0 <= t <= j ==> first[t] == 0,
        decreases n - j,
    {
        first.push(0);
        j += 1;
    }
    table.push(first);
    let mut i: usize = 0;
    while i < m
        invariant
            i <= m,
            m == old_rows.len(),
            n == new_rows.len(),
            a == token_texts(old_rows@),
            b == token_texts(new_rows@),
            table_filled(table@, a, b, i + 1),
        decreases m - i,
    {
        let mut row: Vec<usize> = Vec::new();
        row.push(0);
        let mut j: usize = 0;
        while j < n
            invariant
                j <= n,
                i < m,
                m == old_rows.len(),
                n == new_rows.len(),
                a == token_texts(old_rows@),
                b == token_texts(new_rows@),
                table_filled(table@, a, b, i + 1),
                row.len() == j + 1,
                forall|t: int|
                    0 <= t <= j ==> (#[trigger] row[t]) as int == lcs_len(a, b, i + 1, t),
            decreases n - j,
        {
            proof {
                lemma_lcs_len_bound(a, b, i as int, j as int);
                lemma_lcs_len_bound(a, b, i as int, j + 1);
                lemma_lcs_len_bound(a, b, i + 1, j as int);
            }
            let above: usize = table[i][j + 1];
            let left: usize = row[j];
            let entry: usize = if old_rows[i] == new_rows[j] {
                table[i][j] + 1
            } else if above >= left {
                above
            } else {
                left
            };
            row.push(entry);
            j += 1;
        }
        table.push(row);
        i += 1;
    }
    table
}

/// Computes the edit script that turns `old_rows` into `new_rows`: the
/// table of common-subsequence lengths is walked back from its far corner,
/// and the steps are put in forward order.
pub fn diff(old_rows: &Vec<String>, new_rows: &Vec<String>) -> (script: Vec<EditOp>)
    ensures
        script@ == full_script(token_texts(old_rows@), token_texts(new_rows@)),
{
    let ghost a = token_texts(old_rows@);
    let ghost b = token_texts(new_rows@);
    let ghost target = full_script(a, b);
    let table = lcs_table(old_rows, new_rows);
    let mut i: usize = old_rows.len();
    let mut j: usize = new_rows.len();
    let mut backward: Vec<EditOp> = Vec::new();
    while i > 0 || j > 0
        invariant
            i <= old_rows.len(),
            j <= new_rows.len(),
            a == token_texts(old_rows@),
            b == token_texts(new_rows@),
            table_filled(table@, a, b, old_rows.len() + 1),
            target.len() == edit_script(a, b, i as int, j as int).len() + backward.len(),
            target.subrange(0, target.len() - backward.len()) == edit_script(
                a,
                b,
                i as int,
                j as int,
            ),
            forall|t: int|
                0 <= t < backward.len() ==> backward[t] == target[target.len() - 1 - t],
        decreases i + j,
    {
        let ghost before = edit_script(a, b, i as int, j as int);
        let op = if i > 0 && j > 0 && old_rows[i - 1] == new_rows[j - 1] {
            i -= 1;
            j -= 1;
            EditOp::Unchanged(i, j)
        } else if j > 0 && (i == 0 || table[i][j - 1] >= table[i - 1][j]) {
            j -= 1;
            EditOp::Added(j)
        } else {
            i -= 1;
            EditOp::Removed(i)
        };
        proof {
            let rest = edit_script(a, b, i as int, j as int);
            assert(before == rest.push(op));
            assert(target[target.len() - 1 - backward.len()] == before[before.len() - 1]);
            assert(target.subrange(0, target.len() - backward.len() - 1) =~= rest);
        }
        backward.push(op);
    }
    let count: usize = backward.len();
    let mut script: Vec<EditOp> = Vec::new();
    let mut k: usize = count;
    while k > 0
        invariant
            k <= count,
            count == backward.len(),
            target.len() == count,
            script.len() == count - k,
            forall|t: int| 0 <= t < count ==> backward[t] == target[count - 1 - t],
            forall|t: int| 0 <= t < script.len() ==> script[t] == target[t],
        decreases k,
    {
        k -= 1;
        script.push(backward[k]);
    }
    assert(script@ =~= target);
    script
}

/// The old rows that a script consumes, in the order of its steps.
pub open spec fn old_side(script: Seq<EditOp>) -> Seq<int>
    decreases script.len(),
{
    if script.len() == 0 {
        Seq::empty()
    } else {
        let rest = old_side(script.drop_last());
        match script.last() {
            EditOp::Unchanged(p, _) => rest.push(p as int),
            EditOp::Removed(p) => rest.push(p as int),
            EditOp::Added(_) => rest,
        }
    }
}

/// The new rows that a script produces, in the order of its steps.
pub open spec fn new_side(script: Seq<EditOp>) -> Seq<int>
    decreases script.len(),
{
    if script.len() == 0 {
        Seq::empty()
    } else {
        let rest = new_side(script.drop_last());
        match script.last() {
            EditOp::Unchanged(_, q) => rest.push(q as int),
            EditOp::Added(q) => rest.push(q as int),
            EditOp::Removed(_) => rest,
        }
    }
}

/// The old rows that a script removes, in the order of its steps.
pub open spec fn removed_rows(script: Seq<EditOp>) -> Seq<usize>
    decreases script.len(),
{
    if script.len() == 0 {
        Seq::empty()
    } else {
        let rest = removed_rows(script.drop_last());
        match script.last() {
            EditOp::Removed(p) => rest.push(p),
            _ => rest,
        }
    }
}

/// The new rows that a script adds, in the order of its steps.
pub open spec fn added_rows(script: Seq<EditOp>) -> Seq<usize>
    decreases script.len(),
{
    if script.len() == 0 {
        Seq::empty()
    } else {
        let rest = added_rows(script.drop_last());
        match script.last() {
            EditOp::Added(q) => rest.push(q),
            _ => rest,
        }
    }
}

/// The number of `Unchanged` steps of a script.
pub open spec fn unchanged_count(script: Seq<EditOp>) -> nat
    decreases script.len(),
{
    if script.len() == 0 {
        0
    } else {
        let rest = unchanged_count(script.drop_last());
        match script.last() {
            EditOp::Unchanged(_, _) => rest + 1,
            _ => rest,
        }
    }
}

/// Does a step name rows that exist, and, where it says `Unchanged`, two
/// rows that are equal?
pub open spec fn op_fits<T>(op: EditOp, a: Seq<T>, b: Seq<T>) -> bool {
    match op {
        EditOp::Unchanged(p, q) => p < a.len() && q < b.len() && a[p as int] == b[q as int],
        EditOp::Added(q) => q < b.len(),
        EditOp::Removed(p) => p < a.len(),
    }
}

/// An edit script walks both sequences from front to back. Every old row
/// is consumed once, in order, and every new row is produced once, in
/// order; every index is a valid one; an `Unchanged` step joins two equal
/// rows; and the `Unchanged` steps are as many as the longest common
/// subsequence is long.
pub proof fn lemma_script_is_sound<T>(a: Seq<T>, b: Seq<T>, i: int, j: int)
    requires
        0 <= i <= a.len() <= usize::MAX,
        0 <= j <= b.len() <= usize::MAX,
    ensures
        old_side(edit_script(a, b, i, j)) == Seq::new(i as nat, |t: int| t),
        new_side(edit_script(a, b, i, j)) == Seq::new(j as nat, |t: int| t),
        unchanged_count(edit_script(a, b, i, j)) == lcs_len(a, b, i, j),
        edit_script(a, b, i, j).len() == i + j - lcs_len(a, b, i, j),
        forall|t: int|
            0 <= t < edit_script(a, b, i, j).len() ==> op_fits(
                #[trigger] edit_script(a, b, i, j)[t],
                a,
                b,
            ),
    decreases i + j,
{
    let script = edit_script(a, b, i, j);
    if i == 0 && j == 0 {
        assert(old_side(script) =~= Seq::new(0, |t: int| t));
        assert(new_side(script) =~= Seq::new(0, |t: int| t));
    } else {
        let (pi, pj) = if i > 0 && j > 0 && a[i - 1] == b[j - 1] {
            (i - 1, j - 1)
        } else if j > 0 && (i == 0 || lcs_len(a, b, i, j - 1) >= lcs_len(a, b, i - 1, j)) {
            (i, j - 1)
        } else {
            (i - 1, j)
        };
        let rest = edit_script(a, b, pi, pj);
        lemma_script_is_sound(a, b, pi, pj);
        assert(script.drop_last() =~= rest);
        assert(old_side(script) =~= Seq::new(i as nat, |t: int| t));
        assert(new_side(script) =~= Seq::new(j as nat, |t: int| t));
        assert forall|t: int| 0 <= t < script.len() implies op_fits(#[trigger] script[t], a, b) by {
            if t < rest.len() {
                assert(script[t] == rest[t]);
            }
        }
    }
}

/// Do the positions `ps` in `a` and `qs` in `b` pick a common subsequence
/// of the first `i` items of `a` and the first `j` items of `b`? Both
/// lists of positions rise, and paired positions hold equal items.
pub open spec fn is_common_subsequence<T>(
    a: Seq<T>,
    b: Seq<T>,
    i: int,
    j: int,
    ps: Seq<int>,
    qs: Seq<int>,
) -> bool {
    &&& ps.len() == qs.len()
    &&& forall|t: int|
        0 <= t < ps.len() ==> 0 <= #[trigger] ps[t] < i && 0 <= qs[t] < j && a[ps[t]] == b[qs[t]]
    &&& forall|s: int, t: int|
        0 <= s < t < ps.len() ==> #[trigger] ps[s] < #[trigger] ps[t] && qs[s] < qs[t]
}

/// No common subsequence is longer than [`lcs_len`] says.
pub proof fn lemma_lcs_len_is_an_upper_bound<T>(
    a: Seq<T>,
    b: Seq<T>,
    i: int,
    j: int,
    ps: Seq<int>,
    qs: Seq<int>,
)
    requires
        0 <= i <= a.len(),
        0 <= j <= b.len(),
        is_common_subsequence(a, b, i, j, ps, qs),
    ensures
        ps.len() <= lcs_len(a, b, i, j),
    decreases i + j,
{
    if ps.len() > 0 {
        let last = ps.len() - 1;
        assert(0 <= ps[last] < i && 0 <= qs[last] < j);
        assert forall|t: int| 0 <= t < last implies ps[t] < ps[last] && qs[t] < qs[last] by {}
        if a[i - 1] == b[j - 1] {
            let ps0 = ps.drop_last();
            let qs0 = qs.drop_last();
            assert forall|t: int| 0 <= t < ps0.len() implies 0 <= #[trigger] ps0[t] < i - 1 && 0
                <= qs0[t] < j - 1 && a[ps0[t]] == b[qs0[t]] by {
                assert(ps0[t] == ps[t] && qs0[t] == qs[t]);
            }
            assert forall|s: int, t: int| 0 <= s < t < ps0.len() implies #[trigger] ps0[s]
                < #[trigger] ps0[t] && qs0[s] < qs0[t] by {
                assert(ps0[s] == ps[s] && ps0[t] == ps[t]);
            }
            lemma_lcs_len_is_an_upper_bound(a, b, i - 1, j - 1, ps0, qs0);
        } else if ps[last] < i - 1 {
            assert forall|t: int| 0 <= t < ps.len() implies 0 <= #[trigger] ps[t] < i - 1 && 0
                <= qs[t] < j && a[ps[t]] == b[qs[t]] by {
                if t < last {
                    assert(ps[t] < ps[last]);
                }
            }
            lemma_lcs_len_is_an_upper_bound(a, b, i - 1, j, ps, qs);
        } else {
            assert(qs[last] < j - 1);
            assert forall|t: int| 0 <= t < ps.len() implies 0 <= #[trigger] ps[t] < i && 0
                <= qs[t] < j - 1 && a[ps[t]] == b[qs[t]] by {
                if t < last {
                    assert(ps[t] < ps[last]);
                }
            }
            lemma_lcs_len_is_an_upper_bound(a, b, i, j - 1, ps, qs);
        }
    }
}

/// The old rows that a script leaves unchanged, in the order of its steps.
pub open spec fn kept_old(script: Seq<EditOp>) -> Seq<int>
    decreases script.len(),
{
    if script.len() == 0 {
        Seq::empty()
    } else {
        let rest = kept_old(script.drop_last());
        match script.last() {
            EditOp::Unchanged(p, _) => rest.push(p as int),
            _ => rest,
        }
    }
}

/// The new rows that a script leaves unchanged, in the order of its steps.
pub open spec fn kept_new(script: Seq<EditOp>) -> Seq<int>
    decreases script.len(),
{
    if script.len() == 0 {
        Seq::empty()
    } else {
        let rest = kept_new(script.drop_last());
        match script.last() {
            EditOp::Unchanged(_, q) => rest.push(q as int),
            _ => rest,
        }
    }
}

/// The rows that an edit script leaves unchanged are a longest common
/// subsequence: they are common to both sequences, and as many as
/// [`lcs_len`] says, which no common subsequence exceeds.
pub proof fn lemma_script_keeps_a_longest_common_subsequence<T>(
    a: Seq<T>,
    b: Seq<T>,
    i: int,
    j: int,
)
    requires
        0 <= i <= a.len() <= usize::MAX,
        0 <= j <= b.len() <= usize::MAX,
    ensures
        is_common_subsequence(
            a,
            b,
            i,
            j,
            kept_old(edit_script(a, b, i, j)),
            kept_new(edit_script(a, b, i, j)),
        ),
        kept_old(edit_script(a, b, i, j)).len() == lcs_len(a, b, i, j),
    decreases i + j,
{
    let script = edit_script(a, b, i, j);
    let ps = kept_old(script);
    let qs = kept_new(script);
    if i == 0 && j == 0 {
    } else if i > 0 && j > 0 && a[i - 1] == b[j - 1] {
        let rest = edit_script(a, b, i - 1, j - 1);
        lemma_script_keeps_a_longest_common_subsequence(a, b, i - 1, j - 1);
        assert(script.drop_last() =~= rest);
        let ps0 = kept_old(rest);
        let qs0 = kept_new(rest);
        assert(ps == ps0.push(i - 1));
        assert(qs == qs0.push(j - 1));
        assert forall|t: int| 0 <= t < ps.len() implies 0 <= #[trigger] ps[t] < i && 0 <= qs[t] < j
            && a[ps[t]] == b[qs[t]] by {
            if t < ps0.len() {
                assert(0 <= ps0[t] < i - 1);
            }
        }
        assert forall|s: int, t: int| 0 <= s < t < ps.len() implies #[trigger] ps[s]
            < #[trigger] ps[t] && qs[s] < qs[t] by {
            assert(0 <= ps0[s] < i - 1);
            if t < ps0.len() {
                assert(ps0[s] < ps0[t]);
            }
        }
    } else if j > 0 && (i == 0 || lcs_len(a, b, i, j - 1) >= lcs_len(a, b, i - 1, j)) {
        let rest = edit_script(a, b, i, j - 1);
        lemma_script_keeps_a_longest_common_subsequence(a, b, i, j - 1);
        assert(script.drop_last() =~= rest);
        assert(ps == kept_old(rest));
        assert(qs == kept_new(rest));
        assert forall|t: int| 0 <= t < ps.len() implies 0 <= #[trigger] ps[t] < i && 0 <= qs[t] < j
            && a[ps[t]] == b[qs[t]] by {
            assert(0 <= kept_old(rest)[t] < i);
        }
    } else {
        let rest = edit_script(a, b, i - 1, j);
        lemma_script_keeps_a_longest_common_subsequence(a, b, i - 1, j);
        assert(script.drop_last() =~= rest);
        assert(ps == kept_old(rest));
        assert(qs == kept_new(rest));
        assert forall|t: int| 0 <= t < ps.len() implies 0 <= #[trigger] ps[t] < i && 0 <= qs[t] < j
            && a[ps[t]] == b[qs[t]] by {
            assert(0 <= kept_old(rest)[t] < i - 1);
        }
    }
}

/// Do two pairs of sequences agree on which old item equals which new
/// item?
pub open spec fn same_equalities<S, T>(a: Seq<S>, b: Seq<S>, c: Seq<T>, d: Seq<T>) -> bool {
    &&& a.len() == c.len()
    &&& b.len() == d.len()
    &&& forall|p: int, q: int|
        0 <= p < a.len() && 0 <= q < b.len() ==> ((#[trigger] a[p] == #[trigger] b[q]) <==> c[p]
            == d[q])
}

/// An edit script depends only on which old item equals which new item,
/// not on what the items are.
pub proof fn lemma_script_of_same_equalities<S, T>(
    a: Seq<S>,
    b: Seq<S>,
    c: Seq<T>,
    d: Seq<T>,
    i: int,
    j: int,
)
    requires
        same_equalities(a, b, c, d),
        0 <= i <= a.len(),
        0 <= j <= b.len(),
    ensures
        lcs_len(a, b, i, j) == lcs_len(c, d, i, j),
        edit_script(a, b, i, j) == edit_script(c, d, i, j),
    decreases i + j,
{
    if i > 0 {
        lemma_script_of_same_equalities(a, b, c, d, i - 1, j);
    }
    if j > 0 {
        lemma_script_of_same_equalities(a, b, c, d, i, j - 1);
    }
    if i > 0 && j > 0 {
        lemma_script_of_same_equalities(a, b, c, d, i - 1, j - 1);
        assert((a[i - 1] == b[j - 1]) <==> c[i - 1] == d[j - 1]);
    }
}

/// The script of `n` steps in which row `t` stays row `t`.
pub open spec fn all_unchanged(n: nat) -> Seq<EditOp> {
    Seq::new(n, |t: int| EditOp::Unchanged(t as usize, t as usize))
}

/// The script for one row added at `p` among `m` old rows: the rows before
/// `p` stay where they are, and the rows from `p` on move down by one.
pub open spec fn one_added(m: nat, p: nat) -> Seq<EditOp> {
    Seq::new(
        m + 1,
        |t: int|
            if t < p {
                EditOp::Unchanged(t as usize, t as usize)
            } else if t == p {
                EditOp::Added(p as usize)
            } else {
                EditOp::Unchanged((t - 1) as usize, t as usize)
            },
    )
}

/// Where the first `i` items of two sequences agree, the script for them
/// holds `Unchanged` steps only, and all `i` items are common.
pub proof fn lemma_equal_prefixes<T>(a: Seq<T>, b: Seq<T>, i: int)
    requires
        0 <= i <= a.len(),
        i <= b.len(),
        forall|t: int| 0 <= t < i ==> a[t] == b[t],
    ensures
        edit_script(a, b, i, i) == all_unchanged(i as nat),
        lcs_len(a, b, i, i) == i,
    decreases i,
{
    if i > 0 {
        lemma_equal_prefixes(a, b, i - 1);
    }
    assert(edit_script(a, b, i, i) =~= all_unchanged(i as nat));
}

/// Two identical sequences of rows give a script of `Unchanged` steps only:
/// nothing is added and nothing is removed.
pub proof fn lemma_identical_rows_are_unchanged<T>(a: Seq<T>)
    ensures
        full_script(a, a) == all_unchanged(a.len()),
        removed_rows(full_script(a, a)) == Seq::<usize>::empty(),
        added_rows(full_script(a, a)) == Seq::<usize>::empty(),
{
    lemma_equal_prefixes(a, a, a.len() as int);
    lemma_all_unchanged_marks_nothing(a.len());
}

/// A script of `Unchanged` steps removes and adds no row.
pub proof fn lemma_all_unchanged_marks_nothing(n: nat)
    ensures
        removed_rows(all_unchanged(n)) == Seq::<usize>::empty(),
        added_rows(all_unchanged(n)) == Seq::<usize>::empty(),
        unchanged_count(all_unchanged(n)) == n,
    decreases n,
{
    if n > 0 {
        lemma_all_unchanged_marks_nothing((n - 1) as nat);
        assert(all_unchanged(n).drop_last() =~= all_unchanged((n - 1) as nat));
    }
}

/// Where a run of items equal to `x` ends just before position `k`, the
/// position at which that run starts; `k` itself where there is no such run.
pub open spec fn run_start<T>(a: Seq<T>, x: T, k: int) -> int
    decreases k,
{
    if k > 0 && a[k - 1] == x {
        run_start(a, x, k - 1)
    } else {
        k
    }
}

/// What [`run_start`] returns: the least position from which every item up
/// to `k` equals `x`.
pub proof fn lemma_run_start<T>(a: Seq<T>, x: T, k: int)
    requires
        0 <= k <= a.len(),
    ensures
        0 <= run_start(a, x, k) <= k,
        forall|t: int| run_start(a, x, k) <= t < k ==> a[t] == x,
        run_start(a, x, k) > 0 ==> a[run_start(a, x, k) - 1] != x,
        (k == 0 || a[k - 1] != x) ==> run_start(a, x, k) == k,
    decreases k,
{
    if k > 0 && a[k - 1] == x {
        lemma_run_start(a, x, k - 1);
    }
}

/// The script for the first `i` old rows and the first `i + 1` new rows,
/// where the new rows are the old ones with one row added at `p`.
proof fn lemma_one_added_from<T>(a: Seq<T>, b: Seq<T>, p: int, i: int)
    requires
        0 <= p <= i <= a.len(),
        b.len() == a.len() + 1,
        forall|t: int| 0 <= t < p ==> a[t] == b[t],
        forall|t: int| p <= t < a.len() ==> a[t] == b[t + 1],
        p > 0 ==> a[p - 1] != b[p],
    ensures
        edit_script(a, b, i, i + 1) == one_added(i as nat, p as nat),
    decreases i - p,
{
    if i > p {
        lemma_one_added_from(a, b, p, i - 1);
        assert(edit_script(a, b, i, i + 1) =~= one_added(i as nat, p as nat));
    } else {
        lemma_equal_prefixes(a, b, p);
        if p > 0 {
            lemma_lcs_len_bound(a, b, p - 1, p + 1);
        }
        assert(edit_script(a, b, p, p + 1) == edit_script(a, b, p, p).push(
            EditOp::Added(p as usize),
        ));
        assert(edit_script(a, b, i, i + 1) =~= one_added(i as nat, p as nat));
    }
}

/// What a script for one added row marks: the added row and no other.
pub proof fn lemma_one_added_marks(m: nat, p: nat)
    requires
        p <= m,
    ensures
        removed_rows(one_added(m, p)) == Seq::<usize>::empty(),
        added_rows(one_added(m, p)) == seq![p as usize],
        unchanged_count(one_added(m, p)) == m,
    decreases m,
{
    let script = one_added(m, p);
    if m == p {
        assert(script.drop_last() =~= all_unchanged(p));
        lemma_all_unchanged_marks_nothing(p);
        assert(added_rows(script) =~= seq![p as usize]);
    } else {
        assert(script.drop_last() =~= one_added((m - 1) as nat, p));
        lemma_one_added_marks((m - 1) as nat, p);
    }
}

/// Where the new rows are the old rows with one row `x` added at position
/// `k`, the script holds one `Added` step and `Unchanged` steps otherwise.
/// The added row is reported at the start `p` of the run of rows equal to
/// `x` that ends at `k`: taking the new row at `p` away gives the old
/// rows back, and `p` is `k` itself unless the row before `k` equals `x`.
pub proof fn lemma_one_inserted_row<T>(a: Seq<T>, x: T, k: int)
    requires
        0 <= k <= a.len(),
    ensures
        ({
            let b = a.insert(k, x);
            let p = run_start(a, x, k);
            &&& 0 <= p <= k
            &&& full_script(a, b) == one_added(a.len(), p as nat)
            &&& added_rows(full_script(a, b)) == seq![p as usize]
            &&& removed_rows(full_script(a, b)) == Seq::<usize>::empty()
            &&& unchanged_count(full_script(a, b)) == a.len()
            &&& b[p] == x
            &&& b.remove(p) == a
            &&& (k == 0 || a[k - 1] != x) ==> p == k
        }),
{
    let b = a.insert(k, x);
    let p = run_start(a, x, k);
    lemma_run_start(a, x, k);
    assert(b.len() == a.len() + 1);
    assert forall|t: int| 0 <= t < p implies a[t] == b[t] by {}
    assert forall|t: int| p <= t < a.len() implies a[t] == b[t + 1] by {
        if t + 1 < k {
            assert(b[t + 1] == a[t + 1]);
        }
    }
    lemma_one_added_from(a, b, p, a.len() as int);
    lemma_one_added_marks(a.len(), p as nat);
    assert(b.remove(p) =~= a);
}

} // verus!
