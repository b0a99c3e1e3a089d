//! Bases of the simplex method.
//!
//! A basis is described by two lists of column indices: the basic columns,
//! one per constraint row, and the non-basic columns. Every operation here
//! keeps the two lists a partition of the columns of the constraint matrix.

use vstd::prelude::*;

use crate::errors::MatrixFormError;
use crate::problem::VariableKind;

verus! {

/// `basic` and `non_basic` together list each of the columns `0..columns`
/// exactly once.
pub open spec fn is_column_partition(basic: Seq<usize>, non_basic: Seq<usize>, columns: nat) -> bool {
    &&& basic.no_duplicates()
    &&& non_basic.no_duplicates()
    &&& forall|i: int, j: int|
        0 <= i < basic.len() && 0 <= j < non_basic.len() ==> basic[i] != non_basic[j]
    &&& forall|i: int| 0 <= i < basic.len() ==> basic[i] < columns
    &&& forall|j: int| 0 <= j < non_basic.len() ==> non_basic[j] < columns
    &&& forall|c: usize| c < columns ==> basic.contains(c) || non_basic.contains(c)
}

/// The columns are pairwise distinct and all below `columns`.
pub open spec fn distinct_below(s: Seq<usize>, columns: nat) -> bool {
    &&& s.no_duplicates()
    &&& forall|i: int| 0 <= i < s.len() ==> s[i] < columns
}

/// `non_basic` lists, in increasing order, exactly the columns below
/// `columns` that do not occur in `basic`.
pub open spec fn is_complement(basic: Seq<usize>, non_basic: Seq<usize>, columns: nat) -> bool {
    &&& forall|i: int, j: int| 0 <= i < j < non_basic.len() ==> non_basic[i] < non_basic[j]
    &&& forall|j: int|
        0 <= j < non_basic.len() ==> non_basic[j] < columns && !basic.contains(non_basic[j])
    &&& forall|c: usize| c < columns && !basic.contains(c) ==> non_basic.contains(c)
}

/// Whether `column` occurs in `columns`.
pub fn contains_column(columns: &Vec<usize>, column: usize) -> (found: bool)
    ensures
        found == columns@.contains(column),
{
    let mut index: usize = 0;
    while index < columns.len()
        invariant
            index <= columns.len(),
            forall|i: int| 0 <= i < index ==> columns@[i] != column,
        decreases columns.len() - index,
    {
        if columns[index] == column {
            return true;
        }
        index = index + 1;
    }
    false
}

/// A basis whose basic columns are distinct and in range, completed by its
/// complement, is a partition of the columns.
pub proof fn lemma_complement_is_partition(basic: Seq<usize>, non_basic: Seq<usize>, columns: nat)
    requires
        distinct_below(basic, columns),
        is_complement(basic, non_basic, columns),
    ensures
        is_column_partition(basic, non_basic, columns),
{
    assert forall|i: int, j: int| 0 <= i < j < non_basic.len() implies non_basic[i] != non_basic[j] by {}
    assert forall|i: int, j: int|
        0 <= i < basic.len() && 0 <= j < non_basic.len() implies basic[i] != non_basic[j] by {
        assert(!basic.contains(non_basic[j]));
    }
}

/// The non-basic columns that go with `basic`: every column below `columns`
/// that is not basic, in increasing order.
pub fn non_basic_complement(basic: &Vec<usize>, columns: usize) -> (non_basic: Vec<usize>)
    ensures
        is_complement(basic@, non_basic@, columns as nat),
        distinct_below(basic@, columns as nat) ==> is_column_partition(
            basic@,
            non_basic@,
            columns as nat,
        ),
{
    let mut non_basic: Vec<usize> = Vec::new();
    let mut column: usize = 0;
    while column < columns
        invariant
            column <= columns,
            forall|i: int, j: int| 0 <= i < j < non_basic@.len() ==> non_basic@[i] < non_basic@[j],
            forall|j: int|
                0 <= j < non_basic@.len() ==> non_basic@[j] < column && !basic@.contains(
                    non_basic@[j],
                ),
            forall|c: usize| c < column && !basic@.contains(c) ==> non_basic@.contains(c),
        decreases columns - column,
    {
        if !contains_column(basic, column) {
            let ghost before = non_basic@;
            non_basic.push(column);
            assert forall|c: usize| c < column + 1 && !basic@.contains(c) implies non_basic@.contains(
                c,
            ) by {
                if c < column {
                    let k = choose|k: int| 0 <= k < before.len() && before[k] == c;
                    assert(non_basic@[k] == c);
                } else {
                    assert(non_basic@[non_basic@.len() - 1] == c);
                }
            }
        } else {
            assert forall|c: usize| c < column + 1 && !basic@.contains(c) implies non_basic@.contains(
                c,
            ) by {
                if c == column {
                    assert(basic@.contains(c));
                }
            }
        }
        column = column + 1;
    }
    proof {
        if distinct_below(basic@, columns as nat) {
            lemma_complement_is_partition(basic@, non_basic@, columns as nat);
        }
    }
    non_basic
}


/// The rows of a natural basis that have no basic column, in increasing order.
pub open spec fn rows_without_basis(natural: Seq<Option<usize>>) -> Seq<usize>
    decreases natural.len(),
{
    if natural.len() == 0 {
        Seq::empty()
    } else {
        let rest = rows_without_basis(natural.drop_last());
        if natural.last() is None {
            rest.push((natural.len() - 1) as usize)
        } else {
            rest
        }
    }
}

/// The basic column of each row of a natural basis, 0 where it has none.
pub open spec fn natural_columns(natural: Seq<Option<usize>>) -> Seq<usize> {
    natural.map_values(
        |entry: Option<usize>|
            match entry {
                Some(column) => column,
                None => 0,
            },
    )
}

proof fn lemma_rows_without_basis_push(natural: Seq<Option<usize>>, row: int)
    requires
        0 <= row < natural.len(),
    ensures
        natural.take(row + 1).drop_last() == natural.take(row),
        rows_without_basis(natural.take(row + 1)) == (if natural[row] is None {
            rows_without_basis(natural.take(row)).push(row as usize)
        } else {
            rows_without_basis(natural.take(row))
        }),
{
    assert(natural.take(row + 1).drop_last() =~= natural.take(row));
}

/// The rows listed are rows of `natural` without a basic column, increasing.
proof fn lemma_rows_without_basis_facts(natural: Seq<Option<usize>>)
    requires
        natural.len() <= usize::MAX + 1,
    ensures
        forall|i: int|
            0 <= i < rows_without_basis(natural).len() ==> {
                let row = #[trigger] rows_without_basis(natural)[i];
                row < natural.len() && natural[row as int] is None
            },
        forall|i: int, j: int|
            0 <= i < j < rows_without_basis(natural).len() ==> rows_without_basis(natural)[i]
                < rows_without_basis(natural)[j],
        forall|row: int|
            0 <= row < natural.len() && natural[row] is None ==> rows_without_basis(
                natural,
            ).contains(row as usize),
        rows_without_basis(natural).len() <= natural.len(),
    decreases natural.len(),
{
    if natural.len() > 0 {
        let rest = natural.drop_last();
        lemma_rows_without_basis_facts(rest);
        let all = rows_without_basis(natural);
        let before = rows_without_basis(rest);
        assert forall|i: int| 0 <= i < all.len() implies {
            let row = #[trigger] all[i];
            row < natural.len() && natural[row as int] is None
        } by {
            if i < before.len() {
                assert(all[i] == before[i]);
                assert(rest[all[i] as int] == natural[all[i] as int]);
            }
        }
        assert forall|i: int, j: int| 0 <= i < j < all.len() implies all[i] < all[j] by {
            if j < before.len() {
                assert(all[i] == before[i] && all[j] == before[j]);
            } else {
                assert(all[i] == before[i]);
                assert(before[i] < rest.len());
            }
        }
        assert forall|row: int| 0 <= row < natural.len() && natural[row] is None implies all.contains(
            row as usize,
        ) by {
            if row < natural.len() - 1 {
                assert(rest[row] == natural[row]);
                let k = choose|k: int| 0 <= k < before.len() && before[k] == row as usize;
                assert(all[k] == row as usize);
            } else {
                assert(all[all.len() - 1] == row as usize);
            }
        }
    }
}

/// Builds the basis of the second phase from a natural basis: each row keeps
/// its basic column. Fails, naming the rows, when some row has none.
pub fn basis_from_natural(natural_basis: &Vec<Option<usize>>, columns: usize) -> (result: Result<
    (Vec<usize>, Vec<usize>),
    MatrixFormError,
>)
    ensures
        match result {
            Ok((basic, non_basic)) => {
                &&& rows_without_basis(natural_basis@).len() == 0
                &&& basic@ == natural_columns(natural_basis@)
                &&& is_complement(basic@, non_basic@, columns as nat)
                &&& distinct_below(basic@, columns as nat) ==> is_column_partition(
                    basic@,
                    non_basic@,
                    columns as nat,
                )
            },
            Err(error) => {
                &&& rows_without_basis(natural_basis@).len() > 0
                &&& error matches MatrixFormError::MissingInitialBasis { rows } && rows@
                    == rows_without_basis(natural_basis@)
            },
        },
{
    let mut basic: Vec<usize> = Vec::new();
    let mut missing_rows: Vec<usize> = Vec::new();
    let mut row: usize = 0;
    while row < natural_basis.len()
        invariant
            row <= natural_basis@.len(),
            basic@ == natural_columns(natural_basis@.take(row as int)),
            missing_rows@ == rows_without_basis(natural_basis@.take(row as int)),
        decreases natural_basis.len() - row,
    {
        proof {
            lemma_rows_without_basis_push(natural_basis@, row as int);
        }
        match natural_basis[row] {
            Some(column) => basic.push(column),
            None => {
                basic.push(0);
                missing_rows.push(row);
            },
        }
        assert(basic@ =~= natural_columns(natural_basis@.take(row + 1)));
        row = row + 1;
    }
    assert(natural_basis@.take(row as int) =~= natural_basis@);
    if missing_rows.len() > 0 {
        return Err(MatrixFormError::MissingInitialBasis { rows: missing_rows });
    }
    let non_basic = non_basic_complement(&basic, columns);
    Ok((basic, non_basic))
}

/// The column that enters replaces the basic column of `leaving_row`; the
/// column that leaves takes the place of the entering one among the non-basic
/// columns.
pub fn change_basis(
    basic: &mut Vec<usize>,
    non_basic: &mut Vec<usize>,
    leaving_row: usize,
    entering_column: usize,
)
    requires
        leaving_row < old(basic)@.len(),
    ensures
        final(basic)@ == old(basic)@.update(leaving_row as int, entering_column),
        !old(non_basic)@.contains(entering_column) ==> final(non_basic)@ == old(non_basic)@,
        old(non_basic)@.contains(entering_column) ==> exists|position: int|
            {
                &&& 0 <= position < old(non_basic)@.len()
                &&& old(non_basic)@[position] == entering_column
                &&& forall|earlier: int|
                    0 <= earlier < position ==> old(non_basic)@[earlier] != entering_column
                &&& final(non_basic)@ == old(non_basic)@.update(
                    position,
                    old(basic)@[leaving_row as int],
                )
            },
        forall|columns: nat|
            is_column_partition(old(basic)@, old(non_basic)@, columns) && old(
                non_basic,
            )@.contains(entering_column) ==> is_column_partition(
                final(basic)@,
                final(non_basic)@,
                columns,
            ),
{
    let leaving_column = basic[leaving_row];
    basic.set(leaving_row, entering_column);
    let mut position: usize = 0;
    while position < non_basic.len()
        invariant
            position <= non_basic@.len(),
            non_basic@ == old(non_basic)@,
            leaving_row < old(basic)@.len(),
            leaving_column == old(basic)@[leaving_row as int],
            basic@ == old(basic)@.update(leaving_row as int, entering_column),
            forall|earlier: int| 0 <= earlier < position ==> non_basic@[earlier] != entering_column,
        decreases non_basic.len() - position,
    {
        if non_basic[position] == entering_column {
            non_basic.set(position, leaving_column);
            proof {
                lemma_exchange_keeps_partition(
                    old(basic)@,
                    old(non_basic)@,
                    leaving_row as int,
                    position as int,
                );
            }
            return;
        }
        position = position + 1;
    }
}

/// Exchanging a basic column with a non-basic one keeps the partition.
proof fn lemma_exchange_keeps_partition(
    basic: Seq<usize>,
    non_basic: Seq<usize>,
    row: int,
    position: int,
)
    requires
        0 <= row < basic.len(),
        0 <= position < non_basic.len(),
    ensures
        forall|columns: nat|
            is_column_partition(basic, non_basic, columns) ==> is_column_partition(
                basic.update(row, non_basic[position]),
                non_basic.update(position, basic[row]),
                columns,
            ),
{
    let new_basic = basic.update(row, non_basic[position]);
    let new_non_basic = non_basic.update(position, basic[row]);
    assert forall|columns: nat| is_column_partition(basic, non_basic, columns) implies is_column_partition(
        new_basic,
        new_non_basic,
        columns,
    ) by {
        assert forall|c: usize| c < columns implies new_basic.contains(c) || new_non_basic.contains(
            c,
        ) by {
            if basic.contains(c) {
                let i = choose|i: int| 0 <= i < basic.len() && basic[i] == c;
                if i == row {
                    assert(new_non_basic[position] == c);
                } else {
                    assert(new_basic[i] == c);
                }
            } else {
                let j = choose|j: int| 0 <= j < non_basic.len() && non_basic[j] == c;
                if j == position {
                    assert(new_basic[row] == c);
                } else {
                    assert(new_non_basic[j] == c);
                }
            }
        }
        assert forall|i: int, j: int|
            0 <= i < new_basic.len() && 0 <= j < new_non_basic.len() implies new_basic[i]
            != new_non_basic[j] by {
            if i == row && j == position {
                assert(basic[row] != non_basic[position]);
            }
        }
    }
}

/// A removed basic row: the row disappears from the basic columns and its
/// column becomes non-basic unless it already is.
pub fn retire_basic_row(basic: &mut Vec<usize>, non_basic: &mut Vec<usize>, row: usize)
    requires
        row < old(basic)@.len(),
    ensures
        final(basic)@ == old(basic)@.remove(row as int),
        final(non_basic)@ == (if old(non_basic)@.contains(old(basic)@[row as int]) {
            old(non_basic)@
        } else {
            old(non_basic)@.push(old(basic)@[row as int])
        }),
        forall|columns: nat|
            is_column_partition(old(basic)@, old(non_basic)@, columns) ==> is_column_partition(
                final(basic)@,
                final(non_basic)@,
                columns,
            ),
{
    let column = basic.remove(row);
    if !contains_column(non_basic, column) {
        non_basic.push(column);
    }
    proof {
        let b = old(basic)@;
        let nb = old(non_basic)@;
        let new_b = basic@;
        let new_nb = non_basic@;
        assert forall|columns: nat| is_column_partition(b, nb, columns) implies is_column_partition(
            new_b,
            new_nb,
            columns,
        ) by {
            assert(!nb.contains(column));
            assert forall|i: int, j: int| 0 <= i < j < new_b.len() implies new_b[i] != new_b[j] by {
                if i < row {
                    if j < row {
                    } else {
                        assert(new_b[j] == b[j + 1]);
                    }
                } else {
                    assert(new_b[i] == b[i + 1]);
                    assert(new_b[j] == b[j + 1]);
                }
            }
            assert forall|i: int, j: int| 0 <= i < j < new_nb.len() implies new_nb[i] != new_nb[j] by {
                if j == new_nb.len() - 1 {
                    assert(new_nb[j] == column);
                    assert(new_nb[i] == nb[i]);
                }
            }
            assert forall|i: int, j: int|
                0 <= i < new_b.len() && 0 <= j < new_nb.len() implies new_b[i] != new_nb[j] by {
                let bi = if i < row { i } else { i + 1 };
                assert(new_b[i] == b[bi]);
                if j == new_nb.len() - 1 {
                    assert(bi != row);
                } else {
                    assert(new_nb[j] == nb[j]);
                }
            }
            assert forall|i: int| 0 <= i < new_b.len() implies new_b[i] < columns by {
                if i >= row {
                    assert(new_b[i] == b[i + 1]);
                }
            }
            assert forall|c: usize| c < columns implies new_b.contains(c) || new_nb.contains(c) by {
                if c == column {
                    assert(new_nb[new_nb.len() - 1] == c);
                } else if b.contains(c) {
                    let i = choose|i: int| 0 <= i < b.len() && b[i] == c;
                    if i < row {
                        assert(new_b[i] == c);
                    } else {
                        assert(new_b[i - 1] == c);
                    }
                } else {
                    let j = choose|j: int| 0 <= j < nb.len() && nb[j] == c;
                    assert(new_nb[j] == c);
                }
            }
        }
    }
}


/// The number of rows before `row` that have no basic column.
pub open spec fn missing_before(natural: Seq<Option<usize>>, row: int) -> nat {
    rows_without_basis(natural.take(row)).len()
}

/// The basic columns of the first phase: each row keeps its natural basic
/// column, and the `k`-th row without one (counting from 0) gets the
/// artificial column `old_columns + k`.
pub open spec fn artificial_columns(natural: Seq<Option<usize>>, old_columns: nat) -> Seq<usize> {
    Seq::new(
        natural.len(),
        |row: int|
            match natural[row] {
                Some(column) => column,
                None => (old_columns + missing_before(natural, row)) as usize,
            },
    )
}

/// The natural basic columns are pairwise distinct and below `columns`.
pub open spec fn natural_basis_distinct_below(natural: Seq<Option<usize>>, columns: nat) -> bool {
    &&& forall|i: int, j: int|
        0 <= i < natural.len() && 0 <= j < natural.len() && i != j && natural[i] is Some
            && natural[j] is Some ==> natural[i]->0 != natural[j]->0
    &&& forall|i: int| 0 <= i < natural.len() && natural[i] is Some ==> natural[i]->0 < columns
}

/// Counting rows without a basic column grows with the row, by one at each
/// such row.
proof fn lemma_missing_before_grows(natural: Seq<Option<usize>>, first: int, second: int)
    requires
        0 <= first <= second <= natural.len(),
    ensures
        missing_before(natural, first) <= missing_before(natural, second),
        first < second && natural[first] is None ==> missing_before(natural, first) + 1
            <= missing_before(natural, second),
    decreases second - first,
{
    if first < second {
        lemma_missing_before_grows(natural, first, second - 1);
        lemma_rows_without_basis_push(natural, second - 1);
        if first == second - 1 {
        }
    }
}

/// The basis of the first phase: one artificial column is added for each row
/// that has no natural basic column, after the `old_columns` existing ones.
/// Returns the rows without a natural basic column, the basic columns and
/// the non-basic columns.
pub fn artificial_basis(natural_basis: &Vec<Option<usize>>, old_columns: usize) -> (result: (
    Vec<usize>,
    Vec<usize>,
    Vec<usize>,
))
    requires
        old_columns + natural_basis@.len() <= usize::MAX,
    ensures
        result.0@ == rows_without_basis(natural_basis@),
        result.1@ == artificial_columns(natural_basis@, old_columns as nat),
        is_complement(result.1@, result.2@, (old_columns + result.0@.len()) as nat),
        natural_basis_distinct_below(natural_basis@, old_columns as nat) ==> is_column_partition(
            result.1@,
            result.2@,
            (old_columns + result.0@.len()) as nat,
        ),
{
    let mut missing_rows: Vec<usize> = Vec::new();
    let mut basic: Vec<usize> = Vec::new();
    let mut row: usize = 0;
    while row < natural_basis.len()
        invariant
            row <= natural_basis@.len(),
            old_columns + natural_basis@.len() <= usize::MAX,
            missing_rows@ == rows_without_basis(natural_basis@.take(row as int)),
            basic@.len() == row,
            forall|r: int|
                0 <= r < row ==> basic@[r] == artificial_columns(
                    natural_basis@,
                    old_columns as nat,
                )[r],
        decreases natural_basis.len() - row,
    {
        proof {
            lemma_rows_without_basis_push(natural_basis@, row as int);
            lemma_rows_without_basis_facts(natural_basis@.take(row as int));
        }
        match natural_basis[row] {
            Some(column) => basic.push(column),
            None => {
                basic.push(old_columns + missing_rows.len());
                missing_rows.push(row);
            },
        }
        row = row + 1;
    }
    assert(natural_basis@.take(row as int) =~= natural_basis@);
    assert(basic@ =~= artificial_columns(natural_basis@, old_columns as nat));
    proof {
        lemma_rows_without_basis_facts(natural_basis@);
    }
    let columns = old_columns + missing_rows.len();
    let non_basic = non_basic_complement(&basic, columns);
    proof {
        if natural_basis_distinct_below(natural_basis@, old_columns as nat) {
            lemma_artificial_columns_distinct(natural_basis@, old_columns as nat);
        }
    }
    (missing_rows, basic, non_basic)
}

/// With distinct natural columns, the basic columns of the first phase are
/// distinct and below the enlarged number of columns.
proof fn lemma_artificial_columns_distinct(natural: Seq<Option<usize>>, old_columns: nat)
    requires
        natural_basis_distinct_below(natural, old_columns),
        old_columns + natural.len() <= usize::MAX,
    ensures
        distinct_below(
            artificial_columns(natural, old_columns),
            old_columns + rows_without_basis(natural).len(),
        ),
{
    let columns = artificial_columns(natural, old_columns);
    let total = rows_without_basis(natural).len();
    assert(natural.take(natural.len() as int) =~= natural);
    assert forall|row: int| 0 <= row < natural.len() implies columns[row] < old_columns + total by {
        lemma_missing_before_grows(natural, row, natural.len() as int);
    }
    assert forall|row: int| 0 <= row <= natural.len() implies missing_before(natural, row)
        <= row by {
        lemma_rows_without_basis_facts(natural.take(row));
    }
    assert forall|i: int, j: int| 0 <= i < j < columns.len() implies columns[i] != columns[j] by {
        lemma_missing_before_grows(natural, i, j);
        if natural[i] is Some && natural[j] is Some {
            assert(natural[i]->0 != natural[j]->0);
        }
    }
}

/// The columns of the artificial variables, from the last to the first:
/// removed one by one in this order, no column still to remove is
/// renumbered by an earlier removal.
pub fn artificial_columns_from_last(kinds: &Vec<VariableKind>) -> (columns: Vec<usize>)
    ensures
        forall|i: int|
            0 <= i < columns@.len() ==> #[trigger] columns@[i] < kinds@.len()
                && kinds@[columns@[i] as int] == VariableKind::Artificial,
        forall|c: usize|
            c < kinds@.len() && kinds@[c as int] == VariableKind::Artificial ==> columns@.contains(
                c,
            ),
        forall|i: int, j: int| 0 <= i < j < columns@.len() ==> columns@[i] > columns@[j],
{
    let mut columns: Vec<usize> = Vec::new();
    let mut next: usize = kinds.len();
    while next > 0
        invariant
            next <= kinds@.len(),
            forall|i: int|
                0 <= i < columns@.len() ==> next <= #[trigger] columns@[i] < kinds@.len()
                    && kinds@[columns@[i] as int] == VariableKind::Artificial,
            forall|c: usize|
                next <= c < kinds@.len() && kinds@[c as int] == VariableKind::Artificial
                    ==> columns@.contains(c),
            forall|i: int, j: int| 0 <= i < j < columns@.len() ==> columns@[i] > columns@[j],
        decreases next,
    {
        next = next - 1;
        if kinds[next] == VariableKind::Artificial {
            let ghost before = columns@;
            columns.push(next);
            assert forall|c: usize|
                next <= c < kinds@.len() && kinds@[c as int] == VariableKind::Artificial
                    implies columns@.contains(c) by {
                if c == next {
                    assert(columns@[columns@.len() - 1] == c);
                } else {
                    let k = choose|k: int| 0 <= k < before.len() && before[k] == c;
                    assert(columns@[k] == c);
                }
            }
        }
    }
    columns
}

/// The largest of the variables, 0 for none.
pub open spec fn max_or_zero(variables: Seq<usize>) -> nat
    decreases variables.len(),
{
    if variables.len() == 0 {
        0
    } else {
        let rest = max_or_zero(variables.drop_last());
        if variables.last() > rest {
            variables.last() as nat
        } else {
            rest
        }
    }
}

proof fn lemma_max_or_zero_bounds(variables: Seq<usize>)
    ensures
        forall|i: int| 0 <= i < variables.len() ==> variables[i] <= max_or_zero(variables),
        max_or_zero(variables) == 0 || variables.contains(max_or_zero(variables) as usize),
    decreases variables.len(),
{
    if variables.len() > 0 {
        let rest = variables.drop_last();
        lemma_max_or_zero_bounds(rest);
        assert forall|i: int| 0 <= i < variables.len() implies variables[i] <= max_or_zero(
            variables,
        ) by {
            if i < rest.len() {
                assert(variables[i] == rest[i]);
            }
        }
        if max_or_zero(variables) != 0 && max_or_zero(variables) == max_or_zero(rest) {
            let k = choose|k: int| 0 <= k < rest.len() && rest[k] == max_or_zero(rest) as usize;
            assert(variables[k] == rest[k]);
        }
    }
}

/// The largest of the variables, 0 for none.
pub fn highest_variable(variables: &Vec<usize>) -> (highest: usize)
    ensures
        highest == max_or_zero(variables@),
        forall|i: int| 0 <= i < variables@.len() ==> variables@[i] <= highest,
{
    let mut highest: usize = 0;
    let mut index: usize = 0;
    while index < variables.len()
        invariant
            index <= variables@.len(),
            highest == max_or_zero(variables@.take(index as int)),
        decreases variables.len() - index,
    {
        assert(variables@.take(index + 1).drop_last() =~= variables@.take(index as int));
        if variables[index] > highest {
            highest = variables[index];
        }
        index = index + 1;
    }
    assert(variables@.take(index as int) =~= variables@);
    proof {
        lemma_max_or_zero_bounds(variables@);
    }
    highest
}

/// Appends `count` new variables numbered after the largest existing one.
pub fn append_fresh_variables(variables: &mut Vec<usize>, count: usize)
    requires
        max_or_zero(old(variables)@) + count <= usize::MAX,
    ensures
        final(variables)@ == old(variables)@ + Seq::new(
            count as nat,
            |i: int| (max_or_zero(old(variables)@) + 1 + i) as usize,
        ),
        forall|i: int, j: int|
            0 <= i < old(variables)@.len() <= j < final(variables)@.len() ==> final(variables)@[i]
                < final(variables)@[j],
{
    let highest = highest_variable(variables);
    let ghost start = variables@;
    let mut added: usize = 0;
    while added < count
        invariant
            added <= count,
            highest == max_or_zero(start),
            highest + count <= usize::MAX,
            forall|i: int| 0 <= i < start.len() ==> start[i] <= highest,
            variables@ == start + Seq::new(added as nat, |i: int| (highest + 1 + i) as usize),
        decreases count - added,
    {
        variables.push(highest + 1 + added);
        added = added + 1;
        assert(variables@ =~= start + Seq::new(added as nat, |i: int| (highest + 1 + i) as usize));
    }
}

/// A column index after the column `removed` is deleted.
pub open spec fn shifted_column(column: usize, removed: usize) -> usize {
    if column > removed {
        (column - 1) as usize
    } else {
        column
    }
}

/// The non-basic columns after the column `removed` is deleted: it leaves
/// the list and the columns after it move down by one.
pub open spec fn drop_column(non_basic: Seq<usize>, removed: usize) -> Seq<usize>
    decreases non_basic.len(),
{
    if non_basic.len() == 0 {
        Seq::empty()
    } else {
        let rest = drop_column(non_basic.drop_last(), removed);
        if non_basic.last() == removed {
            rest
        } else {
            rest.push(shifted_column(non_basic.last(), removed))
        }
    }
}

proof fn lemma_drop_column_facts(non_basic: Seq<usize>, removed: usize)
    ensures
        forall|j: int|
            0 <= j < drop_column(non_basic, removed).len() ==> exists|k: int|
                0 <= k < non_basic.len() && non_basic[k] != removed && #[trigger] drop_column(
                    non_basic,
                    removed,
                )[j] == shifted_column(non_basic[k], removed),
        forall|k: int|
            0 <= k < non_basic.len() && non_basic[k] != removed ==> drop_column(
                non_basic,
                removed,
            ).contains(shifted_column(#[trigger] non_basic[k], removed)),
        non_basic.no_duplicates() ==> drop_column(non_basic, removed).no_duplicates(),
    decreases non_basic.len(),
{
    if non_basic.len() > 0 {
        let rest = non_basic.drop_last();
        lemma_drop_column_facts(rest, removed);
        let all = drop_column(non_basic, removed);
        let before = drop_column(rest, removed);
        assert forall|j: int| 0 <= j < all.len() implies exists|k: int|
            0 <= k < non_basic.len() && non_basic[k] != removed && #[trigger] all[j]
                == shifted_column(non_basic[k], removed) by {
            if j < before.len() {
                assert(all[j] == before[j]);
                let k = choose|k: int|
                    0 <= k < rest.len() && rest[k] != removed && before[j] == shifted_column(
                        rest[k],
                        removed,
                    );
                assert(non_basic[k] == rest[k]);
            } else {
                assert(all[j] == shifted_column(non_basic[non_basic.len() - 1], removed));
            }
        }
        assert forall|k: int| 0 <= k < non_basic.len() && non_basic[k] != removed implies all.contains(
            shifted_column(#[trigger] non_basic[k], removed),
        ) by {
            if k < rest.len() {
                assert(non_basic[k] == rest[k]);
                let j = choose|j: int|
                    0 <= j < before.len() && before[j] == shifted_column(rest[k], removed);
                assert(all[j] == before[j]);
            } else {
                assert(all[all.len() - 1] == shifted_column(non_basic[k], removed));
            }
        }
        if non_basic.no_duplicates() {
            assert(rest.no_duplicates()) by {
                assert forall|i: int, j: int| 0 <= i < j < rest.len() implies rest[i] != rest[j] by {
                    assert(rest[i] == non_basic[i] && rest[j] == non_basic[j]);
                }
            }
            if non_basic.last() != removed {
                let last = non_basic.last();
                assert forall|j: int| 0 <= j < before.len() implies before[j] != shifted_column(
                    last,
                    removed,
                ) by {
                    let k = choose|k: int|
                        0 <= k < rest.len() && rest[k] != removed && before[j] == shifted_column(
                            rest[k],
                            removed,
                        );
                    assert(rest[k] == non_basic[k]);
                    assert(non_basic[k] != non_basic[non_basic.len() - 1]);
                }
                assert forall|i: int, j: int| 0 <= i < j < all.len() implies all[i] != all[j] by {
                    if j == all.len() - 1 {
                        assert(all[i] == before[i]);
                    } else {
                        assert(all[i] == before[i] && all[j] == before[j]);
                    }
                }
            }
        }
    }
}

/// Renumbers a basis after the non-basic column `removed` is deleted from
/// the constraint matrix.
pub fn remove_column_from_basis(basic: &mut Vec<usize>, non_basic: &mut Vec<usize>, removed: usize)
    ensures
        final(basic)@ == old(basic)@.map_values(|column: usize| shifted_column(column, removed)),
        final(non_basic)@ == drop_column(old(non_basic)@, removed),
        forall|columns: nat|
            columns <= usize::MAX && is_column_partition(old(basic)@, old(non_basic)@, columns)
                && old(non_basic)@.contains(removed) ==> is_column_partition(
                final(basic)@,
                final(non_basic)@,
                (columns - 1) as nat,
            ),
{
    let mut index: usize = 0;
    while index < basic.len()
        invariant
            index <= basic@.len(),
            basic@.len() == old(basic)@.len(),
            forall|i: int|
                0 <= i < index ==> basic@[i] == shifted_column(old(basic)@[i], removed),
            forall|i: int| index <= i < basic@.len() ==> basic@[i] == old(basic)@[i],
        decreases basic.len() - index,
    {
        let column = basic[index];
        if column > removed {
            basic.set(index, column - 1);
        }
        index = index + 1;
    }
    assert(basic@ =~= old(basic)@.map_values(|column: usize| shifted_column(column, removed)));
    let mut kept: Vec<usize> = Vec::new();
    let mut position: usize = 0;
    while position < non_basic.len()
        invariant
            position <= non_basic@.len(),
            kept@ == drop_column(non_basic@.take(position as int), removed),
        decreases non_basic.len() - position,
    {
        assert(non_basic@.take(position + 1).drop_last() =~= non_basic@.take(position as int));
        let column = non_basic[position];
        if column != removed {
            if column > removed {
                kept.push(column - 1);
            } else {
                kept.push(column);
            }
        }
        position = position + 1;
    }
    assert(non_basic@.take(position as int) =~= non_basic@);
    proof {
        lemma_drop_column_keeps_partition(old(basic)@, old(non_basic)@, removed);
    }
    *non_basic = kept;
}

proof fn lemma_drop_column_keeps_partition(basic: Seq<usize>, non_basic: Seq<usize>, removed: usize)
    ensures
        forall|columns: nat|
            columns <= usize::MAX && is_column_partition(basic, non_basic, columns)
                && non_basic.contains(removed) ==> is_column_partition(
                basic.map_values(|column: usize| shifted_column(column, removed)),
                drop_column(non_basic, removed),
                (columns - 1) as nat,
            ),
{
    lemma_drop_column_facts(non_basic, removed);
    let new_basic = basic.map_values(|column: usize| shifted_column(column, removed));
    let new_non_basic = drop_column(non_basic, removed);
    assert forall|columns: nat|
        columns <= usize::MAX && is_column_partition(basic, non_basic, columns)
            && non_basic.contains(removed) implies is_column_partition(new_basic, new_non_basic, (columns - 1) as nat) by {
        assert(!basic.contains(removed));
        assert forall|i: int| 0 <= i < basic.len() implies basic[i] != removed by {
            if basic[i] == removed {
                assert(basic.contains(removed));
            }
        }
        assert forall|i: int, j: int| 0 <= i < j < new_basic.len() implies new_basic[i]
            != new_basic[j] by {
            assert(basic[i] != basic[j]);
        }
        assert forall|i: int, j: int|
            0 <= i < new_basic.len() && 0 <= j < new_non_basic.len() implies new_basic[i]
            != new_non_basic[j] by {
            let k = choose|k: int|
                0 <= k < non_basic.len() && non_basic[k] != removed && new_non_basic[j]
                    == shifted_column(non_basic[k], removed);
            assert(basic[i] != non_basic[k]);
        }
        assert forall|i: int| 0 <= i < new_basic.len() implies new_basic[i] < columns - 1 by {
            assert(basic[i] < columns);
        }
        assert forall|j: int| 0 <= j < new_non_basic.len() implies new_non_basic[j] < columns
            - 1 by {
            let k = choose|k: int|
                0 <= k < non_basic.len() && non_basic[k] != removed && new_non_basic[j]
                    == shifted_column(non_basic[k], removed);
            assert(non_basic[k] < columns);
        }
        assert forall|c: usize| c < columns - 1 implies new_basic.contains(c)
            || new_non_basic.contains(c) by {
            let original: usize = if c < removed {
                c
            } else {
                (c + 1) as usize
            };
            assert(original < columns);
            if basic.contains(original) {
                let i = choose|i: int| 0 <= i < basic.len() && basic[i] == original;
                assert(original != removed);
                assert(shifted_column(original, removed) == c);
                assert(new_basic[i] == shifted_column(basic[i], removed));
            } else {
                let k = choose|k: int| 0 <= k < non_basic.len() && non_basic[k] == original;
                assert(original != removed);
                assert(shifted_column(non_basic[k], removed) == c);
                assert(new_non_basic.contains(shifted_column(non_basic[k], removed)));
            }
        }
    }
}

} // verus!
