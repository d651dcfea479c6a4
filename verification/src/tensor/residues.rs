//! Whole numbers up to multiples of a modulus, and their sums.
use vstd::prelude::*;

verus! {

/// Two numbers are the same up to a multiple of the modulus. With a modulus of zero they are equal.
pub open spec fn same(modulus: int, one: int, other: int) -> bool {
    exists|times: int| one - other == #[trigger] (modulus * times)
}

pub proof fn lemma_same_refl(modulus: int, one: int)
    ensures
        same(modulus, one, one),
{
    assert(one - one == modulus * 0) by (nonlinear_arith);
}

pub proof fn lemma_same_trans(modulus: int, one: int, other: int, third: int)
    requires
        same(modulus, one, other),
        same(modulus, other, third),
    ensures
        same(modulus, one, third),
{
    let p = choose|times: int| one - other == #[trigger] (modulus * times);
    let q = choose|times: int| other - third == #[trigger] (modulus * times);
    assert(one - third == modulus * (p + q)) by (nonlinear_arith)
        requires
            one - other == modulus * p,
            other - third == modulus * q,
    ;
}

pub proof fn lemma_same_swap(modulus: int, one: int, other: int)
    requires
        same(modulus, one, other),
    ensures
        same(modulus, other, one),
{
    let p = choose|times: int| one - other == #[trigger] (modulus * times);
    assert(other - one == modulus * (-p)) by (nonlinear_arith)
        requires
            one - other == modulus * p,
    ;
}

pub proof fn lemma_same_add(modulus: int, one: int, other: int, more: int, rest: int)
    requires
        same(modulus, one, other),
        same(modulus, more, rest),
    ensures
        same(modulus, one + more, other + rest),
        same(modulus, one - more, other - rest),
{
    let p = choose|times: int| one - other == #[trigger] (modulus * times);
    let q = choose|times: int| more - rest == #[trigger] (modulus * times);
    assert((one + more) - (other + rest) == modulus * (p + q)) by (nonlinear_arith)
        requires
            one - other == modulus * p,
            more - rest == modulus * q,
    ;
    assert((one - more) - (other - rest) == modulus * (p - q)) by (nonlinear_arith)
        requires
            one - other == modulus * p,
            more - rest == modulus * q,
    ;
}

pub proof fn lemma_same_mul(modulus: int, one: int, other: int, more: int, rest: int)
    requires
        same(modulus, one, other),
        same(modulus, more, rest),
    ensures
        same(modulus, one * more, other * rest),
{
    let p = choose|times: int| one - other == #[trigger] (modulus * times);
    let q = choose|times: int| more - rest == #[trigger] (modulus * times);
    assert(one * more - other * rest == modulus * (p * more + other * q)) by (nonlinear_arith)
        requires
            one - other == modulus * p,
            more - rest == modulus * q,
    ;
}

/// The sum of the first `count` numbers of a list.
pub open spec fn total(count: nat, each: spec_fn(int) -> int) -> int
    decreases count,
{
    if count == 0 {
        0
    } else {
        total((count - 1) as nat, each) + each(count - 1)
    }
}

/// Lists that are the same number by number have the same sum.
pub proof fn lemma_total_same(
    modulus: int,
    count: nat,
    each: spec_fn(int) -> int,
    other: spec_fn(int) -> int,
)
    requires
        forall|k: int| 0 <= k < count ==> same(modulus, #[trigger] each(k), other(k)),
    ensures
        same(modulus, total(count, each), total(count, other)),
    decreases count,
{
    if count == 0 {
        lemma_same_refl(modulus, 0);
    } else {
        lemma_total_same(modulus, (count - 1) as nat, each, other);
        assert(same(modulus, each(count - 1), other(count - 1)));
        lemma_same_add(
            modulus,
            total((count - 1) as nat, each),
            total((count - 1) as nat, other),
            each(count - 1),
            other(count - 1),
        );
    }
}

pub proof fn lemma_total_equal(
    count: nat,
    each: spec_fn(int) -> int,
    other: spec_fn(int) -> int,
)
    requires
        forall|k: int| 0 <= k < count ==> #[trigger] each(k) == other(k),
    ensures
        total(count, each) == total(count, other),
    decreases count,
{
    if count > 0 {
        lemma_total_equal((count - 1) as nat, each, other);
        assert(each(count - 1) == other(count - 1));
    }
}

pub proof fn lemma_total_add(
    count: nat,
    each: spec_fn(int) -> int,
    other: spec_fn(int) -> int,
    both: spec_fn(int) -> int,
)
    requires
        forall|k: int| 0 <= k < count ==> #[trigger] both(k) == each(k) + other(k),
    ensures
        total(count, both) == total(count, each) + total(count, other),
    decreases count,
{
    if count > 0 {
        lemma_total_add((count - 1) as nat, each, other, both);
        assert(both(count - 1) == each(count - 1) + other(count - 1));
    }
}

pub proof fn lemma_total_scale(
    count: nat,
    factor: int,
    each: spec_fn(int) -> int,
    scaled: spec_fn(int) -> int,
)
    requires
        forall|k: int| 0 <= k < count ==> #[trigger] scaled(k) == factor * each(k),
    ensures
        total(count, scaled) == factor * total(count, each),
    decreases count,
{
    if count == 0 {
        assert(factor * 0 == 0) by (nonlinear_arith);
    } else {
        lemma_total_scale((count - 1) as nat, factor, each, scaled);
        assert(scaled(count - 1) == factor * each(count - 1));
        let (rest, last) = (total((count - 1) as nat, each), each(count - 1));
        assert(factor * (rest + last) == factor * rest + factor * last) by (nonlinear_arith);
    }
}

/// The sum over a table, row by row.
pub open spec fn table(rows: nat, columns: nat, each: spec_fn(int, int) -> int) -> int {
    total(rows, |i: int| total(columns, |j: int| each(i, j)))
}

/// A table may be summed column by column.
pub proof fn lemma_table_exchange(rows: nat, columns: nat, each: spec_fn(int, int) -> int)
    ensures
        table(rows, columns, each) == table(columns, rows, |j: int, i: int| each(i, j)),
    decreases rows,
{
    let turned = |j: int, i: int| each(i, j);
    let by_row = |i: int| total(columns, |j: int| each(i, j));
    let by_column = |j: int| total(rows, |i: int| turned(j, i));
    if rows == 0 {
        lemma_total_zero(columns, by_column);
    } else {
        let fewer = (rows - 1) as nat;
        lemma_table_exchange(fewer, columns, each);
        let shorter = |j: int| total(fewer, |i: int| turned(j, i));
        let last = |j: int| each(rows - 1, j);
        assert forall|j: int| 0 <= j < columns implies #[trigger] by_column(j) == shorter(j) + last(
            j,
        ) by {
            lemma_total_equal(fewer, |i: int| turned(j, i), |i: int| turned(j, i));
        }
        lemma_total_add(columns, shorter, last, by_column);
        lemma_total_equal(columns, last, |j: int| each(rows - 1, j));
        assert(by_row(rows - 1) == total(columns, |j: int| each(rows - 1, j)));
    }
}

pub proof fn lemma_total_zero(count: nat, each: spec_fn(int) -> int)
    requires
        forall|k: int| 0 <= k < count ==> #[trigger] each(k) == 0,
    ensures
        total(count, each) == 0,
    decreases count,
{
    if count > 0 {
        lemma_total_zero((count - 1) as nat, each);
        assert(each(count - 1) == 0);
    }
}

/// A sum over the places of a row-major table is a sum over its rows and columns.
pub proof fn lemma_grid(
    rows: nat,
    columns: nat,
    flat: spec_fn(int) -> int,
    each: spec_fn(int, int) -> int,
)
    requires
        forall|i: int, j: int|
            0 <= i < rows && 0 <= j < columns ==> flat(i * columns + j) == #[trigger] each(i, j),
    ensures
        total(rows * columns, flat) == table(rows, columns, each),
    decreases rows,
{
    let by_row = |i: int| total(columns, |j: int| each(i, j));
    if rows == 0 {
        assert(rows * columns == 0) by (nonlinear_arith)
            requires
                rows == 0,
        ;
    } else {
        let fewer = (rows - 1) as nat;
        lemma_grid(fewer, columns, flat, each);
        let start = fewer * columns;
        assert(rows * columns == start + columns) by (nonlinear_arith)
            requires
                rows == fewer + 1,
                start == fewer * columns,
        ;
        let last = |j: int| each(rows - 1, j);
        assert forall|j: int| 0 <= j < columns implies #[trigger] last(j) == flat(start + j) by {
            assert(flat((rows - 1) * columns + j) == each(rows - 1, j));
        }
        lemma_total_split(start, columns, flat, last);
        lemma_total_equal(columns, last, |j: int| each(rows - 1, j));
        assert(by_row(rows - 1) == total(columns, |j: int| each(rows - 1, j)));
    }
}

/// The sum of a list is that of its first part and that of the rest.
pub proof fn lemma_total_split(
    start: nat,
    count: nat,
    each: spec_fn(int) -> int,
    rest: spec_fn(int) -> int,
)
    requires
        forall|k: int| 0 <= k < count ==> #[trigger] rest(k) == each(start + k),
    ensures
        total(start + count, each) == total(start, each) + total(count, rest),
    decreases count,
{
    if count > 0 {
        lemma_total_split(start, (count - 1) as nat, each, rest);
        assert(rest(count - 1) == each(start + count - 1));
        assert((start + count - 1) as nat == start + (count - 1) as nat);
    }
}

pub proof fn lemma_table_same(
    modulus: int,
    rows: nat,
    columns: nat,
    each: spec_fn(int, int) -> int,
    other: spec_fn(int, int) -> int,
)
    requires
        forall|i: int, j: int|
            0 <= i < rows && 0 <= j < columns ==> same(modulus, #[trigger] each(i, j), other(i, j)),
    ensures
        same(modulus, table(rows, columns, each), table(rows, columns, other)),
{
    let one = |i: int| total(columns, |j: int| each(i, j));
    let two = |i: int| total(columns, |j: int| other(i, j));
    assert forall|i: int| 0 <= i < rows implies same(modulus, #[trigger] one(i), two(i)) by {
        let (first, second) = (|j: int| each(i, j), |j: int| other(i, j));
        assert forall|j: int| 0 <= j < columns implies same(
            modulus,
            #[trigger] first(j),
            second(j),
        ) by {
            assert(same(modulus, each(i, j), other(i, j)));
        }
        lemma_total_same(modulus, columns, first, second);
    }
    lemma_total_same(modulus, rows, one, two);
}

pub proof fn lemma_table_equal(
    rows: nat,
    columns: nat,
    each: spec_fn(int, int) -> int,
    other: spec_fn(int, int) -> int,
)
    requires
        forall|i: int, j: int|
            0 <= i < rows && 0 <= j < columns ==> #[trigger] each(i, j) == other(i, j),
    ensures
        table(rows, columns, each) == table(rows, columns, other),
{
    let one = |i: int| total(columns, |j: int| each(i, j));
    let two = |i: int| total(columns, |j: int| other(i, j));
    assert forall|i: int| 0 <= i < rows implies #[trigger] one(i) == two(i) by {
        let (first, second) = (|j: int| each(i, j), |j: int| other(i, j));
        assert forall|j: int| 0 <= j < columns implies #[trigger] first(j) == second(j) by {
            assert(each(i, j) == other(i, j));
        }
        lemma_total_equal(columns, first, second);
    }
    lemma_total_equal(rows, one, two);
}

pub proof fn lemma_table_add(
    rows: nat,
    columns: nat,
    each: spec_fn(int, int) -> int,
    other: spec_fn(int, int) -> int,
    both: spec_fn(int, int) -> int,
)
    requires
        forall|i: int, j: int|
            0 <= i < rows && 0 <= j < columns ==> #[trigger] both(i, j) == each(i, j) + other(i, j),
    ensures
        table(rows, columns, both) == table(rows, columns, each) + table(rows, columns, other),
{
    let one = |i: int| total(columns, |j: int| each(i, j));
    let two = |i: int| total(columns, |j: int| other(i, j));
    let sum = |i: int| total(columns, |j: int| both(i, j));
    assert forall|i: int| 0 <= i < rows implies #[trigger] sum(i) == one(i) + two(i) by {
        let (first, second) = (|j: int| each(i, j), |j: int| other(i, j));
        let third = |j: int| both(i, j);
        assert forall|j: int| 0 <= j < columns implies #[trigger] third(j) == first(j) + second(
            j,
        ) by {
            assert(both(i, j) == each(i, j) + other(i, j));
        }
        lemma_total_add(columns, first, second, third);
    }
    lemma_total_add(rows, one, two, sum);
}

/// Three nested sums, the outermost first.
pub open spec fn cube(
    first: nat,
    second: nat,
    third: nat,
    each: spec_fn(int, int, int) -> int,
) -> int {
    total(first, |i: int| table(second, third, |j: int, l: int| each(i, j, l)))
}

/// The two inner sums may be exchanged.
pub proof fn lemma_cube_inner(
    first: nat,
    second: nat,
    third: nat,
    each: spec_fn(int, int, int) -> int,
)
    ensures
        cube(first, second, third, each) == cube(
            first,
            third,
            second,
            |i: int, l: int, j: int| each(i, j, l),
        ),
{
    let turned = |i: int, l: int, j: int| each(i, j, l);
    let one = |i: int| table(second, third, |j: int, l: int| each(i, j, l));
    let two = |i: int| table(third, second, |l: int, j: int| turned(i, l, j));
    assert forall|i: int| 0 <= i < first implies #[trigger] one(i) == two(i) by {
        let inner = |j: int, l: int| each(i, j, l);
        lemma_table_exchange(second, third, inner);
        lemma_table_equal(
            third,
            second,
            |l: int, j: int| inner(j, l),
            |l: int, j: int| turned(i, l, j),
        );
    }
    lemma_total_equal(first, one, two);
}

/// The two outer sums may be exchanged.
pub proof fn lemma_cube_outer(
    first: nat,
    second: nat,
    third: nat,
    each: spec_fn(int, int, int) -> int,
)
    ensures
        cube(first, second, third, each) == cube(
            second,
            first,
            third,
            |j: int, i: int, l: int| each(i, j, l),
        ),
{
    let turned = |j: int, i: int, l: int| each(i, j, l);
    let lines = |i: int, j: int| total(third, |l: int| each(i, j, l));
    let columns = |j: int, i: int| total(third, |l: int| turned(j, i, l));
    lemma_cube_lines(first, second, third, each, lines);
    lemma_cube_lines(second, first, third, turned, columns);
    lemma_table_exchange(first, second, lines);
    let other = |j: int, i: int| lines(i, j);
    assert forall|j: int, i: int| 0 <= j < second && 0 <= i < first implies #[trigger] columns(j, i)
        == other(j, i) by {
        lemma_total_equal(third, |l: int| turned(j, i, l), |l: int| each(i, j, l));
    }
    lemma_table_equal(second, first, columns, other);
}

/// A product of matrices, paired with weights, is as far from zero in the direction of both factors
/// as it is in the directions of each: the weights may be carried over to either factor.
pub proof fn lemma_bilinear(
    rows: nat,
    columns: nat,
    inner: nat,
    weight: spec_fn(int, int) -> int,
    a: spec_fn(int, int) -> int,
    da: spec_fn(int, int) -> int,
    b: spec_fn(int, int) -> int,
    db: spec_fn(int, int) -> int,
)
    ensures
        table(
            rows,
            columns,
            |i: int, j: int|
                weight(i, j) * total(inner, |l: int| a(i, l) * db(l, j) + da(i, l) * b(l, j)),
        ) == table(
            rows,
            inner,
            |i: int, l: int| total(columns, |j: int| weight(i, j) * b(l, j)) * da(i, l),
        ) + table(
            inner,
            columns,
            |l: int, j: int| total(rows, |i: int| a(i, l) * weight(i, j)) * db(l, j),
        ),
{
    let by_b = |i: int, j: int, l: int| (weight(i, j) * a(i, l)) * db(l, j);
    let by_a = |i: int, j: int, l: int| (weight(i, j) * da(i, l)) * b(l, j);
    let whole = |i: int, j: int|
        weight(i, j) * total(inner, |l: int| a(i, l) * db(l, j) + da(i, l) * b(l, j));
    let part_b = |i: int, j: int| total(inner, |l: int| by_b(i, j, l));
    let part_a = |i: int, j: int| total(inner, |l: int| by_a(i, j, l));
    assert forall|i: int, j: int|
        0 <= i < rows && 0 <= j < columns implies #[trigger] whole(i, j) == part_b(i, j) + part_a(
        i,
        j,
    ) by {
        let line = |l: int| a(i, l) * db(l, j) + da(i, l) * b(l, j);
        let (first, second) = (|l: int| by_b(i, j, l), |l: int| by_a(i, j, l));
        let both = |l: int| weight(i, j) * line(l);
        assert forall|l: int| 0 <= l < inner implies #[trigger] both(l) == first(l) + second(l) by {
            let (w, x, y, dx, dy) = (weight(i, j), a(i, l), b(l, j), da(i, l), db(l, j));
            assert(w * (x * dy + dx * y) == (w * x) * dy + (w * dx) * y) by (nonlinear_arith);
        }
        lemma_total_add(inner, first, second, both);
        lemma_total_scale(inner, weight(i, j), line, both);
    }
    lemma_table_add(rows, columns, part_b, part_a, whole);
    // The part in the direction of the left factor.
    let left = |i: int, l: int| total(columns, |j: int| weight(i, j) * b(l, j)) * da(i, l);
    let turned_a = |i: int, l: int, j: int| by_a(i, j, l);
    lemma_cube_inner(rows, columns, inner, by_a);
    lemma_cube_lines(rows, columns, inner, by_a, part_a);
    let lines_a = |i: int, l: int| total(columns, |j: int| turned_a(i, l, j));
    lemma_cube_lines(rows, inner, columns, turned_a, lines_a);
    assert forall|i: int, l: int| 0 <= i < rows && 0 <= l < inner implies #[trigger] lines_a(i, l)
        == left(i, l) by {
        let line = |j: int| weight(i, j) * b(l, j);
        let scaled = |j: int| turned_a(i, l, j);
        assert forall|j: int| 0 <= j < columns implies #[trigger] scaled(j) == da(i, l) * line(j) by {
            let (w, y, dx) = (weight(i, j), b(l, j), da(i, l));
            assert((w * dx) * y == dx * (w * y)) by (nonlinear_arith);
        }
        lemma_total_scale(columns, da(i, l), line, scaled);
        let sum = total(columns, line);
        assert(da(i, l) * sum == sum * da(i, l)) by (nonlinear_arith);
    }
    lemma_table_equal(rows, inner, lines_a, left);
    // The part in the direction of the right factor.
    let right = |l: int, j: int| total(rows, |i: int| a(i, l) * weight(i, j)) * db(l, j);
    lemma_cube_lines(rows, columns, inner, by_b, part_b);
    lemma_cube_inner(rows, columns, inner, by_b);
    let second = |i: int, l: int, j: int| by_b(i, j, l);
    lemma_cube_outer(rows, inner, columns, second);
    let third = |l: int, i: int, j: int| second(i, l, j);
    lemma_cube_inner(inner, rows, columns, third);
    let fourth = |l: int, j: int, i: int| third(l, i, j);
    let lines_b = |l: int, j: int| total(rows, |i: int| fourth(l, j, i));
    lemma_cube_lines(inner, columns, rows, fourth, lines_b);
    assert forall|l: int, j: int| 0 <= l < inner && 0 <= j < columns implies #[trigger] lines_b(
        l,
        j,
    ) == right(l, j) by {
        let line = |i: int| a(i, l) * weight(i, j);
        let scaled = |i: int| fourth(l, j, i);
        assert forall|i: int| 0 <= i < rows implies #[trigger] scaled(i) == db(l, j) * line(i) by {
            let (w, x, dy) = (weight(i, j), a(i, l), db(l, j));
            assert((w * x) * dy == dy * (x * w)) by (nonlinear_arith);
        }
        lemma_total_scale(rows, db(l, j), line, scaled);
        let sum = total(rows, line);
        assert(db(l, j) * sum == sum * db(l, j)) by (nonlinear_arith);
    }
    lemma_table_equal(inner, columns, lines_b, right);
}

/// Three nested sums are two nested sums of the innermost ones.
pub proof fn lemma_cube_lines(
    first: nat,
    second: nat,
    third: nat,
    each: spec_fn(int, int, int) -> int,
    lines: spec_fn(int, int) -> int,
)
    requires
        forall|i: int, j: int| #[trigger] lines(i, j) == total(third, |l: int| each(i, j, l)),
    ensures
        cube(first, second, third, each) == table(first, second, lines),
{
    let one = |i: int| table(second, third, |j: int, l: int| each(i, j, l));
    let two = |i: int| total(second, |j: int| lines(i, j));
    assert forall|i: int| 0 <= i < first implies #[trigger] one(i) == two(i) by {
        let slice = |j: int, l: int| each(i, j, l);
        let left = |j: int| total(third, |l: int| slice(j, l));
        let right = |j: int| lines(i, j);
        assert forall|j: int| 0 <= j < second implies #[trigger] left(j) == right(j) by {
            lemma_total_equal(third, |l: int| slice(j, l), |l: int| each(i, j, l));
        }
        lemma_total_equal(second, left, right);
    }
    lemma_total_equal(first, one, two);
}

} // verus!
