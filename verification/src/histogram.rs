//! The histogram of a count table as text: one row for each name, the
//! longest bar for the largest count.

use crate::names::{
    comes_before, lemma_name_before_irreflexive, lemma_name_before_total,
    lemma_name_before_transitive, name_before,
};
use crate::storage::TracableStorage;
use crate::table::{CountTable, Row};
use crate::text::{
    decimal, decimal_string, pad_left, pad_right, push_padded, push_padded_left, push_repeat, repeat,
};
use vstd::prelude::*;
use vstd::seq_lib::to_multiset_build;

verus! {

/// The width of the bar column, and the length of the bar of the largest
/// count.
pub const BAR_WIDTH: usize = 50;

/// Whether the row `a` stands above the row `b` in a histogram: it has the
/// larger count, or the same count and the name that comes first.
pub open spec fn row_before(a: Row, b: Row) -> bool {
    a.count > b.count || (a.count == b.count && name_before(a.name, b.name))
}

/// `sorted` with `r` put in above the rows at its end that `r` stands above.
pub open spec fn insert_row(sorted: Seq<Row>, r: Row) -> Seq<Row>
    decreases sorted.len(),
{
    if sorted.len() == 0 || !row_before(r, sorted.last()) {
        sorted.push(r)
    } else {
        insert_row(sorted.drop_last(), r).push(sorted.last())
    }
}

/// The rows in the order of a histogram: by falling count, and rows of one
/// count by name.
pub open spec fn by_count(rows: Seq<Row>) -> Seq<Row>
    decreases rows.len(),
{
    if rows.len() == 0 {
        Seq::empty()
    } else {
        insert_row(by_count(rows.drop_last()), rows.last())
    }
}

/// Whether no row stands below a row that it stands above.
pub open spec fn in_order(rows: Seq<Row>) -> bool {
    forall|i: int, j: int| 0 <= i < j < rows.len() ==> !row_before(rows[j], rows[i])
}

/// The largest of `least` and the sizes of the rows.
pub open spec fn largest(rows: Seq<Row>, size: spec_fn(Row) -> nat, least: nat) -> nat
    decreases rows.len(),
{
    if rows.len() == 0 {
        least
    } else if size(rows.last()) > largest(rows.drop_last(), size, least) {
        size(rows.last())
    } else {
        largest(rows.drop_last(), size, least)
    }
}

/// The count of a row.
pub open spec fn count_size() -> spec_fn(Row) -> nat {
    |r: Row| r.count
}

/// The number of characters of a row's name.
pub open spec fn name_size() -> spec_fn(Row) -> nat {
    |r: Row| r.name.len()
}

/// The number of digits of a row's count.
pub open spec fn digits_size() -> spec_fn(Row) -> nat {
    |r: Row| decimal(r.count).len()
}

/// The largest count, 0 without rows.
pub open spec fn max_count(rows: Seq<Row>) -> nat {
    largest(rows, count_size(), 0)
}

/// The width of the name column: that of the longest name, and at least that
/// of the column's title.
pub open spec fn name_width(rows: Seq<Row>) -> nat {
    largest(rows, name_size(), "parser"@.len())
}

/// The width of the count column: that of the longest count, and at least
/// that of the column's title.
pub open spec fn count_width(rows: Seq<Row>) -> nat {
    largest(rows, digits_size(), "count"@.len())
}

/// The length of the bar of `count` where `max` is the largest count: the
/// whole part of `count * BAR_WIDTH / max`.
pub open spec fn bar_length(count: nat, max: nat) -> nat {
    if max == 0 {
        0
    } else {
        count * BAR_WIDTH as nat / max
    }
}

/// The blanks behind a bar of length `bar`, which fill the bar column.
pub open spec fn bar_blanks(bar: nat) -> nat {
    if bar <= BAR_WIDTH {
        (BAR_WIDTH - bar) as nat
    } else {
        0
    }
}

/// The line of one row: the name, the bar, blanks up to the width of the bar
/// column, and the count, right-aligned. A bar of length 0 is left out; the
/// row is there all the same.
pub open spec fn row_line(row: Row, names: nat, counts: nat, max: nat) -> Seq<char> {
    let bar = bar_length(row.count, max);
    pad_right(row.name, names) + " | "@ + repeat('.', bar) + repeat(' ', bar_blanks(bar)) + " | "@
        + pad_left(decimal(row.count), counts) + "\n"@
}

/// The lines of `rows`, one after the other.
pub open spec fn row_lines(rows: Seq<Row>, names: nat, counts: nat, max: nat) -> Seq<char>
    decreases rows.len(),
{
    if rows.len() == 0 {
        Seq::empty()
    } else {
        row_lines(rows.drop_last(), names, counts, max) + row_line(rows.last(), names, counts, max)
    }
}

/// The two lines above the rows, after an empty line: the titles of the
/// columns and a line of dashes.
pub open spec fn head_lines(title: Seq<char>, names: nat, counts: nat) -> Seq<char> {
    "\n"@ + pad_right("parser"@, names) + " | "@ + pad_right(title, BAR_WIDTH as nat) + " | "@
        + "count"@ + "\n"@ + repeat('-', names) + " | "@ + repeat('-', BAR_WIDTH as nat) + " | "@
        + repeat('-', counts) + "\n"@
}

/// The histogram of `rows` under the title `title`: the head, the rows by
/// falling count and by name, and an empty line.
pub open spec fn histogram_text(title: Seq<char>, rows: Seq<Row>) -> Seq<char> {
    head_lines(title, name_width(rows), count_width(rows)) + row_lines(
        by_count(rows),
        name_width(rows),
        count_width(rows),
        max_count(rows),
    ) + "\n"@
}

/// A row put in at `p` is put where `insert_row` puts it, where it stands
/// above the rows from `p` on and not above the row before `p`.
pub proof fn lemma_insert_row(sorted: Seq<Row>, r: Row, p: int)
    requires
        0 <= p <= sorted.len(),
        forall|k: int| p <= k < sorted.len() ==> row_before(r, #[trigger] sorted[k]),
        p > 0 ==> !row_before(r, sorted[p - 1]),
    ensures
        insert_row(sorted, r) == sorted.insert(p, r),
    decreases sorted.len() - p,
{
    if p == sorted.len() {
        assert(sorted.insert(p, r) =~= sorted.push(r));
    } else {
        assert(row_before(r, sorted.last()));
        lemma_insert_row(sorted.drop_last(), r, p);
        assert(sorted.drop_last().insert(p, r).push(sorted.last()) =~= sorted.insert(p, r));
    }
}

/// The order of rows: a row does not stand above a row that stands above
/// it, and where `a` does not stand above `b` nor `b` above `c`, `a` does
/// not stand above `c`.
pub proof fn lemma_row_order(a: Row, b: Row, c: Row)
    ensures
        row_before(a, b) ==> !row_before(b, a),
        !row_before(a, b) && !row_before(b, c) ==> !row_before(a, c),
{
    if row_before(a, b) && row_before(b, a) {
        lemma_name_before_transitive(a.name, b.name, a.name);
        lemma_name_before_irreflexive(a.name);
    }
    if !row_before(a, b) && !row_before(b, c) && row_before(a, c) {
        lemma_name_before_total(a.name, b.name);
        lemma_name_before_total(b.name, c.name);
        if a.count == b.count && b.count == c.count {
            if a.name == b.name {
            } else if b.name == c.name {
            } else {
                lemma_name_before_transitive(c.name, b.name, a.name);
                lemma_name_before_transitive(a.name, c.name, a.name);
                lemma_name_before_irreflexive(a.name);
            }
        }
    }
}

/// Putting a row into rows that are in order gives rows in order: the rows
/// that there were, and the new one.
pub proof fn lemma_insert_row_in_order(sorted: Seq<Row>, r: Row)
    requires
        in_order(sorted),
    ensures
        in_order(insert_row(sorted, r)),
        insert_row(sorted, r).len() == sorted.len() + 1,
        insert_row(sorted, r).to_multiset() == sorted.to_multiset().insert(r),
        forall|i: int|
            0 <= i < insert_row(sorted, r).len() ==> (#[trigger] insert_row(sorted, r)[i]) == r
                || sorted.contains(insert_row(sorted, r)[i]),
    decreases sorted.len(),
{
    let out = insert_row(sorted, r);
    if sorted.len() == 0 || !row_before(r, sorted.last()) {
        to_multiset_build(sorted, r);
        assert forall|i: int, j: int| 0 <= i < j < out.len() implies !row_before(
            out[j],
            out[i],
        ) by {
            if j == sorted.len() {
                if i < sorted.len() - 1 {
                    assert(!row_before(sorted[sorted.len() - 1], sorted[i]));
                    lemma_row_order(r, sorted.last(), sorted[i]);
                }
            } else {
                assert(!row_before(sorted[j], sorted[i]));
            }
        }
        assert forall|i: int| 0 <= i < out.len() implies (#[trigger] out[i]) == r
            || sorted.contains(out[i]) by {
            if i < sorted.len() {
                assert(sorted[i] == out[i]);
            }
        }
    } else {
        let first = sorted.drop_last();
        let last = sorted.last();
        assert forall|i: int, j: int| 0 <= i < j < first.len() implies !row_before(
            first[j],
            first[i],
        ) by {
            assert(!row_before(sorted[j], sorted[i]));
        }
        lemma_insert_row_in_order(first, r);
        let inner = insert_row(first, r);
        to_multiset_build(inner, last);
        to_multiset_build(first, last);
        assert(first.push(last) =~= sorted);
        assert(first.to_multiset().insert(r).insert(last) =~= first.to_multiset().insert(
            last,
        ).insert(r));
        assert forall|i: int, j: int| 0 <= i < j < out.len() implies !row_before(
            out[j],
            out[i],
        ) by {
            if j == inner.len() {
                if inner[i] == r {
                    lemma_row_order(r, last, r);
                } else {
                    assert(first.contains(inner[i]));
                    let k = choose|k: int| 0 <= k < first.len() && first[k] == inner[i];
                    assert(!row_before(sorted[sorted.len() - 1], sorted[k]));
                }
            } else {
                assert(!row_before(inner[j], inner[i]));
            }
        }
        assert forall|i: int| 0 <= i < out.len() implies (#[trigger] out[i]) == r
            || sorted.contains(out[i]) by {
            if i < inner.len() {
                if inner[i] != r {
                    assert(first.contains(inner[i]));
                    let k = choose|k: int| 0 <= k < first.len() && first[k] == inner[i];
                    assert(sorted[k] == inner[i]);
                }
            } else {
                assert(sorted[sorted.len() - 1] == out[i]);
            }
        }
    }
}

/// The rows of a histogram are in order, and they are the rows of the
/// table, each as often as the table has it.
pub proof fn lemma_by_count(rows: Seq<Row>)
    ensures
        in_order(by_count(rows)),
        by_count(rows).len() == rows.len(),
        by_count(rows).to_multiset() == rows.to_multiset(),
    decreases rows.len(),
{
    if rows.len() > 0 {
        lemma_by_count(rows.drop_last());
        lemma_insert_row_in_order(by_count(rows.drop_last()), rows.last());
        to_multiset_build(rows.drop_last(), rows.last());
        assert(rows.drop_last().push(rows.last()) =~= rows);
    } else {
        assert(rows =~= Seq::<Row>::empty());
    }
}

/// The largest size is at least `least` and at least the size of each row,
/// and it is `least` or the size of a row.
pub proof fn lemma_largest(rows: Seq<Row>, size: spec_fn(Row) -> nat, least: nat)
    ensures
        largest(rows, size, least) >= least,
        forall|i: int| 0 <= i < rows.len() ==> size(#[trigger] rows[i]) <= largest(rows, size, least),
        largest(rows, size, least) == least || exists|i: int|
            0 <= i < rows.len() && size(#[trigger] rows[i]) == largest(rows, size, least),
    decreases rows.len(),
{
    if rows.len() > 0 {
        let first = rows.drop_last();
        lemma_largest(first, size, least);
        assert forall|i: int| 0 <= i < rows.len() implies size(#[trigger] rows[i]) <= largest(
            rows,
            size,
            least,
        ) by {
            if i < first.len() {
                assert(first[i] == rows[i]);
            }
        }
        if largest(rows, size, least) != least {
            if size(rows.last()) > largest(first, size, least) {
                assert(size(rows[rows.len() - 1]) == largest(rows, size, least));
            } else {
                let i = choose|i: int|
                    0 <= i < first.len() && size(#[trigger] first[i]) == largest(first, size, least);
                assert(first[i] == rows[i]);
            }
        }
    }
}

/// The largest size does not depend on the order of the rows.
pub proof fn lemma_largest_of_same_rows(
    a: Seq<Row>,
    b: Seq<Row>,
    size: spec_fn(Row) -> nat,
    least: nat,
)
    requires
        a.to_multiset() == b.to_multiset(),
    ensures
        largest(a, size, least) == largest(b, size, least),
{
    lemma_largest(a, size, least);
    lemma_largest(b, size, least);
    a.to_multiset_ensures();
    b.to_multiset_ensures();
    if largest(a, size, least) != least {
        let i = choose|i: int| 0 <= i < a.len() && size(#[trigger] a[i]) == largest(a, size, least);
        assert(a.contains(a[i]));
        assert(b.to_multiset().count(a[i]) > 0);
        assert(b.contains(a[i]));
        let j = choose|j: int| 0 <= j < b.len() && b[j] == a[i];
        assert(size(b[j]) <= largest(b, size, least));
    }
    if largest(b, size, least) != least {
        let i = choose|i: int| 0 <= i < b.len() && size(#[trigger] b[i]) == largest(b, size, least);
        assert(b.contains(b[i]));
        assert(a.to_multiset().count(b[i]) > 0);
        assert(a.contains(b[i]));
        let j = choose|j: int| 0 <= j < a.len() && a[j] == b[i];
        assert(size(a[j]) <= largest(a, size, least));
    }
}

/// Rows in order are determined by the rows that they are: two sequences in
/// order that hold the same rows equally often are the same sequence.
pub proof fn lemma_in_order_unique(a: Seq<Row>, b: Seq<Row>)
    requires
        in_order(a),
        in_order(b),
        a.to_multiset() == b.to_multiset(),
    ensures
        a == b,
    decreases a.len(),
{
    a.to_multiset_ensures();
    b.to_multiset_ensures();
    assert(a.len() == b.len());
    if a.len() == 0 {
        assert(a =~= b);
    } else {
        let x = a.last();
        let y = b.last();
        assert(a.contains(x)) by {
            assert(a[a.len() - 1] == x);
        }
        assert(b.contains(y)) by {
            assert(b[b.len() - 1] == y);
        }
        assert(b.to_multiset().count(x) > 0);
        assert(b.contains(x));
        assert(a.to_multiset().count(y) > 0);
        assert(a.contains(y));
        let i = choose|i: int| 0 <= i < a.len() && a[i] == y;
        let j = choose|j: int| 0 <= j < b.len() && b[j] == x;
        if x != y {
            assert(!row_before(a[a.len() - 1], a[i]));
            assert(!row_before(b[b.len() - 1], b[j]));
            lemma_name_before_total(x.name, y.name);
            assert(false);
        }
        let a1 = a.drop_last();
        let b1 = b.drop_last();
        assert(a1 =~= a.remove(a.len() - 1));
        assert(b1 =~= b.remove(b.len() - 1));
        assert(a1.to_multiset() =~= b1.to_multiset());
        assert forall|i: int, j: int| 0 <= i < j < a1.len() implies !row_before(a1[j], a1[i]) by {
            assert(!row_before(a[j], a[i]));
        }
        assert forall|i: int, j: int| 0 <= i < j < b1.len() implies !row_before(b1[j], b1[i]) by {
            assert(!row_before(b[j], b[i]));
        }
        lemma_in_order_unique(a1, b1);
        assert(a =~= a1.push(x));
        assert(b =~= b1.push(y));
    }
}

/// A histogram does not depend on the order in which the names were first
/// seen: tables that hold the same rows give the same text.
pub proof fn lemma_histogram_of_same_rows(title: Seq<char>, a: Seq<Row>, b: Seq<Row>)
    requires
        a.to_multiset() == b.to_multiset(),
    ensures
        by_count(a) == by_count(b),
        histogram_text(title, a) == histogram_text(title, b),
{
    lemma_by_count(a);
    lemma_by_count(b);
    lemma_in_order_unique(by_count(a), by_count(b));
    lemma_largest_of_same_rows(a, b, count_size(), 0);
    lemma_largest_of_same_rows(a, b, name_size(), "parser"@.len());
    lemma_largest_of_same_rows(a, b, digits_size(), "count"@.len());
}

/// No count is larger than the largest.
pub proof fn lemma_max_count(rows: Seq<Row>, i: int)
    requires
        0 <= i < rows.len(),
    ensures
        rows[i].count <= max_count(rows),
{
    lemma_largest(rows, count_size(), 0);
}

/// A bar is no longer than the bar column is wide.
pub proof fn lemma_bar_length(count: nat, max: nat)
    requires
        count <= max,
    ensures
        bar_length(count, max) <= BAR_WIDTH,
{
    if max > 0 {
        assert(count * 50 / max <= 50) by (nonlinear_arith)
            requires
                count <= max,
                max > 0,
        ;
    }
}

/// The largest count of a table.
fn largest_count(table: &CountTable) -> (r: usize)
    ensures
        r == max_count(table@),
{
    let mut max: usize = 0;
    let mut i: usize = 0;
    assert(table@.take(0) =~= Seq::<Row>::empty());
    while i < table.len()
        invariant
            i <= table@.len(),
            max == max_count(table@.take(i as int)),
        decreases table@.len() - i,
    {
        let c = table.count_at(i);
        proof {
            let next = table@.take(i + 1);
            assert(next.drop_last() =~= table@.take(i as int));
        }
        if c > max {
            max = c;
        }
        i = i + 1;
    }
    assert(table@.take(i as int) =~= table@);
    max
}

/// The widths of the name column and of the count column of a table.
fn column_widths(table: &CountTable) -> (r: (usize, usize))
    ensures
        r.0 == name_width(table@),
        r.1 == count_width(table@),
{
    let mut names: usize = "parser".unicode_len();
    let mut counts: usize = "count".unicode_len();
    let mut i: usize = 0;
    assert(table@.take(0) =~= Seq::<Row>::empty());
    while i < table.len()
        invariant
            i <= table@.len(),
            names == name_width(table@.take(i as int)),
            counts == count_width(table@.take(i as int)),
        decreases table@.len() - i,
    {
        proof {
            let next = table@.take(i + 1);
            assert(next.drop_last() =~= table@.take(i as int));
        }
        let n = table.name_at(i).as_str().unicode_len();
        if n > names {
            names = n;
        }
        let c = decimal_string(table.count_at(i)).as_str().unicode_len();
        if c > counts {
            counts = c;
        }
        i = i + 1;
    }
    assert(table@.take(i as int) =~= table@);
    (names, counts)
}

/// Whether row `i` of a table stands above row `j` in a histogram.
fn stands_above(table: &CountTable, i: usize, j: usize) -> (r: bool)
    requires
        i < table@.len(),
        j < table@.len(),
    ensures
        r == row_before(table@[i as int], table@[j as int]),
{
    let a = table.count_at(i);
    let b = table.count_at(j);
    a > b || (a == b && comes_before(table.name_at(i).as_str(), table.name_at(j).as_str()))
}

/// The rows that the places in `order` name.
pub open spec fn rows_at(rows: Seq<Row>, order: Seq<usize>) -> Seq<Row> {
    Seq::new(order.len(), |k: int| rows[order[k] as int])
}

/// The places of a table's rows in the order of a histogram.
fn sorted_places(table: &CountTable) -> (r: Vec<usize>)
    ensures
        r@.len() == table@.len(),
        forall|k: int| 0 <= k < r@.len() ==> (#[trigger] r@[k]) < table@.len(),
        rows_at(table@, r@) == by_count(table@),
{
    let mut order: Vec<usize> = Vec::new();
    let mut i: usize = 0;
    assert(table@.take(0) =~= Seq::<Row>::empty());
    assert(rows_at(table@, order@) =~= by_count(table@.take(0)));
    while i < table.len()
        invariant
            i <= table@.len(),
            order@.len() == i,
            forall|k: int| 0 <= k < order@.len() ==> (#[trigger] order@[k]) < table@.len(),
            rows_at(table@, order@) == by_count(table@.take(i as int)),
        decreases table@.len() - i,
    {
        let mut p: usize = order.len();
        while p > 0 && stands_above(table, i, order[p - 1])
            invariant
                p <= order@.len(),
                i < table@.len(),
                forall|k: int| 0 <= k < order@.len() ==> (#[trigger] order@[k]) < table@.len(),
                forall|k: int|
                    p <= k < order@.len() ==> row_before(
                        table@[i as int],
                        #[trigger] rows_at(table@, order@)[k],
                    ),
            decreases p,
        {
            p = p - 1;
            assert(rows_at(table@, order@)[p as int] == table@[order@[p as int] as int]);
        }
        proof {
            let sorted = rows_at(table@, order@);
            let next = table@.take(i + 1);
            assert(next.drop_last() =~= table@.take(i as int));
            assert(next.last() == table@[i as int]);
            if p > 0 {
                assert(sorted[p - 1] == table@[order@[p - 1] as int]);
            }
            lemma_insert_row(sorted, table@[i as int], p as int);
            assert(rows_at(table@, order@.insert(p as int, i)) =~= sorted.insert(
                p as int,
                table@[i as int],
            ));
        }
        order.insert(p, i);
        i = i + 1;
    }
    assert(table@.take(i as int) =~= table@);
    order
}

/// The line of row `i` of a table.
fn push_row(out: &mut String, table: &CountTable, i: usize, names: usize, counts: usize, max: usize)
    requires
        i < table@.len(),
        max == max_count(table@),
    ensures
        final(out)@ == old(out)@ + row_line(table@[i as int], names as nat, counts as nat, max as nat),
{
    let count = table.count_at(i);
    proof {
        lemma_max_count(table@, i as int);
        lemma_bar_length(count as nat, max as nat);
    }
    let bar = if max == 0 {
        0
    } else {
        ((count as u128) * (BAR_WIDTH as u128) / (max as u128)) as usize
    };
    assert(bar == bar_length(count as nat, max as nat));
    push_padded(out, table.name_at(i).as_str(), names);
    out.append(" | ");
    push_repeat(out, '.', bar);
    push_repeat(out, ' ', BAR_WIDTH - bar);
    out.append(" | ");
    let number = decimal_string(count);
    push_padded_left(out, number.as_str(), counts);
    out.append("\n");
    assert(out@ =~= old(out)@ + row_line(
        table@[i as int],
        names as nat,
        counts as nat,
        max as nat,
    ));
}

/// The two lines above the rows.
fn head_string(title: &str, names: usize, counts: usize) -> (r: String)
    ensures
        r@ == head_lines(title@, names as nat, counts as nat),
{
    let mut out = String::new();
    out.append("\n");
    push_padded(&mut out, "parser", names);
    out.append(" | ");
    push_padded(&mut out, title, BAR_WIDTH);
    out.append(" | ");
    out.append("count");
    out.append("\n");
    push_repeat(&mut out, '-', names);
    out.append(" | ");
    push_repeat(&mut out, '-', BAR_WIDTH);
    out.append(" | ");
    push_repeat(&mut out, '-', counts);
    out.append("\n");
    assert(out@ =~= head_lines(title@, names as nat, counts as nat));
    out
}

/// The histogram of `table` as text, under the title `title`.
pub fn show_histogram(title: &str, table: &CountTable) -> (r: String)
    ensures
        r@ == histogram_text(title@, table@),
{
    let max = largest_count(table);
    let (names, counts) = column_widths(table);
    let order = sorted_places(table);
    let mut out = head_string(title, names, counts);
    let ghost head = out@;
    let ghost sorted = by_count(table@);
    let mut k: usize = 0;
    assert(sorted.take(0) =~= Seq::<Row>::empty());
    assert(out@ =~= head + row_lines(sorted.take(0), names as nat, counts as nat, max as nat));
    while k < order.len()
        invariant
            k <= order@.len(),
            order@.len() == table@.len(),
            max == max_count(table@),
            sorted == rows_at(table@, order@),
            forall|j: int| 0 <= j < order@.len() ==> (#[trigger] order@[j]) < table@.len(),
            out@ == head + row_lines(sorted.take(k as int), names as nat, counts as nat, max as nat),
        decreases order@.len() - k,
    {
        proof {
            let next = sorted.take(k + 1);
            assert(next.drop_last() =~= sorted.take(k as int));
            assert(next.last() == table@[order@[k as int] as int]);
        }
        let ghost before = out@;
        push_row(&mut out, table, order[k], names, counts, max);
        assert(out@ =~= head + row_lines(
            sorted.take(k + 1),
            names as nat,
            counts as nat,
            max as nat,
        ));
        k = k + 1;
    }
    assert(sorted.take(k as int) =~= sorted);
    out.append("\n");
    out
}

/// The histogram of the calls entered in the run that `storage` holds.
pub fn histogram(storage: &TracableStorage) -> (r: String)
    ensures
        r@ == histogram_text("histogram"@, storage@.histogram),
{
    show_histogram("histogram", storage.histogram_table())
}

/// The histogram of the cumulative counts of the run that `storage` holds:
/// for each parser, the calls entered while calls of it were under way.
pub fn cumulative_histogram(storage: &TracableStorage) -> (r: String)
    ensures
        r@ == histogram_text("cumulative histogram"@, storage@.cumulative_histogram),
{
    show_histogram("cumulative histogram", storage.cumulative_histogram_table())
}

} // verus!
