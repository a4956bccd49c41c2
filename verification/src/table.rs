//! Count tables: rows of a name and a count, kept in the order in which the
//! names were first seen.

use vstd::prelude::*;

verus! {

/// One row of a count table.
pub struct Row {
    pub name: Seq<char>,
    pub count: nat,
}

/// The place of the first item of `s` that meets `p`, or the length of `s`
/// where none does.
pub open spec fn first_where<T>(s: Seq<T>, p: spec_fn(T) -> bool) -> int
    decreases s.len(),
{
    if s.len() == 0 || p(s[0]) {
        0
    } else {
        1 + first_where(s.drop_first(), p)
    }
}

/// The test that a row is that of `name`.
pub open spec fn has_name(name: Seq<char>) -> spec_fn(Row) -> bool {
    |r: Row| r.name == name
}

/// The place of the row for `name`, or the number of rows where it has none.
pub open spec fn row_index(rows: Seq<Row>, name: Seq<char>) -> int {
    first_where(rows, has_name(name))
}

/// The count that `rows` holds for `name`: 0 where it has no row.
pub open spec fn count_of(rows: Seq<Row>, name: Seq<char>) -> nat {
    let i = row_index(rows, name);
    if i < rows.len() {
        rows[i].count
    } else {
        0
    }
}

/// `rows` with `k` added to the count of `name`; a name without a row gets
/// one at the end.
pub open spec fn add_count(rows: Seq<Row>, name: Seq<char>, k: nat) -> Seq<Row> {
    let i = row_index(rows, name);
    if i < rows.len() {
        rows.update(i, Row { name: name, count: rows[i].count + k })
    } else {
        rows.push(Row { name: name, count: k })
    }
}

/// Where no item before `pos` meets `p`, and the item at `pos` does or `s`
/// ends there, `first_where` is `pos`.
pub proof fn lemma_first_where<T>(s: Seq<T>, p: spec_fn(T) -> bool, pos: int)
    requires
        0 <= pos <= s.len(),
        pos < s.len() ==> p(s[pos]),
        forall|k: int| 0 <= k < pos ==> !p(#[trigger] s[k]),
    ensures
        first_where(s, p) == pos,
    decreases pos,
{
    if pos > 0 {
        let t = s.drop_first();
        assert(!p(s[0]));
        assert forall|k: int| 0 <= k < pos - 1 implies !p(#[trigger] t[k]) by {
            assert(t[k] == s[k + 1]);
        }
        lemma_first_where(t, p, pos - 1);
    }
}

/// `first_where` lies within the sequence, meets `p` where it is not the
/// length, and nothing before it meets `p`.
pub proof fn lemma_first_where_is_first<T>(s: Seq<T>, p: spec_fn(T) -> bool)
    ensures
        0 <= first_where(s, p) <= s.len(),
        first_where(s, p) < s.len() ==> p(s[first_where(s, p)]),
        forall|k: int| 0 <= k < first_where(s, p) ==> !p(#[trigger] s[k]),
    decreases s.len(),
{
    if s.len() > 0 && !p(s[0]) {
        let t = s.drop_first();
        lemma_first_where_is_first(t, p);
        assert forall|k: int| 0 <= k < first_where(s, p) implies !p(#[trigger] s[k]) by {
            if k > 0 {
                assert(s[k] == t[k - 1]);
            }
        }
    }
}

/// Adding to the count of one name changes the count of that name by what was
/// added and the count of no other name.
pub proof fn lemma_add_count(rows: Seq<Row>, name: Seq<char>, k: nat, other: Seq<char>)
    ensures
        count_of(add_count(rows, name, k), other) == count_of(rows, other) + if other == name {
            k
        } else {
            0
        },
{
    let p = has_name(name);
    let q = has_name(other);
    let after = add_count(rows, name, k);
    lemma_first_where_is_first(rows, p);
    lemma_first_where_is_first(rows, q);
    let i = row_index(rows, name);
    let j = row_index(rows, other);
    if i < rows.len() {
        assert forall|m: int| 0 <= m < j implies !q(#[trigger] after[m]) by {
            assert(!q(rows[m]));
        }
        lemma_first_where(after, q, j);
    } else {
        if other == name {
            assert forall|m: int| 0 <= m < rows.len() implies !q(#[trigger] after[m]) by {
                assert(!p(rows[m]));
            }
            lemma_first_where(after, q, rows.len() as int);
        } else if j < rows.len() {
            assert forall|m: int| 0 <= m < j implies !q(#[trigger] after[m]) by {
                assert(!q(rows[m]));
            }
            lemma_first_where(after, q, j);
        } else {
            assert forall|m: int| 0 <= m < after.len() implies !q(#[trigger] after[m]) by {
                if m < rows.len() {
                    assert(!q(rows[m]));
                }
            }
            lemma_first_where(after, q, after.len() as int);
        }
    }
}

/// Whether no two rows have the same name.
pub open spec fn distinct_rows(rows: Seq<Row>) -> bool {
    forall|i: int, j: int|
        0 <= i < j < rows.len() ==> (#[trigger] rows[i]).name != (#[trigger] rows[j]).name
}

/// Adding to a count keeps the rows distinct.
pub proof fn lemma_add_count_distinct(rows: Seq<Row>, name: Seq<char>, k: nat)
    requires
        distinct_rows(rows),
    ensures
        distinct_rows(add_count(rows, name, k)),
{
    let p = has_name(name);
    lemma_first_where_is_first(rows, p);
    let at = row_index(rows, name);
    let after = add_count(rows, name, k);
    assert forall|i: int, j: int| 0 <= i < j < after.len() implies (#[trigger] after[i]).name != (
    #[trigger] after[j]).name by {
        if j < rows.len() {
            assert(rows[i].name != rows[j].name);
            if at < rows.len() {
                assert(p(rows[at]));
            }
        } else {
            assert(!p(rows[i]));
        }
    }
}

/// One entry of a count table.
pub struct Entry {
    pub name: String,
    pub count: usize,
}

impl Entry {
    /// The row that the entry stands for.
    pub open spec fn row(self) -> Row {
        Row { name: self.name@, count: self.count as nat }
    }
}

/// A table from names to counts.
pub struct CountTable {
    entries: Vec<Entry>,
}

impl View for CountTable {
    type V = Seq<Row>;

    closed spec fn view(&self) -> Seq<Row> {
        Seq::new(self.entries@.len(), |i: int| self.entries@[i].row())
    }
}

impl CountTable {
    /// A table without rows.
    pub fn new() -> (r: Self)
        ensures
            r@ == Seq::<Row>::empty(),
    {
        let r = CountTable { entries: Vec::new() };
        assert(r@ =~= Seq::<Row>::empty());
        r
    }

    /// Removes every row.
    pub fn clear(&mut self)
        ensures
            final(self)@ == Seq::<Row>::empty(),
    {
        self.entries.clear();
        assert(self@ =~= Seq::<Row>::empty());
    }

    /// The number of rows.
    pub fn len(&self) -> (r: usize)
        ensures
            r == self@.len(),
    {
        self.entries.len()
    }

    /// The name of row `i`.
    pub fn name_at(&self, i: usize) -> (r: &String)
        requires
            i < self@.len(),
        ensures
            r@ == self@[i as int].name,
    {
        &self.entries[i].name
    }

    /// The count of row `i`.
    pub fn count_at(&self, i: usize) -> (r: usize)
        requires
            i < self@.len(),
        ensures
            r == self@[i as int].count,
    {
        self.entries[i].count
    }

    /// The place of the row for `name`, or the number of rows.
    fn find(&self, name: &String) -> (i: usize)
        ensures
            i == row_index(self@, name@),
            i <= self@.len(),
    {
        let mut i: usize = 0;
        while i < self.entries.len()
            invariant
                i <= self.entries@.len(),
                forall|k: int| 0 <= k < i ==> self@[k].name != name@,
            decreases self.entries@.len() - i,
        {
            if self.entries[i].name == *name {
                proof {
                    lemma_first_where(self@, has_name(name@), i as int);
                }
                return i;
            }
            i = i + 1;
        }
        proof {
            lemma_first_where(self@, has_name(name@), i as int);
        }
        i
    }

    /// The count of `name`: 0 where the table has no row for it.
    pub fn get(&self, name: &str) -> (r: usize)
        ensures
            r == count_of(self@, name@),
    {
        let key = name.to_owned();
        let i = self.find(&key);
        if i < self.entries.len() {
            self.entries[i].count
        } else {
            0
        }
    }

    /// Adds `k` to the count of `name`.
    pub fn add(&mut self, name: &str, k: usize)
        requires
            count_of(old(self)@, name@) + k <= usize::MAX,
        ensures
            final(self)@ == add_count(old(self)@, name@, k as nat),
    {
        let key = name.to_owned();
        let i = self.find(&key);
        if i < self.entries.len() {
            let sum = self.entries[i].count + k;
            self.entries.set(i, Entry { name: key, count: sum });
        } else {
            self.entries.push(Entry { name: key, count: k });
        }
        assert(self@ =~= add_count(old(self)@, name@, k as nat));
    }
}

} // verus!
