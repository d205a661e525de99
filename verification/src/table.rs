//! Amounts by key, in the order in which the keys came first.

use vstd::prelude::*;

use crate::amount::{zero_amount, Amount};
use crate::text::{same, views};

verus! {

/// A key: one text, or several that count only together.
pub type Key = Seq<Seq<char>>;

/// The place of the first row with `key`; the number of rows if there is none.
pub open spec fn place(rows: Seq<(Key, Amount)>, key: Key) -> nat
    decreases rows.len(),
{
    if rows.len() == 0 {
        0
    } else if rows[0].0 == key {
        0
    } else {
        1 + place(rows.drop_first(), key)
    }
}

/// The amount stored under `key`; zero if there is none.
pub open spec fn amount_at(rows: Seq<(Key, Amount)>, key: Key) -> Amount {
    if place(rows, key) < rows.len() {
        rows[place(rows, key) as int].1
    } else {
        zero_amount()
    }
}

/// The rows with `amount` stored under `key`: in its row, or in a new last one.
pub open spec fn stored(rows: Seq<(Key, Amount)>, key: Key, amount: Amount) -> Seq<(Key, Amount)> {
    if place(rows, key) < rows.len() {
        rows.update(place(rows, key) as int, (key, amount))
    } else {
        rows.push((key, amount))
    }
}

/// No key has two rows.
pub open spec fn keys_unique(rows: Seq<(Key, Amount)>) -> bool {
    forall|i: int, j: int|
        0 <= i < j < rows.len() ==> (#[trigger] rows[i]).0 != (#[trigger] rows[j]).0
}

/// The place of a key is that of its first row.
pub proof fn lemma_place(rows: Seq<(Key, Amount)>, key: Key)
    ensures
        place(rows, key) <= rows.len(),
        place(rows, key) < rows.len() ==> rows[place(rows, key) as int].0 == key,
        forall|i: int| 0 <= i < place(rows, key) ==> (#[trigger] rows[i]).0 != key,
    decreases rows.len(),
{
    if rows.len() > 0 && rows[0].0 != key {
        let rest = rows.drop_first();
        lemma_place(rest, key);
        assert forall|i: int| 0 <= i < place(rows, key) implies (#[trigger] rows[i]).0 != key by {
            if i > 0 {
                assert(rest[i - 1] == rows[i]);
            }
        }
    }
}

/// A row before which the key does not occur is the place of the key.
pub proof fn lemma_place_is(rows: Seq<(Key, Amount)>, key: Key, at: int)
    requires
        0 <= at <= rows.len(),
        at < rows.len() ==> rows[at].0 == key,
        forall|i: int| 0 <= i < at ==> (#[trigger] rows[i]).0 != key,
    ensures
        place(rows, key) == at,
{
    lemma_place(rows, key);
    if place(rows, key) < at {
        assert(rows[place(rows, key) as int].0 != key);
    }
}

/// Storing keeps the keys unique, gives back what was stored, and leaves the
/// other keys alone.
pub proof fn lemma_stored(rows: Seq<(Key, Amount)>, key: Key, amount: Amount)
    ensures
        keys_unique(rows) ==> keys_unique(stored(rows, key, amount)),
        amount_at(stored(rows, key, amount), key) == amount,
        forall|other: Key|
            other != key ==> #[trigger] amount_at(stored(rows, key, amount), other) == amount_at(
                rows,
                other,
            ),
{
    let after = stored(rows, key, amount);
    let at = place(rows, key) as int;
    lemma_place(rows, key);
    if at < rows.len() {
        assert(after.len() == rows.len());
        lemma_place_is(after, key, at);
    } else {
        lemma_place_is(after, key, rows.len() as int);
    }
    assert forall|other: Key| other != key implies #[trigger] amount_at(after, other) == amount_at(
        rows,
        other,
    ) by {
        lemma_place(rows, other);
        let spot = place(rows, other) as int;
        if spot < rows.len() {
            lemma_place_is(after, other, spot);
        } else {
            lemma_place_is(after, other, after.len() as int);
        }
    }
}

/// Whether two keys are made of the same texts.
pub fn same_key(a: &Vec<String>, b: &Vec<String>) -> (r: bool)
    ensures
        r == (views(a@) == views(b@)),
{
    if a.len() != b.len() {
        assert(views(a@).len() != views(b@).len());
        return false;
    }
    let mut i: usize = 0;
    while i < a.len()
        invariant
            a@.len() == b@.len(),
            i <= a@.len(),
            forall|k: int| 0 <= k < i ==> (#[trigger] a@[k])@ == b@[k]@,
        decreases a.len() - i,
    {
        if !same(a[i].as_str(), b[i].as_str()) {
            assert(views(a@)[i as int] != views(b@)[i as int]);
            return false;
        }
        i = i + 1;
    }
    assert(views(a@) =~= views(b@));
    true
}

/// One row of a table.
#[derive(Debug)]
pub struct Row {
    key: Vec<String>,
    amount: Amount,
}

/// Amounts by key.
#[derive(Debug)]
pub struct Table {
    rows: Vec<Row>,
}

impl View for Table {
    type V = Seq<(Key, Amount)>;

    closed spec fn view(&self) -> Seq<(Key, Amount)> {
        self.rows@.map_values(|row: Row| (views(row.key@), row.amount))
    }
}

impl Table {
    /// A table without rows.
    pub fn new() -> (r: Self)
        ensures
            r@ == Seq::<(Key, Amount)>::empty(),
    {
        let r = Table { rows: Vec::new() };
        assert(r@ =~= Seq::<(Key, Amount)>::empty());
        r
    }

    /// The number of rows.
    pub fn len(&self) -> (r: usize)
        ensures
            r == self@.len(),
    {
        self.rows.len()
    }

    /// The amount in the row at `index`.
    pub fn amount(&self, index: usize) -> (r: Amount)
        requires
            index < self@.len(),
        ensures
            r == self@[index as int].1,
    {
        self.rows[index].amount
    }

    fn position(&self, key: &Vec<String>) -> (r: usize)
        ensures
            r == place(self@, views(key@)),
            r <= self@.len(),
    {
        let mut i: usize = 0;
        while i < self.rows.len()
            invariant
                i <= self.rows@.len(),
                self@.len() == self.rows@.len(),
                forall|k: int| 0 <= k < i ==> (#[trigger] self@[k]).0 != views(key@),
            decreases self.rows.len() - i,
        {
            if same_key(&self.rows[i].key, key) {
                proof {
                    lemma_place_is(self@, views(key@), i as int);
                }
                return i;
            }
            i = i + 1;
        }
        proof {
            lemma_place_is(self@, views(key@), i as int);
        }
        i
    }

    /// Whether a row has `key`.
    pub fn contains(&self, key: &Vec<String>) -> (r: bool)
        ensures
            r == (place(self@, views(key@)) < self@.len()),
    {
        self.position(key) < self.rows.len()
    }

    /// The amount stored under `key`; zero if there is none.
    pub fn get(&self, key: &Vec<String>) -> (r: Amount)
        ensures
            r == amount_at(self@, views(key@)),
    {
        let at = self.position(key);
        if at < self.rows.len() {
            self.rows[at].amount
        } else {
            Amount::zero()
        }
    }

    /// Stores `amount` under `key`.
    pub fn put(&mut self, key: Vec<String>, amount: Amount)
        ensures
            final(self)@ == stored(old(self)@, views(key@), amount),
    {
        let at = self.position(&key);
        let ghost before = self@;
        let ghost id = views(key@);
        if at < self.rows.len() {
            self.rows.set(at, Row { key, amount });
        } else {
            self.rows.push(Row { key, amount });
        }
        assert(self@ =~= stored(before, id, amount));
    }
}

} // verus!
