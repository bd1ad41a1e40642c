//! An index over the key columns of a table, so that the partners of a row
//! are found without looking at every row.
//!
//! Every key is given a code. Rows whose keys agree have the same code, so
//! the partners of a row all stand in the chain of rows with its code, and
//! the chain runs from top to bottom.

use crate::table::{
    as_ints, cells_view, columns_within, keys_agree, partners, pick, rows_view, Cell, CellView,
};
use vstd::prelude::*;
use vstd::string::*;
use vstd::utf8::encode_utf8;

verus! {

/// Codes are smaller than this.
pub(crate) const CODE_RANGE: u64 = 1_000_003;

/// The code of a text, read off its bytes.
pub(crate) open spec fn text_code(bytes: Seq<u8>) -> nat
    decreases bytes.len(),
{
    if bytes.len() == 0 {
        7
    } else {
        (text_code(bytes.drop_last()) * 31 + bytes.last() as nat) % (CODE_RANGE as nat)
    }
}

/// The code of a cell.
pub(crate) open spec fn cell_code(cell: CellView) -> nat {
    match cell {
        CellView::Text(text) => text_code(encode_utf8(text)),
        _ => 0,
    }
}

/// The code of a key.
pub(crate) open spec fn key_code(key: Seq<CellView>) -> nat
    decreases key.len(),
{
    if key.len() == 0 {
        11
    } else {
        (key_code(key.drop_last()) * 1009 + cell_code(key.last())) % (CODE_RANGE as nat)
    }
}

/// Keys that agree have the same code.
pub(crate) proof fn lemma_agreeing_keys_share_code(left: Seq<CellView>, right: Seq<CellView>)
    requires
        keys_agree(left, right),
    ensures
        key_code(left) == key_code(right),
{
    assert(left =~= right);
}

/// The chain that each row belongs to: its key code, folded into `count`
/// chains.
pub(crate) open spec fn chains_of(rows: Seq<Seq<CellView>>, on: Seq<int>, count: nat) -> Seq<int> {
    Seq::new(rows.len(), |i: int| (key_code(pick(rows[i], on)) % count) as int)
}

/// The first row at or after `from` that belongs to `chain`, or the number
/// of rows when there is none.
pub(crate) open spec fn first_from(chains: Seq<int>, chain: int, from: int) -> int
    decreases chains.len() - from,
{
    if from < 0 || from >= chains.len() {
        chains.len() as int
    } else if chains[from] == chain {
        from
    } else {
        first_from(chains, chain, from + 1)
    }
}

/// `first_from` finds a row of the chain, and passes over none.
pub(crate) proof fn lemma_first_from(chains: Seq<int>, chain: int, from: int)
    requires
        0 <= from <= chains.len(),
    ensures
        from <= first_from(chains, chain, from) <= chains.len(),
        first_from(chains, chain, from) < chains.len() ==> chains[first_from(chains, chain, from)]
            == chain,
        forall|i: int| from <= i < first_from(chains, chain, from) ==> chains[i] != chain,
    decreases chains.len() - from,
{
    if from < chains.len() && chains[from] != chain {
        lemma_first_from(chains, chain, from + 1);
    }
}

/// Rows that do not agree with a left row add nothing to its partners.
pub(crate) proof fn lemma_no_partners_between(
    left_row: Seq<CellView>,
    left_on: Seq<int>,
    right_rows: Seq<Seq<CellView>>,
    right_on: Seq<int>,
    from: int,
    to: int,
)
    requires
        0 <= from <= to <= right_rows.len(),
        forall|i: int|
            from <= i < to ==> !keys_agree(
                pick(left_row, left_on),
                pick(#[trigger] right_rows[i], right_on),
            ),
    ensures
        partners(left_row, left_on, right_rows.take(to), right_on) == partners(
            left_row,
            left_on,
            right_rows.take(from),
            right_on,
        ),
    decreases to - from,
{
    if from < to {
        lemma_no_partners_between(left_row, left_on, right_rows, right_on, from, to - 1);
        assert(right_rows.take(to).drop_last() == right_rows.take(to - 1));
        assert(right_rows.take(to).last() == right_rows[to - 1]);
    }
}

/// The code of a text.
fn code_of_text(text: &String) -> (code: u64)
    ensures
        code == text_code(encode_utf8(text@)),
        code < CODE_RANGE,
{
    let bytes = text.as_str().as_bytes();
    let mut code: u64 = 7;
    let mut at: usize = 0;
    assert(bytes@.take(0) == Seq::<u8>::empty());
    while at < bytes.len()
        invariant
            at <= bytes.len(),
            code < CODE_RANGE,
            code == text_code(bytes@.take(at as int)),
        decreases bytes.len() - at,
    {
        proof {
            assert(bytes@.take(at as int + 1).drop_last() == bytes@.take(at as int));
            assert(bytes@.take(at as int + 1).last() == bytes@[at as int]);
        }
        code = (code * 31 + bytes[at] as u64) % CODE_RANGE;
        at = at + 1;
    }
    assert(bytes@.take(at as int) == bytes@);
    code
}

/// The code of the key of a row.
pub(crate) fn code_of_key(row: &Vec<Cell>, on: &Vec<usize>) -> (code: u64)
    requires
        columns_within(on@, row@.len() as nat),
    ensures
        code == key_code(pick(cells_view(row@), as_ints(on@))),
        code < CODE_RANGE,
{
    let ghost key = pick(cells_view(row@), as_ints(on@));
    let mut code: u64 = 11;
    let mut at: usize = 0;
    assert(key.take(0) == Seq::<CellView>::empty());
    while at < on.len()
        invariant
            at <= on.len(),
            columns_within(on@, row@.len() as nat),
            key == pick(cells_view(row@), as_ints(on@)),
            code < CODE_RANGE,
            code == key_code(key.take(at as int)),
        decreases on.len() - at,
    {
        let cell = &row[on[at]];
        proof {
            assert(key.take(at as int + 1).drop_last() == key.take(at as int));
            assert(key.take(at as int + 1).last() == cell@);
        }
        let part = match cell {
            Cell::Text(text) => code_of_text(text),
            _ => 0,
        };
        code = (code * 1009 + part) % CODE_RANGE;
        at = at + 1;
    }
    assert(key.take(at as int) == key);
    code
}

/// The chains of the rows of a table, by the code of their keys.
pub(crate) struct KeyIndex {
    /// Number of chains.
    pub(crate) count: usize,
    /// For every chain, its first row; the number of rows when it is empty.
    pub(crate) head: Vec<usize>,
    /// For every row, the next row of its chain; the number of rows when it
    /// is the last.
    pub(crate) next: Vec<usize>,
}

impl KeyIndex {
    /// Whether this is the index of `rows` over the key columns `on`.
    pub(crate) open spec fn covers(&self, rows: Seq<Seq<CellView>>, on: Seq<int>) -> bool {
        let chains = chains_of(rows, on, self.count as nat);
        &&& self.count > 0
        &&& self.head@.len() == self.count
        &&& self.next@.len() == rows.len()
        &&& forall|c: int|
            0 <= c < self.count ==> (#[trigger] self.head@[c]) == first_from(chains, c, 0)
        &&& forall|i: int|
            0 <= i < rows.len() ==> (#[trigger] self.next@[i]) == first_from(
                chains,
                chains[i],
                i + 1,
            )
    }

    /// Builds the index of `rows` over the key columns `on`.
    pub(crate) fn build(rows: &Vec<Vec<Cell>>, on: &Vec<usize>) -> (index: KeyIndex)
        requires
            forall|r: int|
                0 <= r < rows@.len() ==> columns_within(on@, (#[trigger] rows@[r])@.len() as nat),
        ensures
            index.covers(rows_view(rows@), as_ints(on@)),
    {
        let total = rows.len();
        let count: usize = if total == 0 {
            1
        } else {
            total
        };
        let ghost views = rows_view(rows@);
        let ghost keys = as_ints(on@);
        let ghost chains = chains_of(views, keys, count as nat);
        let mut own: Vec<usize> = Vec::new();
        let mut next: Vec<usize> = Vec::new();
        let mut at: usize = 0;
        while at < total
            invariant
                at <= total,
                total == rows@.len(),
                count > 0,
                views == rows_view(rows@),
                keys == as_ints(on@),
                chains == chains_of(views, keys, count as nat),
                forall|r: int|
                    0 <= r < rows@.len() ==> columns_within(
                        on@,
                        (#[trigger] rows@[r])@.len() as nat,
                    ),
                own@.len() == at,
                next@.len() == at,
                forall|i: int| 0 <= i < at ==> (#[trigger] own@[i]) == chains[i],
                forall|i: int| 0 <= i < at ==> (#[trigger] own@[i]) < count,
            decreases total - at,
        {
            let code = code_of_key(&rows[at], on);
            let chain = (code % (count as u64)) as usize;
            proof {
                assert(views[at as int] == cells_view(rows@[at as int]@));
            }
            own.push(chain);
            next.push(total);
            at = at + 1;
        }
        let mut head: Vec<usize> = Vec::new();
        let mut c: usize = 0;
        while c < count
            invariant
                c <= count,
                head@.len() == c,
                forall|k: int| 0 <= k < c ==> (#[trigger] head@[k]) == total,
            decreases count - c,
        {
            head.push(total);
            c = c + 1;
        }
        let mut row: usize = total;
        while row > 0
            invariant
                row <= total,
                total == rows@.len(),
                chains.len() == total,
                head@.len() == count,
                next@.len() == total,
                own@.len() == total,
                forall|i: int| 0 <= i < total ==> (#[trigger] own@[i]) == chains[i],
                forall|i: int| 0 <= i < total ==> (#[trigger] own@[i]) < count,
                forall|k: int|
                    0 <= k < count ==> (#[trigger] head@[k]) == first_from(chains, k, row as int),
                forall|i: int|
                    row <= i < total ==> (#[trigger] next@[i]) == first_from(
                        chains,
                        chains[i],
                        i + 1,
                    ),
            decreases row,
        {
            row = row - 1;
            let chain = own[row];
            let after = head[chain];
            proof {
                assert(own@[row as int] == chains[row as int]);
                assert forall|k: int| 0 <= k < count implies first_from(chains, k, row as int) == (
                if k == chain {
                    row as int
                } else {
                    first_from(chains, k, row as int + 1)
                }) by {}
            }
            next.set(row, after);
            head.set(chain, row);
        }
        KeyIndex { count, head, next }
    }

    /// The first row of the chain that holds the keys with this code.
    pub(crate) fn first(&self, code: u64) -> (row: usize)
        requires
            self.count > 0,
            self.head@.len() == self.count,
        ensures
            row == self.head@[(code as nat % self.count as nat) as int],
    {
        self.head[(code % (self.count as u64)) as usize]
    }
}

} // verus!
