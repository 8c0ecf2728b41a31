//! Expansion rows: the row that is written for a set of the feed, and the
//! sets of the feed laid out for one bulk insert.

use crate::feed::{SetRecord, SetRecordView};
use crate::token::{fresh_token, is_token};
use vstd::prelude::*;

verus! {

/// One expansion as it is written to the store.
#[derive(Debug)]
pub struct FormattedSet {
    pub id: String,
    pub scryfall_id: String,
    pub name: String,
    pub code: String,
}

/// An expansion row as plain values.
pub ghost struct SetRow {
    pub id: Seq<char>,
    pub scryfall_id: Seq<char>,
    pub name: Seq<char>,
    pub code: Seq<char>,
}

impl View for FormattedSet {
    type V = SetRow;

    open spec fn view(&self) -> SetRow {
        SetRow { id: self.id@, scryfall_id: self.scryfall_id@, name: self.name@, code: self.code@ }
    }
}

/// The row of a set, under a given identifier.
pub open spec fn set_row(id: Seq<char>, set: SetRecordView) -> SetRow {
    SetRow { id, scryfall_id: set.external_id, name: set.name, code: set.code }
}

impl FormattedSet {
    /// The row of a set under the identifier `id`.
    pub fn with_id(id: String, set: &SetRecord) -> (row: FormattedSet)
        ensures
            row@ == set_row(id@, set@),
    {
        FormattedSet {
            id,
            scryfall_id: set.external_id.clone(),
            name: set.name.clone(),
            code: set.code.clone(),
        }
    }

    /// The row of a set under a new identifier.
    pub fn new(set: &SetRecord) -> (row: FormattedSet)
        ensures
            is_token(row.id@),
            row@ == set_row(row.id@, set@),
    {
        FormattedSet::with_id(fresh_token(), set)
    }
}

/// The rows of one bulk insert of expansions, column by column.
#[derive(Debug)]
pub struct SetColumns {
    pub ids: Vec<String>,
    pub scryfall_ids: Vec<String>,
    pub names: Vec<String>,
    pub codes: Vec<String>,
}

impl SetColumns {
    /// The columns are equally long.
    pub open spec fn wf(&self) -> bool {
        let n = self.ids@.len();
        &&& self.scryfall_ids@.len() == n
        &&& self.names@.len() == n
        &&& self.codes@.len() == n
    }

    /// The `i`-th row, read across the columns.
    pub open spec fn row(&self, i: int) -> SetRow {
        SetRow {
            id: self.ids@[i]@,
            scryfall_id: self.scryfall_ids@[i]@,
            name: self.names@[i]@,
            code: self.codes@[i]@,
        }
    }

    /// Columns without rows.
    pub fn new() -> (columns: SetColumns)
        ensures
            columns.wf(),
            columns@.len() == 0,
    {
        SetColumns { ids: Vec::new(), scryfall_ids: Vec::new(), names: Vec::new(), codes: Vec::new() }
    }

    /// Appends one row, each field to its column.
    pub fn push(&mut self, row: FormattedSet)
        requires
            old(self).wf(),
        ensures
            final(self).wf(),
            final(self)@ == old(self)@.push(row@),
    {
        self.ids.push(row.id);
        self.scryfall_ids.push(row.scryfall_id);
        self.names.push(row.name);
        self.codes.push(row.code);
    }

    /// How many rows the columns hold.
    pub fn len(&self) -> (n: usize)
        ensures
            n == self@.len(),
    {
        self.ids.len()
    }
}

impl View for SetColumns {
    type V = Seq<SetRow>;

    /// The rows, in their order.
    open spec fn view(&self) -> Seq<SetRow> {
        Seq::new(self.ids@.len(), |i: int| self.row(i))
    }
}

/// The sets as plain values.
pub open spec fn sets_view(sets: Seq<&SetRecord>) -> Seq<SetRecordView> {
    sets.map_values(|s: &SetRecord| s@)
}

/// The rows are those of the sets, one for one and in their order, each
/// under an identifier of its own.
pub open spec fn lists_sets(rows: Seq<SetRow>, sets: Seq<SetRecordView>) -> bool {
    &&& rows.len() == sets.len()
    &&& forall|i: int|
        0 <= i < rows.len() ==> is_token((#[trigger] rows[i]).id) && rows[i] == set_row(
            rows[i].id,
            sets[i],
        )
}

/// Lays sets out as the columns of one bulk insert, each set under a new
/// identifier.
pub fn batch_upsert_sets(sets: &Vec<&SetRecord>) -> (columns: SetColumns)
    ensures
        columns.wf(),
        lists_sets(columns@, sets_view(sets@)),
{
    let mut columns = SetColumns::new();
    let n: usize = sets.len();
    let mut i: usize = 0;
    while i < n
        invariant
            n == sets@.len(),
            0 <= i <= n,
            columns.wf(),
            lists_sets(columns@, sets_view(sets@).take(i as int)),
        decreases n - i,
    {
        columns.push(FormattedSet::new(sets[i]));
        i = i + 1;
    }
    columns
}

/// The sets that are printed, in the order of the feed: those that are not
/// digital-only.
pub open spec fn printed(sets: Seq<SetRecord>) -> Seq<SetRecordView>
    decreases sets.len(),
{
    if sets.len() == 0 {
        Seq::empty()
    } else if sets.last().digital {
        printed(sets.drop_last())
    } else {
        printed(sets.drop_last()).push(sets.last()@)
    }
}

/// No digital-only set is among the printed ones, and every printed set is
/// a set of the feed.
pub proof fn lemma_printed_holds_no_digital_set(sets: Seq<SetRecord>)
    ensures
        forall|j: int|
            0 <= j < printed(sets).len() ==> !(#[trigger] printed(sets)[j]).digital && exists|i: int|
                0 <= i < sets.len() && (#[trigger] sets[i])@ == printed(sets)[j],
    decreases sets.len(),
{
    if sets.len() > 0 {
        let front = sets.drop_last();
        lemma_printed_holds_no_digital_set(front);
        assert forall|j: int| 0 <= j < printed(sets).len() implies !(#[trigger] printed(
            sets,
        )[j]).digital && exists|i: int|
            0 <= i < sets.len() && (#[trigger] sets[i])@ == printed(sets)[j] by {
            if j < printed(front).len() {
                let i = choose|i: int|
                    0 <= i < front.len() && (#[trigger] front[i])@ == printed(front)[j];
                assert(sets[i]@ == printed(sets)[j]);
            } else {
                assert(sets[sets.len() - 1]@ == printed(sets)[j]);
            }
        }
    }
}

/// Lays the printed sets of the feed out as the columns of one bulk insert.
/// No digital-only set gets a row.
pub fn upsert_sets(sets: &Vec<SetRecord>) -> (columns: SetColumns)
    ensures
        columns.wf(),
        lists_sets(columns@, printed(sets@)),
{
    let mut real_sets: Vec<&SetRecord> = Vec::new();
    let n: usize = sets.len();
    let mut i: usize = 0;
    while i < n
        invariant
            n == sets@.len(),
            0 <= i <= n,
            sets_view(real_sets@) == printed(sets@.take(i as int)),
        decreases n - i,
    {
        proof {
            assert(sets@.take(i + 1).drop_last() =~= sets@.take(i as int));
        }
        if !sets[i].digital {
            real_sets.push(&sets[i]);
        }
        i = i + 1;
    }
    assert(sets@.take(n as int) =~= sets@);
    batch_upsert_sets(&real_sets)
}

} // verus!
