//! The expansion cache: which expansion codes the store already knows, and
//! which sets of the feed still need a row.

use crate::feed::{SetRecord, SetRecordView};
use crate::set::{set_row, FormattedSet, SetRow};
use crate::token::is_token;
use vstd::hash_map::StringHashMap;
use vstd::prelude::*;

verus! {

/// One expansion as the store lists it: its identifier and its code.
#[derive(Clone, Debug, Default)]
pub struct Expansion {
    pub id: String,
    pub code: String,
}

pub ghost struct ExpansionView {
    pub id: Seq<char>,
    pub code: Seq<char>,
}

impl View for Expansion {
    type V = ExpansionView;

    open spec fn view(&self) -> ExpansionView {
        ExpansionView { id: self.id@, code: self.code@ }
    }
}

/// The map from expansion code to expansion identifier that one run works
/// with.
pub struct ExpansionMap {
    entries: StringHashMap<String>,
}

impl View for ExpansionMap {
    type V = Map<Seq<char>, Seq<char>>;

    closed spec fn view(&self) -> Map<Seq<char>, Seq<char>> {
        self.entries@.map_values(|id: String| id@)
    }
}

impl ExpansionMap {
    /// A map that knows no code.
    pub fn new() -> (m: ExpansionMap)
        ensures
            m@ == Map::<Seq<char>, Seq<char>>::empty(),
    {
        ExpansionMap { entries: StringHashMap::new() }
    }

    /// Binds `code` to `id`, in place of what it was bound to.
    pub fn insert(&mut self, code: String, id: String)
        ensures
            final(self)@ == old(self)@.insert(code@, id@),
    {
        self.entries.insert(code, id);
    }

    /// Whether `code` is bound.
    pub fn contains_code(&self, code: &str) -> (known: bool)
        ensures
            known == self@.contains_key(code@),
    {
        self.entries.contains_key(code)
    }

    /// The identifier that `code` is bound to.
    pub fn get(&self, code: &str) -> (found: Option<&String>)
        ensures
            found is Some <==> self@.contains_key(code@),
            found matches Some(id) ==> id@ == self@[code@],
    {
        self.entries.get(code)
    }

    /// How many codes are bound.
    pub fn len(&self) -> (n: usize)
        ensures
            n == self@.len(),
    {
        broadcast use vstd::hash_map::axiom_string_hash_map_spec_len;

        let n = self.entries.len();
        proof {
            lemma_same_size(self.entries@);
        }
        n
    }
}

/// What the store answered to the insert of one expansion.
#[derive(Clone, Copy, Debug, PartialEq, Eq, Structural)]
pub enum InsertOutcome {
    /// The row was written.
    Inserted,
    /// The code was taken: nothing was written.
    Conflict,
    /// The statement failed.
    Failed,
}

impl InsertOutcome {
    /// What an insert that ran did, by the number of rows it wrote: a
    /// conflict where it wrote none.
    pub fn from_rows_affected(rows_affected: u64) -> (outcome: InsertOutcome)
        ensures
            outcome == if rows_affected == 0 {
                InsertOutcome::Conflict
            } else {
                InsertOutcome::Inserted
            },
    {
        if rows_affected == 0 {
            InsertOutcome::Conflict
        } else {
            InsertOutcome::Inserted
        }
    }
}

/// The map seeded with the rows that the store lists: each code bound to
/// its identifier, a later row in place of an earlier one of the same code.
pub open spec fn seeded(rows: Seq<Expansion>) -> Map<Seq<char>, Seq<char>>
    decreases rows.len(),
{
    if rows.len() == 0 {
        Map::empty()
    } else {
        seeded(rows.drop_last()).insert(rows.last().code@, rows.last().id@)
    }
}

/// Whether a set still needs a row: it is printed, and its code is bound to
/// no expansion yet.
pub open spec fn needs_expansion(set: SetRecordView, map: Map<Seq<char>, Seq<char>>) -> bool {
    !set.digital && !map.contains_key(set.code)
}

/// The map after the insert of `row` was answered with `outcome`: the row's
/// code is bound to its identifier where the row was written, and nothing
/// changes where it was not.
pub open spec fn recorded(map: Map<Seq<char>, Seq<char>>, row: SetRow, outcome: InsertOutcome) -> Map<
    Seq<char>,
    Seq<char>,
> {
    if outcome == InsertOutcome::Inserted {
        map.insert(row.code, row.id)
    } else {
        map
    }
}

/// Seeds the map of a run with the rows that the store lists.
pub fn preload_expansions(rows: &Vec<Expansion>) -> (map: ExpansionMap)
    ensures
        map@ == seeded(rows@),
{
    let mut map = ExpansionMap::new();
    let n: usize = rows.len();
    let mut i: usize = 0;
    while i < n
        invariant
            n == rows@.len(),
            0 <= i <= n,
            map@ == seeded(rows@.take(i as int)),
        decreases n - i,
    {
        proof {
            assert(rows@.take(i + 1).drop_last() =~= rows@.take(i as int));
        }
        map.insert(rows[i].code.clone(), rows[i].id.clone());
        i = i + 1;
    }
    assert(rows@.take(n as int) =~= rows@);
    map
}

/// The map of a run that wrote its expansions in one statement: seeded with
/// the rows that the store listed before, then with the rows that the
/// statement wrote, so that a code that the store held already stays bound
/// to its stored identifier and each new code is bound to the identifier of
/// the row that was written for it.
pub fn merge_expansions(preloaded: &Vec<Expansion>, written: &Vec<Expansion>) -> (map: ExpansionMap)
    ensures
        map@ == seeded(preloaded@ + written@),
{
    let mut map = preload_expansions(preloaded);
    let n: usize = written.len();
    let mut i: usize = 0;
    assert(preloaded@ + written@.take(0) =~= preloaded@);
    while i < n
        invariant
            n == written@.len(),
            0 <= i <= n,
            map@ == seeded(preloaded@ + written@.take(i as int)),
        decreases n - i,
    {
        proof {
            let grown = preloaded@ + written@.take(i + 1);
            assert(grown.drop_last() =~= preloaded@ + written@.take(i as int));
            assert(grown.last() == written@[i as int]);
        }
        map.insert(written[i].code.clone(), written[i].id.clone());
        i = i + 1;
    }
    assert(written@.take(n as int) =~= written@);
    map
}

/// Whether a set still needs a row.
pub fn needs_insert(set: &SetRecord, map: &ExpansionMap) -> (needed: bool)
    ensures
        needed == needs_expansion(set@, map@),
{
    !set.digital && !map.contains_code(set.code.as_str())
}

/// Decides what to do for one set of the feed: the row to insert, under a
/// new identifier, where the set still needs one, and `None` where it is
/// digital-only or its code is bound already.
pub fn upsert_expansion(set: &SetRecord, map: &ExpansionMap) -> (r: Option<FormattedSet>)
    ensures
        r is Some <==> needs_expansion(set@, map@),
        set.digital ==> r is None,
        r matches Some(row) ==> is_token(row.id@) && row@ == set_row(row.id@, set@),
{
    if needs_insert(set, map) {
        Some(FormattedSet::new(set))
    } else {
        None
    }
}

impl ExpansionMap {
    /// Takes note of what the store answered to the insert of `row`.
    pub fn record_insert(&mut self, row: &FormattedSet, outcome: InsertOutcome)
        ensures
            final(self)@ == recorded(old(self)@, row@, outcome),
    {
        if outcome == InsertOutcome::Inserted {
            self.insert(row.code.clone(), row.id.clone());
        }
    }
}

/// The sets as plain values.
pub open spec fn records_view(sets: Seq<SetRecord>) -> Seq<SetRecordView> {
    sets.map_values(|s: SetRecord| s@)
}

/// The place of the first set that still needs a row, or the number of
/// sets where none does.
pub open spec fn first_needed(pending: Seq<SetRecordView>, map: Map<Seq<char>, Seq<char>>) -> int
    decreases pending.len(),
{
    if pending.len() == 0 {
        0
    } else if needs_expansion(pending[0], map) {
        0
    } else {
        1 + first_needed(pending.drop_first(), map)
    }
}

/// The expansion cache of one run while it is built: the map so far, and
/// the sets of the feed that are still to be looked at.
pub struct ExpansionSync {
    map: ExpansionMap,
    sets: Vec<SetRecord>,
    next: usize,
}

impl ExpansionSync {
    /// How many sets of the feed were looked at.
    spec fn done(&self) -> int {
        if self.next <= self.sets@.len() {
            self.next as int
        } else {
            self.sets@.len() as int
        }
    }

    /// The map so far.
    pub closed spec fn map(&self) -> Map<Seq<char>, Seq<char>> {
        self.map@
    }

    /// The sets that are still to be looked at, in the order of the feed.
    pub closed spec fn pending(&self) -> Seq<SetRecordView> {
        records_view(self.sets@.skip(self.done()))
    }

    /// Moves on to the next set that still needs a row and gives that row,
    /// under a new identifier, for the store to insert; `None` when no set
    /// is left that needs one. Sets that are digital-only or whose code is
    /// bound are passed over.
    pub fn next_insert(&mut self) -> (r: Option<FormattedSet>)
        ensures
            final(self).map() == old(self).map(),
            ({
                let k = first_needed(old(self).pending(), old(self).map());
                if k < old(self).pending().len() {
                    &&& r is Some
                    &&& is_token(r->0.id@)
                    &&& r->0@ == set_row(r->0.id@, old(self).pending()[k])
                    &&& final(self).pending() == old(self).pending().skip(k + 1)
                } else {
                    &&& r is None
                    &&& final(self).pending().len() == 0
                }
            }),
    {
        let ghost before = self.pending();
        let ghost start = self.done();
        let ghost map = self.map@;
        assert(before.skip(0) =~= before);
        while self.next < self.sets.len()
            invariant
                0 <= start <= self.done(),
                start <= self.sets@.len(),
                self.next == old(self).next || self.next <= self.sets@.len(),
                self.sets == old(self).sets,
                self.map@ == map,
                map == old(self).map(),
                before == records_view(self.sets@.skip(start)),
                before == old(self).pending(),
                first_needed(before, map) == (self.done() - start) + first_needed(
                    before.skip(self.done() - start),
                    map,
                ),
            decreases self.sets@.len() - self.next,
        {
            let i: usize = self.next;
            let ghost rest = before.skip(i - start);
            assert(rest.drop_first() =~= before.skip(i + 1 - start));
            self.next = i + 1;
            let planned = upsert_expansion(&self.sets[i], &self.map);
            if planned.is_some() {
                return planned;
            }
        }
        None
    }

    /// Takes note of what the store answered to the insert of `row`.
    pub fn record(&mut self, row: &FormattedSet, outcome: InsertOutcome)
        ensures
            final(self).map() == recorded(old(self).map(), row@, outcome),
            final(self).pending() == old(self).pending(),
    {
        self.map.record_insert(row, outcome);
    }

    /// The map that was built.
    pub fn into_map(self) -> (map: ExpansionMap)
        ensures
            map@ == self.map(),
    {
        self.map
    }
}

/// Starts the expansion cache of a run: the map is seeded with the rows
/// that the store lists, and every set of the feed is still to be looked
/// at.
pub fn upsert_expansions(preloaded: &Vec<Expansion>, sets: Vec<SetRecord>) -> (sync: ExpansionSync)
    ensures
        sync.map() == seeded(preloaded@),
        sync.pending() == records_view(sets@),
{
    let sync = ExpansionSync { map: preload_expansions(preloaded), sets, next: 0 };
    sync
}

/// The map at the end of a run that starts with `map` and `pending` and in
/// which the store answers the inserts, in their order, with `answers`:
/// each answer comes with the identifier that the row was given.
pub open spec fn built(
    map: Map<Seq<char>, Seq<char>>,
    pending: Seq<SetRecordView>,
    answers: Seq<(Seq<char>, InsertOutcome)>,
) -> Map<Seq<char>, Seq<char>>
    decreases pending.len(),
{
    let k = first_needed(pending, map);
    if 0 <= k < pending.len() && answers.len() > 0 {
        built(
            recorded(map, set_row(answers[0].0, pending[k]), answers[0].1),
            pending.skip(k + 1),
            answers.drop_first(),
        )
    } else {
        map
    }
}

/// The first set that needs a row does need one, and stands among the
/// pending ones or behind them.
pub proof fn lemma_first_needed(pending: Seq<SetRecordView>, map: Map<Seq<char>, Seq<char>>)
    ensures
        0 <= first_needed(pending, map) <= pending.len(),
        first_needed(pending, map) < pending.len() ==> needs_expansion(
            pending[first_needed(pending, map)],
            map,
        ),
        forall|j: int|
            0 <= j < first_needed(pending, map) ==> !needs_expansion(#[trigger] pending[j], map),
    decreases pending.len(),
{
    if pending.len() > 0 && !needs_expansion(pending[0], map) {
        let rest = pending.drop_first();
        lemma_first_needed(rest, map);
        assert forall|j: int| 0 <= j < first_needed(pending, map) implies !needs_expansion(
            #[trigger] pending[j],
            map,
        ) by {
            if j > 0 {
                assert(pending[j] == rest[j - 1]);
            }
        }
    }
}

/// A run never rebinds a code and binds none but the codes of printed sets
/// of the feed: what was bound stays bound to the same identifier, and a
/// code that is bound afterwards and was not before is the code of a set of
/// the feed that is not digital-only.
pub proof fn lemma_run_binds_only_printed_sets(
    map: Map<Seq<char>, Seq<char>>,
    pending: Seq<SetRecordView>,
    answers: Seq<(Seq<char>, InsertOutcome)>,
)
    ensures
        forall|code: Seq<char>|
            map.contains_key(code) ==> #[trigger] built(map, pending, answers).contains_key(code)
                && built(map, pending, answers)[code] == map[code],
        forall|code: Seq<char>|
            #[trigger] built(map, pending, answers).contains_key(code) && !map.contains_key(code)
                ==> exists|i: int|
                0 <= i < pending.len() && (#[trigger] pending[i]).code == code && !pending[i].digital,
    decreases pending.len(),
{
    let k = first_needed(pending, map);
    lemma_first_needed(pending, map);
    if 0 <= k < pending.len() && answers.len() > 0 {
        let next = recorded(map, set_row(answers[0].0, pending[k]), answers[0].1);
        let rest = pending.skip(k + 1);
        let end = built(next, rest, answers.drop_first());
        lemma_run_binds_only_printed_sets(next, rest, answers.drop_first());
        assert(built(map, pending, answers) == end);
        assert forall|code: Seq<char>| map.contains_key(code) implies #[trigger] built(
            map,
            pending,
            answers,
        ).contains_key(code) && built(map, pending, answers)[code] == map[code] by {
            assert(next.contains_key(code) && next[code] == map[code]);
            assert(end.contains_key(code));
        }
        assert forall|code: Seq<char>|
            #[trigger] built(map, pending, answers).contains_key(code) && !map.contains_key(
                code,
            ) implies exists|i: int|
            0 <= i < pending.len() && (#[trigger] pending[i]).code == code
                && !pending[i].digital by {
            assert(end.contains_key(code));
            if next.contains_key(code) {
                assert(pending[k].code == code);
            } else {
                let i = choose|i: int|
                    0 <= i < rest.len() && (#[trigger] rest[i]).code == code && !rest[i].digital;
                assert(pending[i + k + 1] == rest[i]);
            }
        }
    }
}

/// Where every printed set of the feed has its code bound, no set needs a
/// row.
pub proof fn lemma_nothing_needed_when_all_bound(
    pending: Seq<SetRecordView>,
    map: Map<Seq<char>, Seq<char>>,
)
    requires
        forall|i: int|
            0 <= i < pending.len() ==> (#[trigger] pending[i]).digital || map.contains_key(
                pending[i].code,
            ),
    ensures
        first_needed(pending, map) == pending.len(),
    decreases pending.len(),
{
    if pending.len() > 0 {
        let rest = pending.drop_first();
        assert forall|i: int| 0 <= i < rest.len() implies (#[trigger] rest[i]).digital
            || map.contains_key(rest[i].code) by {
            assert(rest[i] == pending[i + 1]);
        }
        lemma_nothing_needed_when_all_bound(rest, map);
    }
}

/// A run in which the store writes every row binds the code of every
/// printed set of the feed.
pub proof fn lemma_complete_run_binds_every_printed_set(
    map: Map<Seq<char>, Seq<char>>,
    pending: Seq<SetRecordView>,
    answers: Seq<(Seq<char>, InsertOutcome)>,
)
    requires
        answers.len() >= pending.len(),
        forall|j: int| 0 <= j < answers.len() ==> (#[trigger] answers[j]).1 == InsertOutcome::Inserted,
    ensures
        forall|i: int|
            0 <= i < pending.len() ==> (#[trigger] pending[i]).digital || built(
                map,
                pending,
                answers,
            ).contains_key(pending[i].code),
    decreases pending.len(),
{
    let k = first_needed(pending, map);
    let end = built(map, pending, answers);
    lemma_first_needed(pending, map);
    lemma_run_binds_only_printed_sets(map, pending, answers);
    if 0 <= k < pending.len() && answers.len() > 0 {
        let next = recorded(map, set_row(answers[0].0, pending[k]), answers[0].1);
        let rest = pending.skip(k + 1);
        let later = answers.drop_first();
        assert forall|j: int| 0 <= j < later.len() implies (#[trigger] later[j]).1
            == InsertOutcome::Inserted by {
            assert(later[j] == answers[j + 1]);
        }
        lemma_complete_run_binds_every_printed_set(next, rest, later);
        lemma_run_binds_only_printed_sets(next, rest, later);
        assert(end == built(next, rest, later));
        assert forall|i: int| 0 <= i < pending.len() implies (#[trigger] pending[i]).digital
            || end.contains_key(pending[i].code) by {
            if i < k {
                assert(!needs_expansion(pending[i], map));
            } else if i == k {
                assert(next.contains_key(pending[k].code));
            } else {
                assert(rest[i - k - 1] == pending[i]);
            }
        }
    } else {
        assert forall|i: int| 0 <= i < pending.len() implies (#[trigger] pending[i]).digital
            || end.contains_key(pending[i].code) by {
            assert(!needs_expansion(pending[i], map));
        }
    }
}

/// A second run over an unchanged feed inserts no expansion: after a run
/// in which the store wrote every row, a run over the same sets that starts
/// from the map as it then is finds no set that needs a row, and leaves the
/// map as it is.
pub proof fn lemma_second_run_inserts_no_expansion(
    map: Map<Seq<char>, Seq<char>>,
    pending: Seq<SetRecordView>,
    answers: Seq<(Seq<char>, InsertOutcome)>,
    again: Seq<(Seq<char>, InsertOutcome)>,
)
    requires
        answers.len() >= pending.len(),
        forall|j: int| 0 <= j < answers.len() ==> (#[trigger] answers[j]).1 == InsertOutcome::Inserted,
    ensures
        first_needed(pending, built(map, pending, answers)) == pending.len(),
        built(built(map, pending, answers), pending, again) == built(map, pending, answers),
{
    lemma_complete_run_binds_every_printed_set(map, pending, answers);
    lemma_nothing_needed_when_all_bound(pending, built(map, pending, answers));
}

/// No row is ever planned for a digital-only set.
pub proof fn lemma_digital_set_gets_no_row(set: SetRecordView, map: Map<Seq<char>, Seq<char>>)
    requires
        set.digital,
    ensures
        !needs_expansion(set, map),
{
}

/// Every code that the store lists is bound in the seeded map.
pub proof fn lemma_seeded_knows(rows: Seq<Expansion>, i: int)
    requires
        0 <= i < rows.len(),
    ensures
        seeded(rows).contains_key(rows[i].code@),
    decreases rows.len(),
{
    if i < rows.len() - 1 {
        lemma_seeded_knows(rows.drop_last(), i);
    }
}

/// The seeded map binds a code to the identifier of the last row of that
/// code.
pub proof fn lemma_seeded_binds_last(rows: Seq<Expansion>, i: int)
    requires
        0 <= i < rows.len(),
        forall|j: int| i < j < rows.len() ==> (#[trigger] rows[j]).code@ != rows[i].code@,
    ensures
        seeded(rows).contains_key(rows[i].code@),
        seeded(rows)[rows[i].code@] == rows[i].id@,
    decreases rows.len(),
{
    if i < rows.len() - 1 {
        let front = rows.drop_last();
        assert forall|j: int| i < j < front.len() implies (#[trigger] front[j]).code@
            != front[i].code@ by {
            assert(front[j] == rows[j]);
        }
        lemma_seeded_binds_last(front, i);
        assert(rows[rows.len() - 1].code@ != rows[i].code@);
    }
}

/// In the merged map a code that the store held stays bound to its stored
/// identifier: where the store listed one row of the code and the statement
/// wrote none of that code, the code is bound to the identifier of the
/// listed row.
pub proof fn lemma_merged_keeps_stored_id(
    preloaded: Seq<Expansion>,
    written: Seq<Expansion>,
    i: int,
)
    requires
        0 <= i < preloaded.len(),
        forall|j: int| i < j < preloaded.len() ==> (#[trigger] preloaded[j]).code@ != preloaded[i].code@,
        forall|j: int| 0 <= j < written.len() ==> (#[trigger] written[j]).code@ != preloaded[i].code@,
    ensures
        seeded(preloaded + written).contains_key(preloaded[i].code@),
        seeded(preloaded + written)[preloaded[i].code@] == preloaded[i].id@,
{
    let rows = preloaded + written;
    assert(rows[i] == preloaded[i]);
    assert forall|j: int| i < j < rows.len() implies (#[trigger] rows[j]).code@ != rows[i].code@ by {
        if j < preloaded.len() {
            assert(rows[j] == preloaded[j]);
        } else {
            assert(rows[j] == written[j - preloaded.len()]);
        }
    }
    lemma_seeded_binds_last(rows, i);
}

/// A second run inserts no expansion again: once the insert of a set's row
/// was answered as written, the set needs no row, in this run and, the
/// store listing that row, in any later one.
pub proof fn lemma_rerun_inserts_no_expansion(
    map: Map<Seq<char>, Seq<char>>,
    id: Seq<char>,
    set: SetRecordView,
    later_rows: Seq<Expansion>,
    i: int,
)
    requires
        0 <= i < later_rows.len(),
        later_rows[i].code@ == set.code,
    ensures
        !needs_expansion(set, recorded(map, set_row(id, set), InsertOutcome::Inserted)),
        !needs_expansion(set, seeded(later_rows)),
{
    lemma_seeded_knows(later_rows, i);
}

/// Taking the text of each identifier changes neither which codes are
/// bound nor how many.
proof fn lemma_same_size(m: Map<Seq<char>, String>)
    ensures
        m.map_values(|id: String| id@).dom() == m.dom(),
{
}

} // verus!
