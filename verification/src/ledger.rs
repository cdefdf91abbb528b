//! Chip counts: how many chips of each denomination somebody holds or stakes.

use vstd::prelude::*;
use crate::bet::{Chip, ChipView};
use crate::error::Error;

verus! {

/// Number of chips of `chip` in `counts`; zero where it has no entry.
pub open spec fn count_in(counts: Map<ChipView, nat>, chip: ChipView) -> nat {
    if counts.dom().contains(chip) {
        counts[chip]
    } else {
        0
    }
}

/// `counts` with the count of `chip` set to `n`. A count of zero leaves no entry.
pub open spec fn with_count(counts: Map<ChipView, nat>, chip: ChipView, n: int) -> Map<
    ChipView,
    nat,
> {
    if n <= 0 {
        counts.remove(chip)
    } else {
        counts.insert(chip, n as nat)
    }
}

/// `counts` with `n` more chips of `chip`.
pub open spec fn deposited(counts: Map<ChipView, nat>, chip: ChipView, n: int) -> Map<
    ChipView,
    nat,
> {
    with_count(counts, chip, count_in(counts, chip) + n)
}

/// `counts` with `n` fewer chips of `chip`.
pub open spec fn withdrawn(counts: Map<ChipView, nat>, chip: ChipView, n: int) -> Map<
    ChipView,
    nat,
> {
    with_count(counts, chip, count_in(counts, chip) - n)
}

/// Deposits add up, in whatever order they are made.
pub proof fn lemma_deposits_commute(
    counts: Map<ChipView, nat>,
    a: ChipView,
    x: nat,
    b: ChipView,
    y: nat,
)
    ensures
        deposited(deposited(counts, a, x as int), b, y as int) == deposited(
            deposited(counts, b, y as int),
            a,
            x as int,
        ),
        forall|chip: ChipView|
            count_in(deposited(counts, a, x as int), chip) == count_in(counts, chip) + if chip
                == a {
                x
            } else {
                0
            },
{
    assert(deposited(deposited(counts, a, x as int), b, y as int) =~= deposited(
        deposited(counts, b, y as int),
        a,
        x as int,
    ));
}

/// Taking out what was put in leaves the counts as they were, provided that they held
/// no entry of zero chips.
pub proof fn lemma_withdraw_undoes_deposit(counts: Map<ChipView, nat>, chip: ChipView, n: nat)
    requires
        well_kept(counts),
    ensures
        withdrawn(deposited(counts, chip, n as int), chip, n as int) == counts,
{
    assert(withdrawn(deposited(counts, chip, n as int), chip, n as int) =~= counts);
}

/// What one chip weighs in a sum over chip counts.
pub enum Weight {
    /// Each chip counts for its value in cents.
    Cents,
    /// Each chip counts for one.
    Chips,
}

impl Weight {
    /// The weight of one chip of the denomination `chip`.
    pub open spec fn of(self, chip: ChipView) -> nat {
        match self {
            Weight::Cents => chip.value_cents as nat,
            Weight::Chips => 1,
        }
    }
}

/// The sum, over the entries of `counts`, of the chip's weight times its count.
pub open spec fn sum_over(counts: Map<ChipView, nat>, weight: Weight) -> nat
    decreases counts.dom().len(),
    when counts.dom().finite()
{
    if counts.dom().is_empty() {
        0
    } else {
        let chip = counts.dom().choose();
        weight.of(chip) * counts[chip] + sum_over(counts.remove(chip), weight)
    }
}

/// Total value of `counts` in cents: the sum of value times count over its entries.
pub open spec fn total_of(counts: Map<ChipView, nat>) -> nat {
    sum_over(counts, Weight::Cents)
}

/// Number of chips in `counts`, all denominations together.
pub open spec fn chips_in(counts: Map<ChipView, nat>) -> nat {
    sum_over(counts, Weight::Chips)
}

/// What holds of the counts in every `ChipCounts`: the entries are finitely many, none
/// counts zero chips, and each count fits in a `u32`.
pub open spec fn well_kept(counts: Map<ChipView, nat>) -> bool {
    &&& counts.dom().finite()
    &&& forall|chip: ChipView| #[trigger]
        counts.dom().contains(chip) ==> 0 < counts[chip] <= u32::MAX
}

/// `total` as a `u64`, held at `u64::MAX` where it would not fit.
pub open spec fn saturated(total: nat) -> u64 {
    if total > u64::MAX {
        u64::MAX
    } else {
        total as u64
    }
}

/// Whether the chips of `b` can be added to those of `a` with every count still within
/// a `u32`.
pub open spec fn fit_together(a: Map<ChipView, nat>, b: Map<ChipView, nat>) -> bool {
    forall|chip: ChipView| count_in(a, chip) + count_in(b, chip) <= u32::MAX
}

/// The entry-wise sum of two chip counts.
pub open spec fn merged(a: Map<ChipView, nat>, b: Map<ChipView, nat>) -> Map<ChipView, nat> {
    Map::new(
        |chip: ChipView| a.dom().contains(chip) || b.dom().contains(chip),
        |chip: ChipView| count_in(a, chip) + count_in(b, chip),
    )
}

/// Any entry can be taken out of a sum first: the order of summation does not matter.
pub proof fn lemma_sum_split(counts: Map<ChipView, nat>, weight: Weight, chip: ChipView)
    requires
        counts.dom().finite(),
        counts.dom().contains(chip),
    ensures
        sum_over(counts, weight) == weight.of(chip) * counts[chip] + sum_over(
            counts.remove(chip),
            weight,
        ),
    decreases counts.dom().len(),
{
    let first = counts.dom().choose();
    if first != chip {
        let rest = counts.remove(first);
        lemma_sum_split(rest, weight, chip);
        lemma_sum_split(counts.remove(chip), weight, first);
        assert(rest.remove(chip) =~= counts.remove(chip).remove(first));
    }
}

/// Setting one count changes a sum by the weight of the chips added or taken.
pub proof fn lemma_sum_with_count(
    counts: Map<ChipView, nat>,
    weight: Weight,
    chip: ChipView,
    n: int,
)
    requires
        counts.dom().finite(),
        0 <= n,
    ensures
        sum_over(with_count(counts, chip, n), weight) + weight.of(chip) * count_in(counts, chip)
            == sum_over(counts, weight) + weight.of(chip) * n,
{
    let after = with_count(counts, chip, n);
    let rest = counts.remove(chip);
    let held = count_in(counts, chip);
    assert(sum_over(counts, weight) == weight.of(chip) * held + sum_over(rest, weight)) by {
        if counts.dom().contains(chip) {
            lemma_sum_split(counts, weight, chip);
        } else {
            assert(rest =~= counts);
            assert(weight.of(chip) * held == 0) by (nonlinear_arith)
                requires
                    held == 0,
            ;
        }
    }
    assert(sum_over(after, weight) == weight.of(chip) * n + sum_over(rest, weight)) by {
        if n == 0 {
            assert(weight.of(chip) * n == 0) by (nonlinear_arith)
                requires
                    n == 0,
            ;
        } else {
            lemma_sum_split(after, weight, chip);
            assert(after.remove(chip) =~= rest);
        }
    }
}

/// The chip that entry `i` counts.
spec fn key_at(entries: Seq<(Chip, u32)>, i: int) -> ChipView {
    entries[i].0@
}

spec fn has_key(entries: Seq<(Chip, u32)>, chip: ChipView) -> bool {
    exists|i: int| 0 <= i < entries.len() && key_at(entries, i) == chip
}

spec fn index_of(entries: Seq<(Chip, u32)>, chip: ChipView) -> int {
    choose|i: int| 0 <= i < entries.len() && key_at(entries, i) == chip
}

/// No entry counts zero chips, and no denomination has two entries.
spec fn entries_ok(entries: Seq<(Chip, u32)>) -> bool {
    &&& forall|i: int| 0 <= i < entries.len() ==> (#[trigger] entries[i]).1 > 0
    &&& forall|i: int, j: int|
        0 <= i < j < entries.len() ==> key_at(entries, i) != key_at(entries, j)
}

spec fn entries_map(entries: Seq<(Chip, u32)>) -> Map<ChipView, nat> {
    Map::new(
        |chip: ChipView| has_key(entries, chip),
        |chip: ChipView| entries[index_of(entries, chip)].1 as nat,
    )
}

proof fn lemma_entry(entries: Seq<(Chip, u32)>, i: int)
    requires
        entries_ok(entries),
        0 <= i < entries.len(),
    ensures
        entries_map(entries).dom().contains(key_at(entries, i)),
        entries_map(entries)[key_at(entries, i)] == entries[i].1,
        index_of(entries, key_at(entries, i)) == i,
{
    let chip = key_at(entries, i);
    let j = index_of(entries, chip);
    assert(0 <= j < entries.len() && key_at(entries, j) == chip);
    if j < i {
        assert(key_at(entries, j) != key_at(entries, i));
    } else if i < j {
        assert(key_at(entries, i) != key_at(entries, j));
    }
}

proof fn lemma_push(entries: Seq<(Chip, u32)>, entry: (Chip, u32))
    requires
        entries_ok(entries),
        !has_key(entries, entry.0@),
        entry.1 > 0,
    ensures
        entries_ok(entries.push(entry)),
        entries_map(entries.push(entry)) == entries_map(entries).insert(
            entry.0@,
            entry.1 as nat,
        ),
{
    let after = entries.push(entry);
    let last = entries.len() as int;
    assert forall|i: int, j: int| 0 <= i < j < after.len() implies key_at(after, i) != key_at(
        after,
        j,
    ) by {
        assert(key_at(after, i) == key_at(entries, i));
        if j < last {
            assert(key_at(after, j) == key_at(entries, j));
        }
    }
    assert(entries_ok(after));
    assert forall|chip: ChipView| has_key(after, chip) <==> (has_key(entries, chip) || chip
        == entry.0@) by {
        if has_key(after, chip) {
            let i = index_of(after, chip);
            if i < last {
                assert(key_at(entries, i) == chip);
            }
        }
        if has_key(entries, chip) {
            let i = index_of(entries, chip);
            assert(key_at(after, i) == chip);
        }
        if chip == entry.0@ {
            assert(key_at(after, last) == chip);
        }
    }
    assert forall|chip: ChipView| has_key(after, chip) implies entries_map(after)[chip]
        == entries_map(entries).insert(entry.0@, entry.1 as nat)[chip] by {
        let i = index_of(after, chip);
        lemma_entry(after, i);
        if i < last {
            assert(key_at(entries, i) == chip);
            lemma_entry(entries, i);
        }
    }
    assert(entries_map(after) =~= entries_map(entries).insert(entry.0@, entry.1 as nat));
}

proof fn lemma_update(entries: Seq<(Chip, u32)>, i: int, entry: (Chip, u32))
    requires
        entries_ok(entries),
        0 <= i < entries.len(),
        entry.0@ == key_at(entries, i),
        entry.1 > 0,
    ensures
        entries_ok(entries.update(i, entry)),
        entries_map(entries.update(i, entry)) == entries_map(entries).insert(
            entry.0@,
            entry.1 as nat,
        ),
{
    let after = entries.update(i, entry);
    assert forall|j: int| 0 <= j < after.len() implies key_at(after, j) == key_at(entries, j) by {}
    assert forall|a: int, b: int| 0 <= a < b < after.len() implies key_at(after, a) != key_at(
        after,
        b,
    ) by {
        assert(key_at(entries, a) != key_at(entries, b));
    }
    assert(entries_ok(after));
    assert forall|chip: ChipView| has_key(after, chip) <==> has_key(entries, chip) by {
        if has_key(after, chip) {
            let j = index_of(after, chip);
            assert(key_at(entries, j) == chip);
        }
        if has_key(entries, chip) {
            let j = index_of(entries, chip);
            assert(key_at(after, j) == chip);
        }
    }
    lemma_entry(entries, i);
    assert forall|chip: ChipView| has_key(after, chip) implies entries_map(after)[chip]
        == entries_map(entries).insert(entry.0@, entry.1 as nat)[chip] by {
        let j = index_of(after, chip);
        lemma_entry(after, j);
        lemma_entry(entries, j);
    }
    assert(entries_map(after) =~= entries_map(entries).insert(entry.0@, entry.1 as nat));
}

proof fn lemma_remove(entries: Seq<(Chip, u32)>, i: int)
    requires
        entries_ok(entries),
        0 <= i < entries.len(),
    ensures
        entries_ok(entries.remove(i)),
        entries_map(entries.remove(i)) == entries_map(entries).remove(key_at(entries, i)),
{
    let after = entries.remove(i);
    let gone = key_at(entries, i);
    assert forall|j: int| 0 <= j < after.len() implies key_at(after, j) == key_at(
        entries,
        if j < i {
            j
        } else {
            j + 1
        },
    ) by {}
    assert forall|a: int, b: int| 0 <= a < b < after.len() implies key_at(after, a) != key_at(
        after,
        b,
    ) by {
        let a0 = if a < i {
            a
        } else {
            a + 1
        };
        let b0 = if b < i {
            b
        } else {
            b + 1
        };
        assert(key_at(entries, a0) != key_at(entries, b0));
    }
    assert(entries_ok(after));
    assert forall|chip: ChipView| has_key(after, chip) <==> (has_key(entries, chip) && chip
        != gone) by {
        if has_key(after, chip) {
            let j = index_of(after, chip);
            let j0 = if j < i {
                j
            } else {
                j + 1
            };
            assert(key_at(entries, j0) == chip);
            lemma_entry(entries, j0);
            lemma_entry(entries, i);
        }
        if has_key(entries, chip) && chip != gone {
            let j0 = index_of(entries, chip);
            let j = if j0 < i {
                j0
            } else {
                j0 - 1
            };
            assert(key_at(after, j) == chip);
        }
    }
    assert forall|chip: ChipView| has_key(after, chip) implies entries_map(after)[chip]
        == entries_map(entries)[chip] by {
        let j = index_of(after, chip);
        let j0 = if j < i {
            j
        } else {
            j + 1
        };
        lemma_entry(after, j);
        lemma_entry(entries, j0);
    }
    assert(entries_map(after) =~= entries_map(entries).remove(gone));
}

proof fn lemma_finite(entries: Seq<(Chip, u32)>)
    ensures
        entries_map(entries).dom().finite(),
    decreases entries.len(),
{
    if entries.len() == 0 {
        assert(entries_map(entries).dom() =~= Set::empty());
    } else {
        let front = entries.drop_last();
        let last = entries.len() - 1;
        lemma_finite(front);
        assert forall|chip: ChipView| has_key(entries, chip) <==> (has_key(front, chip) || chip
            == key_at(entries, last)) by {
            if has_key(entries, chip) {
                let i = index_of(entries, chip);
                if i < last {
                    assert(key_at(front, i) == chip);
                }
            }
            if has_key(front, chip) {
                let i = index_of(front, chip);
                assert(key_at(entries, i) == chip);
            }
        }
        assert(entries_map(entries).dom() =~= entries_map(front).dom().insert(
            key_at(entries, last),
        ));
    }
}

/// Entries that agree in denomination and count, one by one, stand for the same counts.
proof fn lemma_same_entries(a: Seq<(Chip, u32)>, b: Seq<(Chip, u32)>)
    requires
        entries_ok(a),
        a.len() == b.len(),
        forall|j: int|
            0 <= j < a.len() ==> (#[trigger] b[j]).0@ == a[j].0@ && b[j].1 == a[j].1,
    ensures
        entries_ok(b),
        entries_map(b) == entries_map(a),
{
    assert forall|j: int| 0 <= j < b.len() implies key_at(b, j) == key_at(a, j) by {
        assert(b[j].0@ == a[j].0@);
    }
    assert forall|i: int, j: int| 0 <= i < j < b.len() implies key_at(b, i) != key_at(b, j) by {
        assert(key_at(a, i) != key_at(a, j));
    }
    assert forall|j: int| 0 <= j < b.len() implies (#[trigger] b[j]).1 > 0 by {
        assert(a[j].1 > 0);
    }
    assert forall|chip: ChipView| has_key(b, chip) <==> has_key(a, chip) by {
        if has_key(b, chip) {
            assert(key_at(a, index_of(b, chip)) == chip);
        }
        if has_key(a, chip) {
            assert(key_at(b, index_of(a, chip)) == chip);
        }
    }
    assert forall|chip: ChipView| has_key(b, chip) implies entries_map(b)[chip] == entries_map(
        a,
    )[chip] by {
        let j = index_of(b, chip);
        lemma_entry(b, j);
        lemma_entry(a, j);
    }
    assert(entries_map(b) =~= entries_map(a));
}

proof fn lemma_well_kept(entries: Seq<(Chip, u32)>)
    requires
        entries_ok(entries),
    ensures
        well_kept(entries_map(entries)),
{
    lemma_finite(entries);
    assert forall|chip: ChipView| #[trigger]
        entries_map(entries).dom().contains(chip) implies 0 < entries_map(entries)[chip]
        <= u32::MAX by {
        lemma_entry(entries, index_of(entries, chip));
    }
}

proof fn lemma_sum_empty(weight: Weight)
    ensures
        sum_over(Map::<ChipView, nat>::empty(), weight) == 0,
{
    assert(Map::<ChipView, nat>::empty().dom() =~= Set::<ChipView>::empty());
}

proof fn lemma_prefix_ok(entries: Seq<(Chip, u32)>, n: int)
    requires
        entries_ok(entries),
        0 <= n <= entries.len(),
    ensures
        entries_ok(entries.take(n)),
{
    let front = entries.take(n);
    assert forall|i: int, j: int| 0 <= i < j < front.len() implies key_at(front, i) != key_at(
        front,
        j,
    ) by {
        assert(key_at(entries, i) != key_at(entries, j));
    }
}

/// The sum over the first `i + 1` entries is the sum over the first `i` and entry `i`.
proof fn lemma_sum_step(entries: Seq<(Chip, u32)>, i: int, weight: Weight)
    requires
        entries_ok(entries),
        0 <= i < entries.len(),
    ensures
        sum_over(entries_map(entries.take(i + 1)), weight) == sum_over(
            entries_map(entries.take(i)),
            weight,
        ) + weight.of(key_at(entries, i)) * entries[i].1,
{
    let done = entries.take(i);
    let next = entries.take(i + 1);
    let chip = key_at(entries, i);
    assert(next =~= done.push(entries[i]));
    lemma_prefix_ok(entries, i);
    assert(!has_key(done, chip)) by {
        if has_key(done, chip) {
            let j = index_of(done, chip);
            assert(key_at(entries, j) == key_at(entries, i));
        }
    }
    lemma_push(done, entries[i]);
    lemma_finite(done);
    lemma_sum_with_count(entries_map(done), weight, chip, entries[i].1 as int);
    assert(weight.of(chip) * count_in(entries_map(done), chip) == 0) by (nonlinear_arith)
        requires
            count_in(entries_map(done), chip) == 0,
    ;
}

/// How many chips of each denomination somebody holds or stakes.
///
/// Stands as a map from denomination to a positive count: a denomination of which
/// nothing is held has no entry.
#[derive(Debug)]
pub struct ChipCounts {
    entries: Vec<(Chip, u32)>,
}

impl View for ChipCounts {
    type V = Map<ChipView, nat>;

    closed spec fn view(&self) -> Map<ChipView, nat> {
        entries_map(self.entries@)
    }
}

impl Clone for ChipCounts {
    fn clone(&self) -> (copy: Self)
        ensures
            copy@ == self@,
    {
        proof {
            use_type_invariant(self);
        }
        let mut entries: Vec<(Chip, u32)> = Vec::new();
        let mut i: usize = 0;
        while i < self.entries.len()
            invariant
                i <= self.entries@.len(),
                entries@.len() == i,
                forall|j: int|
                    0 <= j < i ==> (#[trigger] entries@[j]).0@ == self.entries@[j].0@
                        && entries@[j].1 == self.entries@[j].1,
            decreases self.entries@.len() - i,
        {
            entries.push((self.entries[i].0.clone(), self.entries[i].1));
            i += 1;
        }
        proof {
            lemma_same_entries(self.entries@, entries@);
        }
        ChipCounts { entries }
    }
}

impl ChipCounts {
    #[verifier::type_invariant]
    spec fn well_formed(&self) -> bool {
        entries_ok(self.entries@)
    }

    /// No chips at all.
    pub fn new() -> (counts: Self)
        ensures
            counts@ == Map::<ChipView, nat>::empty(),
            well_kept(counts@),
    {
        let counts = ChipCounts { entries: Vec::new() };
        proof {
            assert(counts@ =~= Map::<ChipView, nat>::empty());
            lemma_well_kept(counts.entries@);
        }
        counts
    }

    /// Takes the entries out to be changed, leaving none behind.
    fn take_entries(&mut self) -> (entries: Vec<(Chip, u32)>)
        ensures
            entries@ == old(self).entries@,
            final(self).entries@.len() == 0,
    {
        let mut entries: Vec<(Chip, u32)> = Vec::new();
        core::mem::swap(&mut self.entries, &mut entries);
        entries
    }

    /// Puts the entries in place of those that are there.
    fn put_entries(&mut self, entries: Vec<(Chip, u32)>)
        requires
            entries_ok(entries@),
        ensures
            final(self).entries@ == entries@,
    {
        let mut entries = entries;
        core::mem::swap(&mut self.entries, &mut entries);
    }

    fn find(&self, chip: &Chip) -> (found: Option<usize>)
        ensures
            match found {
                Some(i) => i < self.entries@.len() && key_at(self.entries@, i as int) == chip@,
                None => !has_key(self.entries@, chip@),
            },
    {
        let mut i: usize = 0;
        while i < self.entries.len()
            invariant
                i <= self.entries@.len(),
                forall|j: int| 0 <= j < i ==> key_at(self.entries@, j) != chip@,
            decreases self.entries@.len() - i,
        {
            if self.entries[i].0 == *chip {
                return Some(i);
            }
            i += 1;
        }
        None
    }

    /// Number of chips held of the denomination `chip`.
    pub fn count(&self, chip: &Chip) -> (n: u32)
        ensures
            n == count_in(self@, chip@),
            well_kept(self@),
    {
        proof {
            use_type_invariant(self);
            lemma_well_kept(self.entries@);
        }
        match self.find(chip) {
            Some(i) => {
                proof {
                    lemma_entry(self.entries@, i as int);
                }
                self.entries[i].1
            },
            None => 0,
        }
    }

    /// Adds `count` chips of the denomination `chip`.
    pub fn add(&mut self, chip: Chip, count: u32)
        requires
            count_in(old(self)@, chip@) + count <= u32::MAX,
        ensures
            final(self)@ == deposited(old(self)@, chip@, count as int),
            total_of(final(self)@) == total_of(old(self)@) + chip.value_cents * count,
            chips_in(final(self)@) == chips_in(old(self)@) + count,
            well_kept(final(self)@),
    {
        proof {
            use_type_invariant(&*self);
            lemma_finite(self.entries@);
            lemma_well_kept(self.entries@);
            lemma_sum_with_count(
                self@,
                Weight::Cents,
                chip@,
                count_in(self@, chip@) + count,
            );
            lemma_sum_with_count(
                self@,
                Weight::Chips,
                chip@,
                count_in(self@, chip@) + count,
            );
            assert(chip.value_cents * (count_in(self@, chip@) + count) == chip.value_cents
                * count_in(self@, chip@) + chip.value_cents * count) by (nonlinear_arith);
        }
        if count == 0 {
            proof {
                if self@.dom().contains(chip@) {
                    assert(has_key(self.entries@, chip@));
                    lemma_entry(self.entries@, index_of(self.entries@, chip@));
                    assert(self@.insert(chip@, self@[chip@]) =~= self@);
                } else {
                    assert(self@.remove(chip@) =~= self@);
                }
            }
            return;
        }
        match self.find(&chip) {
            Some(i) => {
                proof {
                    lemma_entry(self.entries@, i as int);
                    lemma_update(
                        self.entries@,
                        i as int,
                        (chip, (self.entries@[i as int].1 + count) as u32),
                    );
                }
                let mut entries = self.take_entries();
                let held = entries[i].1;
                entries.set(i, (chip, held + count));
                self.put_entries(entries);
                proof {
                    lemma_well_kept(self.entries@);
                }
            },
            None => {
                proof {
                    lemma_push(self.entries@, (chip, count));
                }
                let mut entries = self.take_entries();
                entries.push((chip, count));
                self.put_entries(entries);
                proof {
                    lemma_well_kept(self.entries@);
                }
            },
        }
    }

    /// Takes `count` chips of the denomination `chip` away, or refuses and changes
    /// nothing where fewer are held.
    pub fn remove(&mut self, chip: &Chip, count: u32) -> (taken: Result<(), Error>)
        ensures
            taken is Ok <==> count <= count_in(old(self)@, chip@),
            taken is Err ==> taken == Err::<(), Error>(Error::InsufficientFunds) && final(self)@
                == old(self)@,
            taken is Ok ==> final(self)@ == withdrawn(old(self)@, chip@, count as int),
            taken is Ok ==> total_of(final(self)@) == total_of(old(self)@) - chip.value_cents
                * count,
            taken is Ok ==> chips_in(final(self)@) == chips_in(old(self)@) - count,
            well_kept(final(self)@),
    {
        proof {
            use_type_invariant(&*self);
            lemma_finite(self.entries@);
            lemma_well_kept(self.entries@);
        }
        let held = self.count(chip);
        if held < count {
            return Err(Error::InsufficientFunds);
        }
        proof {
            lemma_sum_with_count(self@, Weight::Cents, chip@, held - count);
            lemma_sum_with_count(self@, Weight::Chips, chip@, held - count);
            assert(chip.value_cents * held == chip.value_cents * (held - count) + chip.value_cents
                * count) by (nonlinear_arith);
        }
        match self.find(chip) {
            Some(i) => {
                proof {
                    lemma_entry(self.entries@, i as int);
                }
                let mut entries = self.take_entries();
                let entry = entries.remove(i);
                proof {
                    lemma_remove(old(self).entries@, i as int);
                }
                if held > count {
                    proof {
                        assert(entry.0@ == chip@);
                        assert(!entries_map(entries@).dom().contains(chip@));
                        assert(!has_key(entries@, chip@));
                        lemma_push(entries@, (entry.0, (held - count) as u32));
                        assert(old(self)@.remove(chip@).insert(chip@, (held - count) as nat)
                            =~= old(self)@.insert(chip@, (held - count) as nat));
                    }
                    entries.push((entry.0, held - count));
                }
                self.put_entries(entries);
                proof {
                    lemma_well_kept(self.entries@);
                }
            },
            None => {
                assert(self@.remove(chip@) =~= self@);
            },
        }
        Ok(())
    }

    /// Whether all of `other` can be added: whether no count would leave the range of a
    /// `u32`.
    pub fn can_take(&self, other: &ChipCounts) -> (fits: bool)
        ensures
            fits == fit_together(self@, other@),
    {
        proof {
            use_type_invariant(self);
            use_type_invariant(other);
            lemma_well_kept(self.entries@);
            lemma_well_kept(other.entries@);
        }
        let mut i: usize = 0;
        while i < other.entries.len()
            invariant
                i <= other.entries@.len(),
                entries_ok(other.entries@),
                well_kept(self@),
                other@ == entries_map(other.entries@),
                forall|j: int|
                    0 <= j < i ==> count_in(self@, #[trigger] key_at(other.entries@, j))
                        + other.entries@[j].1 <= u32::MAX,
            decreases other.entries@.len() - i,
        {
            let held = self.count(&other.entries[i].0);
            if held as u64 + other.entries[i].1 as u64 > u32::MAX as u64 {
                proof {
                    lemma_entry(other.entries@, i as int);
                    let chip = key_at(other.entries@, i as int);
                    assert(count_in(self@, chip) + count_in(other@, chip) > u32::MAX);
                }
                return false;
            }
            i += 1;
        }
        proof {
            assert forall|chip: ChipView| count_in(self@, chip) + count_in(other@, chip)
                <= u32::MAX by {
                if other@.dom().contains(chip) {
                    let j = index_of(other.entries@, chip);
                    assert(key_at(other.entries@, j) == chip);
                    lemma_entry(other.entries@, j);
                }
            }
        }
        true
    }

    /// Adds every entry of `other`.
    pub fn add_all(&mut self, other: ChipCounts)
        requires
            fit_together(old(self)@, other@),
        ensures
            final(self)@ == merged(old(self)@, other@),
            total_of(final(self)@) == total_of(old(self)@) + total_of(other@),
            chips_in(final(self)@) == chips_in(old(self)@) + chips_in(other@),
            well_kept(final(self)@),
    {
        proof {
            use_type_invariant(&other);
            use_type_invariant(&*self);
            lemma_well_kept(self.entries@);
        }
        let mut i: usize = 0;
        proof {
            assert(entries_map(other.entries@.take(0)) =~= Map::<ChipView, nat>::empty());
            assert(self@ =~= merged(self@, Map::<ChipView, nat>::empty()));
            lemma_sum_empty(Weight::Cents);
            lemma_sum_empty(Weight::Chips);
        }
        while i < other.entries.len()
            invariant
                i <= other.entries@.len(),
                entries_ok(other.entries@),
                other@ == entries_map(other.entries@),
                fit_together(old(self)@, other@),
                well_kept(self@),
                self@ == merged(old(self)@, entries_map(other.entries@.take(i as int))),
                total_of(self@) == total_of(old(self)@) + total_of(
                    entries_map(other.entries@.take(i as int)),
                ),
                chips_in(self@) == chips_in(old(self)@) + chips_in(
                    entries_map(other.entries@.take(i as int)),
                ),
            decreases other.entries@.len() - i,
        {
            let chip = other.entries[i].0.clone();
            let count = other.entries[i].1;
            proof {
                let all = other.entries@;
                let done = all.take(i as int);
                let next = all.take(i + 1);
                assert(next =~= done.push(all[i as int]));
                lemma_prefix_ok(all, i as int);
                assert(!has_key(done, chip@)) by {
                    if has_key(done, chip@) {
                        let j = index_of(done, chip@);
                        assert(key_at(all, j) == key_at(all, i as int));
                    }
                }
                lemma_push(done, all[i as int]);
                lemma_finite(done);
                lemma_entry(all, i as int);
                lemma_sum_step(all, i as int, Weight::Cents);
                lemma_sum_step(all, i as int, Weight::Chips);
                assert(Weight::Chips.of(chip@) == 1);
                assert(Weight::Cents.of(chip@) == chip.value_cents);
                assert(!entries_map(done).dom().contains(chip@));
                assert(count_in(other@, chip@) == count);
                assert(count_in(self@, chip@) == count_in(old(self)@, chip@));
                assert(count_in(old(self)@, chip@) + count_in(other@, chip@) <= u32::MAX);
                assert(with_count(
                    merged(old(self)@, entries_map(done)),
                    chip@,
                    count_in(merged(old(self)@, entries_map(done)), chip@) + count,
                ) =~= merged(old(self)@, entries_map(next)));
            }
            self.add(chip, count);
            i += 1;
        }
        assert(other.entries@.take(i as int) =~= other.entries@);
    }

    /// Total value in cents, held at `u64::MAX` where the sum would not fit.
    pub fn total_cents(&self) -> (cents: u64)
        ensures
            cents == saturated(total_of(self@)),
    {
        proof {
            use_type_invariant(self);
            lemma_sum_empty(Weight::Cents);
            assert(entries_map(self.entries@.take(0)) =~= Map::<ChipView, nat>::empty());
        }
        let mut cents: u64 = 0;
        let mut i: usize = 0;
        while i < self.entries.len()
            invariant
                i <= self.entries@.len(),
                entries_ok(self.entries@),
                cents == saturated(total_of(entries_map(self.entries@.take(i as int)))),
            decreases self.entries@.len() - i,
        {
            let value: u128 = self.entries[i].0.value_cents as u128;
            let count: u128 = self.entries[i].1 as u128;
            proof {
                lemma_sum_step(self.entries@, i as int, Weight::Cents);
                assert(value * count <= 0xffff_ffff_ffff_ffff * 0xffff_ffff) by (nonlinear_arith)
                    requires
                        0 <= value <= 0xffff_ffff_ffff_ffff,
                        0 <= count <= 0xffff_ffff,
                ;
            }
            let sum: u128 = cents as u128 + value * count;
            cents = if sum > u64::MAX as u128 {
                u64::MAX
            } else {
                sum as u64
            };
            i += 1;
        }
        assert(self.entries@.take(i as int) =~= self.entries@);
        cents
    }

    /// Number of chips, all denominations together.
    pub fn chip_total(&self) -> (chips: u128)
        ensures
            chips == chips_in(self@),
    {
        proof {
            use_type_invariant(self);
            lemma_sum_empty(Weight::Chips);
            assert(entries_map(self.entries@.take(0)) =~= Map::<ChipView, nat>::empty());
        }
        let mut chips: u128 = 0;
        let mut i: usize = 0;
        while i < self.entries.len()
            invariant
                i <= self.entries@.len(),
                entries_ok(self.entries@),
                chips == chips_in(entries_map(self.entries@.take(i as int))),
                chips <= i * 0xffff_ffff,
            decreases self.entries@.len() - i,
        {
            proof {
                lemma_sum_step(self.entries@, i as int, Weight::Chips);
                assert((i + 1) * 0xffff_ffff == i * 0xffff_ffff + 0xffff_ffff) by (nonlinear_arith);
                assert(i * 0xffff_ffff <= 0xffff_ffff_ffff_ffff * 0xffff_ffff) by (nonlinear_arith)
                    requires
                        i <= 0xffff_ffff_ffff_ffff,
                ;
            }
            chips = chips + self.entries[i].1 as u128;
            i += 1;
        }
        assert(self.entries@.take(i as int) =~= self.entries@);
        chips
    }
}

} // verus!
