//! How the places of the marks move when a character is applied at each of them.
use crate::line_number::{spec_line_add, LineNumber};
use crate::place::{Mark, Place};
use crate::ui::{clamp_index, Change, IndexType, BACKSPACE, ENTER};
use crate::view::{spec_line_length, View};
use std::collections::HashMap;
use vstd::prelude::*;
use vstd::std_specs::iter::IteratorSpec;
use vstd::view::View as _;

verus! {

broadcast use vstd::std_specs::hash::group_hash_axioms;

/// `a` and `b` added key by key, a missing key counting as 0.
pub open spec fn sum_changes(a: Map<u32, IndexType>, b: Map<u32, IndexType>) -> Map<u32, int> {
    Map::new(
        |k: u32| a.contains_key(k) || b.contains_key(k),
        |k: u32|
            (if a.contains_key(k) {
                a[k] as int
            } else {
                0
            }) + (if b.contains_key(k) {
                b[k] as int
            } else {
                0
            }),
    )
}

/// The value of `k` in `m`, 0 if `m` has none.
pub open spec fn value_or_zero(m: Map<u32, IndexType>, k: u32) -> int {
    if m.contains_key(k) {
        m[k] as int
    } else {
        0
    }
}

/// Whether one of the first `n` pairs of `pairs` has the key `k`.
pub open spec fn seen_key(pairs: Seq<(&u32, &IndexType)>, n: int, k: u32) -> bool {
    exists|j: int| 0 <= j < n && *pairs[j].0 == k
}

/// Whether every value of `m` fits an `IndexType`.
pub open spec fn fits_index_type(m: Map<u32, int>) -> bool {
    forall|k: u32| #[trigger] m.contains_key(k) ==> i32::MIN <= m[k] <= i32::MAX
}

/// Whether the values of `a` are the integers of `b`.
pub open spec fn same_changes(a: Map<u32, IndexType>, b: Map<u32, int>) -> bool {
    &&& a.dom() == b.dom()
    &&& forall|k: u32| #[trigger] a.contains_key(k) ==> a[k] as int == b[k]
}

/// What an [`Adjustment`] holds, as mathematical values.
pub struct AdjustmentModel {
    /// How many characters each pointer moves.
    pub shift: int,
    /// How many lines each place moves.
    pub line_change: int,
    /// How many columns the places on a line move, by the number of the line.
    pub indexes: Map<u32, int>,
    /// The change that the grid shows.
    pub change: Change,
}

/// The adjustment that [`Adjustment::new`] creates.
pub open spec fn model_new(line: nat, shift: int, index_change: int, change: Change) -> AdjustmentModel {
    let line_change = if change == Change::Clear {
        shift
    } else {
        0
    };
    AdjustmentModel {
        shift,
        line_change,
        indexes: Map::<u32, int>::empty().insert(spec_line_add(line, line_change) as u32, index_change),
        change,
    }
}

/// The adjustment that [`Adjustment::create`] creates for the character `c` at `place` of
/// the text `data`.
pub open spec fn model_create(c: char, place: Place, data: Seq<char>) -> Option<AdjustmentModel> {
    if c == BACKSPACE {
        if place.column@ == 0 {
            match spec_line_length(data, place.line@) {
                Some(n) => Some(model_new(place.line@, -1, n, Change::Clear)),
                None => None,
            }
        } else {
            Some(model_new(place.line@, -1, -1, Change::Backspace))
        }
    } else if c == ENTER {
        Some(model_new(place.line@, 1, -place.column@, Change::Clear))
    } else {
        Some(model_new(place.line@, 1, 1, Change::Insert(c)))
    }
}

/// The adjustment `a` followed by `b`, as [`Adjustment::add_assign`] merges them.
pub open spec fn model_add(a: AdjustmentModel, b: AdjustmentModel) -> AdjustmentModel {
    AdjustmentModel {
        shift: a.shift + b.shift,
        line_change: a.line_change + b.line_change,
        indexes: Map::new(
            |k: u32| a.indexes.contains_key(k) || b.indexes.contains_key(k),
            |k: u32|
                (if a.indexes.contains_key(k) {
                    a.indexes[k]
                } else {
                    0
                }) + (if b.indexes.contains_key(k) {
                    b.indexes[k]
                } else {
                    0
                }),
        ),
        change: if a.change == Change::Clear {
            Change::Clear
        } else {
            b.change
        },
    }
}

/// Whether the numbers of `m` fit the types that an [`Adjustment`] holds them in.
pub open spec fn model_fits(m: AdjustmentModel) -> bool {
    &&& i32::MIN <= m.shift <= i32::MAX
    &&& i32::MIN <= m.line_change <= i32::MAX
    &&& forall|k: u32| #[trigger] m.indexes.contains_key(k) ==> i32::MIN <= m.indexes[k] <= i32::MAX
}

/// The line that a place on `line` moves to.
pub open spec fn adjusted_line(line: nat, a: AdjustmentModel) -> nat {
    spec_line_add(line, a.line_change)
}

/// The column that a place at `column` moves to, once it is on line `line`.
pub open spec fn adjusted_column(column: int, line: nat, a: AdjustmentModel) -> int {
    if a.indexes.contains_key(line as u32) {
        clamp_index(column + a.indexes[line as u32])
    } else {
        column
    }
}

/// How the marks move: by how many characters the pointers move, by how many lines the
/// places move, and by how many columns the places on some lines move.
#[derive(Clone, Debug)]
pub struct Adjustment {
    /// How many characters each pointer moves.
    pub shift: IndexType,
    /// How many lines each place moves.
    pub line_change: IndexType,
    /// How many columns the places on a line move, by the number of the line.
    pub indexes_changed: HashMap<u32, IndexType>,
    /// The change that the grid shows.
    pub change: Change,
}

impl Adjustment {
    /// The mathematical values that `self` holds.
    pub open spec fn model(&self) -> AdjustmentModel {
        AdjustmentModel {
            shift: self.shift as int,
            line_change: self.line_change as int,
            indexes: self.indexes_changed@.map_values(|v: IndexType| v as int),
            change: self.change,
        }
    }

    /// Creates the adjustment for a change at line `line`: pointers move by `shift`; if the
    /// change is a clear, lines move by `shift` too; the places on the line where `line`
    /// ends up move by `index_change` columns.
    pub fn new(line: LineNumber, shift: IndexType, index_change: IndexType, change: Change) -> (a:
        Adjustment)
        ensures
            a.model() == model_new(line@, shift as int, index_change as int, change),
    {
        let line_change: IndexType = if matches!(change, Change::Clear) {
            shift
        } else {
            0
        };
        let mut indexes_changed: HashMap<u32, IndexType> = HashMap::new();
        indexes_changed.insert(line.add(line_change).value(), index_change);
        let a = Adjustment { shift, line_change, indexes_changed, change };
        assert(a.model().indexes =~= model_new(line@, shift as int, index_change as int, change).indexes);
        a
    }

    /// Creates the adjustment for the character `c` applied at `place` of the text of
    /// `view`: a backspace at the start of a line joins it to the line above (none if the line
    /// does not exist), another backspace removes a character, an enter splits the line, any
    /// other character is inserted.
    pub fn create(c: char, place: Place, view: &View) -> (r: Option<Adjustment>)
        requires
            c == BACKSPACE && place.column@ == 0 ==> place.line@ >= 1,
        ensures
            match model_create(c, place, view.data@) {
                Some(m) => r matches Some(a) && a.model() == m,
                None => r is None,
            },
    {
        if c == BACKSPACE {
            if place.column.value() == 0 {
                match view.line_length(place) {
                    Some(x) => Some(Self::new(place.line, -1, x.value(), Change::Clear)),
                    None => None,
                }
            } else {
                Some(Self::new(place.line, -1, -1, Change::Backspace))
            }
        } else if c == ENTER {
            Some(Self::new(place.line, 1, place.column.negated(), Change::Clear))
        } else {
            Some(Self::new(place.line, 1, 1, Change::Insert(c)))
        }
    }

    /// The adjustment that moves nothing.
    pub fn none() -> (a: Adjustment)
        ensures
            a.shift == 0,
            a.line_change == 0,
            a.indexes_changed@ == Map::<u32, IndexType>::empty(),
            a.change == Change::Nothing,
    {
        Adjustment {
            shift: 0,
            line_change: 0,
            indexes_changed: HashMap::new(),
            change: Change::Nothing,
        }
    }

    /// Merges `other` into `self`: the moves add up, and the change becomes that of `other`
    /// unless it is already a clear.
    pub fn add_assign(&mut self, other: Adjustment)
        requires
            model_fits(model_add(old(self).model(), other.model())),
        ensures
            final(self).model() == model_add(old(self).model(), other.model()),
            final(self).shift == old(self).shift + other.shift,
            final(self).line_change == old(self).line_change + other.line_change,
            same_changes(
                final(self).indexes_changed@,
                sum_changes(old(self).indexes_changed@, other.indexes_changed@),
            ),
            final(self).change == if old(self).change == Change::Clear {
                Change::Clear
            } else {
                other.change
            },
    {
        self.shift = self.shift + other.shift;
        self.line_change = self.line_change + other.line_change;
        let ghost start = self.indexes_changed@;
        let ghost m = other.indexes_changed@;
        assert(fits_index_type(sum_changes(start, m))) by {
            assert forall|k: u32| #[trigger] sum_changes(start, m).contains_key(k) implies i32::MIN
                <= sum_changes(start, m)[k] <= i32::MAX by {
                assert(model_add(old(self).model(), other.model()).indexes.contains_key(k));
            }
        }
        let ghost shift = self.shift;
        let ghost line_change = self.line_change;
        let ghost v0 = vstd::std_specs::hash::spec_hash_map_iter(&other.indexes_changed).remaining();
        let ghost mut done: int = 0;
        for pair in it: other.indexes_changed.iter()
            invariant
                self.shift == shift,
                self.line_change == line_change,
                self.change == old(self).change,
                m == other.indexes_changed@,
                fits_index_type(sum_changes(start, m)),
                it.seq() == v0,
                done == it.index(),
                0 <= it.index() <= v0.len(),
                it.seq().no_duplicates(),
                forall|k: u32|
                    #[trigger] self.indexes_changed@.contains_key(k) <==> (start.contains_key(k)
                        || seen_key(it.seq(), it.index(), k)),
                forall|k: u32|
                    #[trigger] self.indexes_changed@.contains_key(k) ==> self.indexes_changed@[k]
                        == value_or_zero(start, k) + if seen_key(it.seq(), it.index(), k) {
                        m[k] as int
                    } else {
                        0
                    },
        {
            let (line, change) = pair;
            let ghost idx = it.index();
            proof {
                let v = it.seq();
                assert(0 <= idx);
                assert(idx < v.len());
                assert(v[idx] == (line, change));
                assert(m.contains_key(*line) && m[*line] == *change);
                assert forall|j: int| 0 <= j < idx implies *v[j].0 != *line by {
                    if *v[j].0 == *line {
                        assert(m[*v[j].0] == *v[j].1);
                        assert(v[j] == v[idx]);
                    }
                }
                assert(!seen_key(v, idx, *line));
                assert(sum_changes(start, m).contains_key(*line));
            }
            let current: IndexType = match self.indexes_changed.get(line) {
                Some(v) => *v,
                None => 0,
            };
            self.indexes_changed.insert(*line, current + *change);
            proof {
                let v = it.seq();
                done = idx + 1;
                assert forall|k: u32| seen_key(v, idx + 1, k) == (seen_key(v, idx, k) || k
                    == *line) by {
                    if seen_key(v, idx + 1, k) && k != *line {
                        let j = choose|j: int| 0 <= j < idx + 1 && *v[j].0 == k;
                        assert(j < idx);
                    }
                    if k == *line {
                        assert(*v[idx].0 == k);
                    }
                }
            }
        }
        proof {
            let v = v0;
            assert(done == v.len());
            assert forall|k: u32| m.contains_key(k) implies seen_key(v, done, k) by {
                assert(v.contains((&k, &m[k])));
                let j = choose|j: int| 0 <= j < v.len() && v[j] == (&k, &m[k]);
                assert(*v[j].0 == k);
            }
            assert forall|k: u32| seen_key(v, done, k) implies m.contains_key(k) by {
                let j = choose|j: int| 0 <= j < done && *v[j].0 == k;
                assert(m.contains_key(*v[j].0));
            }
            assert(self.indexes_changed@.dom() =~= sum_changes(start, m).dom());
        }
        if !matches!(self.change, Change::Clear) {
            self.change = other.change;
        }
        assert(self.model().indexes =~= model_add(old(self).model(), other.model()).indexes);
    }
}

impl Mark {
    /// Moves `self` as `adjustment` says: the pointer by its shift, the place by its line
    /// change, then by the column change of the line that the place ends up on.
    pub fn adjust(&mut self, adjustment: &Adjustment)
        ensures
            ({
                let a = adjustment.model();
                let line = adjusted_line(old(self).place.line@, a);
                &&& match old(self).pointer.0 {
                    Some(i) => final(self).pointer.0 matches Some(j) && j@ == clamp_index(i@ + a.shift),
                    None => final(self).pointer.0 is None,
                }
                &&& final(self).place.line@ == line
                &&& final(self).place.column@ == adjusted_column(old(self).place.column@, line, a)
            }),
    {
        self.pointer.add_assign(adjustment.shift);
        self.place.line = self.place.line.add(adjustment.line_change);
        match adjustment.indexes_changed.get(&self.place.line.value()) {
            Some(change) => {
                self.place.shr_assign(*change);
            },
            None => {},
        }
    }
}

} // verus!
