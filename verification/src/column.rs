//! A stored series of values: its name, its own version, the version of the
//! inputs it was last computed from, and its values by index.

use vstd::prelude::*;

verus! {

/// One stored series. `version` belongs to the series itself;
/// `computed_version` records from which inputs its values were computed.
pub struct Column<V> {
    pub name: String,
    pub version: u64,
    pub computed_version: u64,
    pub values: Vec<V>,
}

/// A series as mathematical values.
pub struct ColumnView<V> {
    pub name: Seq<char>,
    pub version: u64,
    pub computed_version: u64,
    pub values: Seq<V>,
}

impl<V> View for Column<V> {
    type V = ColumnView<V>;

    open spec fn view(&self) -> ColumnView<V> {
        ColumnView {
            name: self.name@,
            version: self.version,
            computed_version: self.computed_version,
            values: self.values@,
        }
    }
}

/// Why a value could not be written.
#[derive(Clone, Copy, PartialEq, Eq, Structural, Debug)]
pub enum ColumnError {
    /// The index lies past the end of the series: a gap would open.
    IndexTooHigh,
}

/// The series after a check against `version`: the same series when it was
/// computed from that version, otherwise an empty series that records it.
pub open spec fn validated<V>(c: ColumnView<V>, version: u64) -> ColumnView<V> {
    if c.computed_version == version {
        c
    } else {
        ColumnView { computed_version: version, values: Seq::empty(), ..c }
    }
}

/// The values after writing `v` at `index`: whatever stood at `index` or
/// later is dropped first.
pub open spec fn pushed_at<V>(s: Seq<V>, index: int, v: V) -> Seq<V> {
    s.take(index).push(v)
}

impl<V: Copy> Column<V> {
    /// A new, empty series.
    pub fn new(name: String, version: u64) -> (r: Self)
        ensures
            r@ == (ColumnView::<V> {
                name: name@,
                version,
                computed_version: 0,
                values: Seq::empty(),
            }),
    {
        Column { name, version, computed_version: 0, values: Vec::new() }
    }

    /// A series with the given values, computed from `computed_version`.
    pub fn from_values(name: String, version: u64, computed_version: u64, values: Vec<V>) -> (r:
        Self)
        ensures
            r@ == (ColumnView { name: name@, version, computed_version, values: values@ }),
    {
        Column { name, version, computed_version, values }
    }

    pub fn len(&self) -> (r: usize)
        ensures
            r == self.values@.len(),
    {
        self.values.len()
    }

    pub fn is_empty(&self) -> (r: bool)
        ensures
            r == (self.values@.len() == 0),
    {
        self.values.len() == 0
    }

    /// The value at `index`, if there is one.
    pub fn get(&self, index: usize) -> (r: Option<V>)
        ensures
            index < self.values@.len() ==> r == Some(self.values@[index as int]),
            index >= self.values@.len() ==> r is None,
    {
        if index < self.values.len() {
            Some(self.values[index])
        } else {
            None
        }
    }

    /// Writes `value` at `index`, dropping first whatever stood at `index`
    /// or later; refused when `index` lies past the end.
    pub fn forced_push_at(&mut self, index: usize, value: V) -> (r: Result<(), ColumnError>)
        ensures
            index > old(self).values@.len() ==> r == Err::<(), ColumnError>(
                ColumnError::IndexTooHigh,
            ) && final(self)@ == old(self)@,
            index <= old(self).values@.len() ==> r is Ok && final(self)@ == (ColumnView {
                values: pushed_at(old(self).values@, index as int, value),
                ..old(self)@
            }),
    {
        if index > self.values.len() {
            return Err(ColumnError::IndexTooHigh);
        }
        self.values.truncate(index);
        self.values.push(value);
        proof {
            assert(self.values@ =~= pushed_at(old(self).values@, index as int, value));
        }
        Ok(())
    }

    /// Checks the series against the version of its inputs: when it was
    /// computed from another version, it records the new one and is emptied.
    pub fn validate_computed_version_or_reset_file(&mut self, version: u64)
        ensures
            final(self)@ == validated(old(self)@, version),
    {
        if version != self.computed_version {
            self.computed_version = version;
            if self.values.len() != 0 {
                self.values.clear();
            }
        }
        proof {
            if old(self).computed_version != version {
                assert(self.values@ =~= Seq::<V>::empty());
            }
        }
    }
}

} // verus!
