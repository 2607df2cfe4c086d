//! A row of a result: the names of its columns and the values under them.

use crate::bolt::response::Record;
use crate::bolt::structs::{all_whole, ids_whole, values_of, BoltRef};
use crate::packstream::text::str_eq;
use crate::packstream::value::Value;
use vstd::prelude::*;

verus! {

/// What a row holds.
pub ghost struct RowModel {
    /// The names of the columns.
    pub fields: Seq<Seq<char>>,
    /// The values, in the order of the columns.
    pub values: Seq<Value>,
}

/// The characters of a list of owned strings.
pub open spec fn names_of(fields: Seq<String>) -> Seq<Seq<char>> {
    Seq::new(fields.len(), |i: int| fields[i]@)
}

/// A copy of a list of owned strings.
pub(crate) fn copy_names(fields: &Vec<String>) -> (r: Vec<String>)
    ensures
        names_of(r@) == names_of(fields@),
{
    let mut out: Vec<String> = Vec::new();
    let mut i: usize = 0;
    while i < fields.len()
        invariant
            i <= fields@.len(),
            out@.len() == i,
            forall|j: int| 0 <= j < i ==> (#[trigger] out@[j])@ == fields@[j]@,
        decreases fields@.len() - i,
    {
        out.push(fields[i].clone());
        i += 1;
    }
    assert(names_of(out@) =~= names_of(fields@));
    out
}

/// The first index at which `names` holds `name`, if it holds it.
pub open spec fn column_of(names: Seq<Seq<char>>, name: Seq<char>) -> Option<int>
    decreases names.len(),
{
    if names.len() == 0 {
        None
    } else {
        match column_of(names.drop_last(), name) {
            Some(i) => Some(i),
            None => if names.last() == name {
                Some(names.len() - 1)
            } else {
                None
            },
        }
    }
}

/// `column_of` finds the first index at which the name stands.
pub proof fn lemma_column_of(names: Seq<Seq<char>>, name: Seq<char>)
    ensures
        match column_of(names, name) {
            Some(i) => 0 <= i < names.len() && names[i] == name && forall|j: int|
                0 <= j < i ==> names[j] != name,
            None => forall|j: int| 0 <= j < names.len() ==> names[j] != name,
        },
    decreases names.len(),
{
    if names.len() > 0 {
        lemma_column_of(names.drop_last(), name);
        assert forall|j: int| 0 <= j < names.len() - 1 implies names.drop_last()[j]
            == names[j] by {}
    }
}

/// One row of a result. Its values are kept as they came and decoded on
/// demand.
#[derive(Debug, PartialEq, Eq)]
pub struct Row {
    pub(crate) fields: Vec<String>,
    pub(crate) record: Record,
}

impl Row {
    /// What this row holds.
    pub open(crate) spec fn view(&self) -> RowModel {
        RowModel { fields: names_of(self.fields@), values: self.record@ }
    }

    /// The row of `record` under the column names `fields`.
    pub fn new(fields: Vec<String>, record: Record) -> (r: Self)
        ensures
            r@ == (RowModel { fields: names_of(fields@), values: record@ }),
    {
        Row { fields, record }
    }

    /// The names of the columns.
    pub fn keys(&self) -> (r: Vec<&str>)
        ensures
            r@.len() == self@.fields.len(),
            forall|i: int| 0 <= i < r@.len() ==> (#[trigger] r@[i])@ == self@.fields[i],
    {
        let mut out: Vec<&str> = Vec::new();
        let mut i: usize = 0;
        while i < self.fields.len()
            invariant
                i <= self.fields@.len(),
                out@.len() == i,
                forall|j: int| 0 <= j < i ==> (#[trigger] out@[j])@ == self.fields@[j]@,
            decreases self.fields@.len() - i,
        {
            out.push(self.fields[i].as_str());
            i += 1;
        }
        out
    }

    /// The values of this row, in the order of the columns.
    pub fn values(&self) -> (r: Vec<BoltRef<'_>>)
        ensures
            values_of(r@) == self@.values,
            all_whole(r@),
    {
        self.record.values()
    }

    /// The value in the first column named `name`; `None` where no column
    /// has that name, or where the row has fewer values than columns.
    pub fn get(&self, name: &str) -> (r: Option<BoltRef<'_>>)
        ensures
            match column_of(self@.fields, name@) {
                Some(i) if i < self@.values.len() => r matches Some(v) && v@ == self@.values[i]
                    && ids_whole(v),
                _ => r is None,
            },
    {
        let mut i: usize = 0;
        while i < self.fields.len()
            invariant
                i <= self.fields@.len(),
                forall|j: int| 0 <= j < i ==> (#[trigger] self@.fields[j]) != name@,
            decreases self.fields@.len() - i,
        {
            if str_eq(self.fields[i].as_str(), name) {
                assert(self@.fields[i as int] == name@);
                proof {
                    lemma_column_of(self@.fields, name@);
                }
                let mut values: Vec<BoltRef<'_>> = self.record.values();
                let ghost all = values@;
                if i < values.len() {
                    let v = values.swap_remove(i);
                    assert(values_of(all)[i as int] == all[i as int]@);
                    return Some(v);
                } else {
                    assert(values_of(all).len() == all.len());
                    return None;
                }
            }
            i += 1;
        }
        proof {
            lemma_column_of(self@.fields, name@);
        }
        None
    }
}

impl Clone for Row {
    fn clone(&self) -> (r: Self)
        ensures
            r@ == self@,
    {
        Row { fields: copy_names(&self.fields), record: self.record.clone() }
    }
}

} // verus!
