//! What texts read as when they are taken as numbers.

use crate::text;
use vstd::prelude::*;

verus! {

/// What one text reads as: the bits of a binary32 and of a binary64 number, or nothing where
/// the text is no number.
#[derive(Debug)]
pub struct Reading {
    pub text: String,
    pub single: Option<u32>,
    pub double: Option<u64>,
}

/// What some texts read as.
#[derive(Debug)]
pub struct Readings {
    pub list: Vec<Reading>,
}

/// The place of the first reading of `wanted` from `from` on.
pub open spec fn place_of(list: Seq<Reading>, wanted: Seq<char>, from: int) -> Option<int>
    decreases list.len() - from,
{
    if from < 0 || from >= list.len() {
        None
    } else if list[from].text@ == wanted {
        Some(from)
    } else {
        place_of(list, wanted, from + 1)
    }
}

impl Readings {
    /// The binary32 number that a text reads as. A text that is not listed is no number.
    pub open spec fn single_of(self, wanted: Seq<char>) -> Option<u32> {
        match place_of(self.list@, wanted, 0) {
            Some(i) => self.list@[i].single,
            None => None,
        }
    }

    /// The binary64 number that a text reads as. A text that is not listed is no number.
    pub open spec fn double_of(self, wanted: Seq<char>) -> Option<u64> {
        match place_of(self.list@, wanted, 0) {
            Some(i) => self.list@[i].double,
            None => None,
        }
    }

    fn find(&self, wanted: &str) -> (place: Option<usize>)
        ensures
            match place {
                Some(i) => i < self.list@.len() && place_of(self.list@, wanted@, 0) == Some(
                    i as int,
                ),
                None => place_of(self.list@, wanted@, 0) is None,
            },
    {
        let mut i: usize = 0;
        while i < self.list.len()
            invariant
                i <= self.list@.len(),
                place_of(self.list@, wanted@, 0) == place_of(self.list@, wanted@, i as int),
            decreases self.list@.len() - i,
        {
            if text::same_text(self.list[i].text.as_str(), wanted) {
                return Some(i);
            }
            i = i + 1;
        }
        None
    }

    /// The binary32 number that a text reads as.
    pub fn single(&self, wanted: &str) -> (bits: Option<u32>)
        ensures
            bits == self.single_of(wanted@),
    {
        match self.find(wanted) {
            Some(i) => self.list[i].single,
            None => None,
        }
    }

    /// The binary64 number that a text reads as.
    pub fn double(&self, wanted: &str) -> (bits: Option<u64>)
        ensures
            bits == self.double_of(wanted@),
    {
        match self.find(wanted) {
            Some(i) => self.list[i].double,
            None => None,
        }
    }
}

// ---- laws ----

proof fn place_is_first(list: Seq<Reading>, wanted: Seq<char>, from: int)
    requires
        0 <= from,
    ensures
        match place_of(list, wanted, from) {
            Some(i) => from <= i < list.len() && list[i].text@ == wanted && forall|k: int|
                from <= k < i ==> (#[trigger] list[k]).text@ != wanted,
            None => forall|k: int| from <= k < list.len() ==> (#[trigger] list[k]).text@ != wanted,
        },
    decreases list.len() - from,
{
    if from < list.len() && list[from].text@ != wanted {
        place_is_first(list, wanted, from + 1);
    }
}

/// A text reads as what the first reading of it says, the binary32 number and the binary64 one
/// each for its own. A text that is not listed reads as neither.
pub proof fn texts_read_as_listed(readings: Readings, wanted: Seq<char>, i: int)
    ensures
        0 <= i < readings.list@.len() && readings.list@[i].text@ == wanted && (forall|k: int|
            0 <= k < i ==> (#[trigger] readings.list@[k]).text@ != wanted) ==> readings.single_of(
            wanted,
        ) == readings.list@[i].single && readings.double_of(wanted) == readings.list@[i].double,
        (forall|k: int|
            0 <= k < readings.list@.len() ==> (#[trigger] readings.list@[k]).text@ != wanted)
            ==> readings.single_of(wanted) is None && readings.double_of(wanted) is None,
{
    place_is_first(readings.list@, wanted, 0);
    match place_of(readings.list@, wanted, 0) {
        Some(k) => {
            assert(readings.list@[k].text@ == wanted);
        },
        None => {},
    }
}

} // verus!
