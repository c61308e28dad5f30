//! The variables a user has set in a room, as seen by one command.

use vstd::prelude::*;

verus! {

/// The map that a list of assignments stands for: a later assignment to a
/// name replaces an earlier one.
pub open spec fn assigned(entries: Seq<(String, i32)>) -> Map<Seq<char>, i32>
    decreases entries.len(),
{
    if entries.len() == 0 {
        Map::empty()
    } else {
        assigned(entries.drop_last()).insert(entries.last().0@, entries.last().1)
    }
}

/// A snapshot of one user's variables in one room. It is filled before a
/// command runs and only read while it runs.
#[derive(Debug, Clone)]
pub struct Variables {
    entries: Vec<(String, i32)>,
}

impl View for Variables {
    type V = Map<Seq<char>, i32>;

    closed spec fn view(&self) -> Map<Seq<char>, i32> {
        assigned(self.entries@)
    }
}

impl Variables {
    /// A snapshot in which no variable is set.
    pub fn new() -> (v: Variables)
        ensures
            v@ == Map::<Seq<char>, i32>::empty(),
    {
        Variables { entries: Vec::new() }
    }

    /// Sets `name` to `value`, replacing what it was set to before.
    pub fn set(&mut self, name: &str, value: i32)
        ensures
            final(self)@ == old(self)@.insert(name@, value),
    {
        let ghost before = self.entries@;
        self.entries.push((name.to_owned(), value));
        assert(self.entries@.drop_last() == before);
    }

    /// The value of `name`, if it is set.
    pub fn get(&self, name: &str) -> (r: Option<i32>)
        ensures
            r == if self@.contains_key(name@) {
                Some(self@[name@])
            } else {
                None::<i32>
            },
    {
        let mut i: usize = self.entries.len();
        assert(self.entries@.take(i as int) == self.entries@);
        while i > 0
            invariant
                i <= self.entries.len(),
                assigned(self.entries@).contains_key(name@) == assigned(
                    self.entries@.take(i as int),
                ).contains_key(name@),
                assigned(self.entries@).contains_key(name@) ==> assigned(self.entries@)[name@]
                    == assigned(self.entries@.take(i as int))[name@],
            decreases i,
        {
            proof {
                assert(self.entries@.take(i as int).drop_last() == self.entries@.take(i - 1));
            }
            i = i - 1;
            if crate::text::same_text(self.entries[i].0.as_str(), name) {
                return Some(self.entries[i].1);
            }
        }
        assert(self.entries@.take(0) == Seq::<(String, i32)>::empty());
        None
    }
}

} // verus!
