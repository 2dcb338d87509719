//! The variable environment: a mapping from identifier name to the
//! last-assigned integer value, viewed as a `Map<Seq<char>, i32>`.

use vstd::prelude::*;

verus! {

/// The map described by a sequence of bindings, later bindings overriding
/// earlier ones.
pub open spec fn env_map_of(entries: Seq<(String, i32)>) -> Map<Seq<char>, i32>
    decreases entries.len(),
{
    if entries.len() == 0 {
        Map::empty()
    } else {
        env_map_of(entries.drop_last()).insert(entries.last().0@, entries.last().1)
    }
}

/// A name-to-integer mapping representing the variable bindings visible to
/// evaluation. Entries are written by `Assign` evaluation and read by
/// `Identifier` evaluation; insertion order is irrelevant to callers, who see
/// only the map view.
pub struct Environment {
    entries: Vec<(String, i32)>,
}

impl View for Environment {
    type V = Map<Seq<char>, i32>;

    closed spec fn view(&self) -> Map<Seq<char>, i32> {
        env_map_of(self.entries@)
    }
}

impl Environment {
    /// A fresh environment with no bindings.
    pub fn new() -> (r: Environment)
        ensures
            r@ == Map::<Seq<char>, i32>::empty(),
    {
        Environment { entries: Vec::new() }
    }

    /// Binds `name` to `value`, overwriting any earlier binding.
    pub fn insert(&mut self, name: String, value: i32)
        ensures
            final(self)@ == old(self)@.insert(name@, value),
    {
        let ghost before = self.entries@;
        self.entries.push((name, value));
        proof {
            assert(self.entries@.drop_last() =~= before);
        }
    }

    /// The value bound to `name`, or `None` where no assignment ever wrote
    /// that name.
    pub fn get(&self, name: &String) -> (r: Option<i32>)
        ensures
            match r {
                Some(v) => self@.contains_key(name@) && v == self@[name@],
                None => !self@.contains_key(name@),
            },
    {
        let ghost full = self.entries@;
        let mut i: usize = self.entries.len();
        proof {
            assert(full.take(i as int) =~= full);
        }
        while i > 0
            invariant
                0 <= i <= self.entries@.len(),
                self.entries@ == full,
                self@.contains_key(name@) == env_map_of(full.take(i as int)).contains_key(name@),
                env_map_of(full.take(i as int)).contains_key(name@) ==> env_map_of(
                    full.take(i as int),
                )[name@] == self@[name@],
            decreases i,
        {
            i = i - 1;
            let entry = &self.entries[i];
            proof {
                assert(full.take(i as int + 1).drop_last() =~= full.take(i as int));
                assert(full.take(i as int + 1).last() == full[i as int]);
            }
            if entry.0 == *name {
                return Some(entry.1);
            }
        }
        proof {
            assert(full.take(0) =~= Seq::<(String, i32)>::empty());
        }
        None
    }
}

} // verus!
