//! The variable environment: one flat mapping from names to values for a
//! whole evaluation session.

use vstd::prelude::*;
use crate::expr::{StractValue, ValueV, value_inv};

verus! {

/// The map described by a list of bindings, later bindings winning.
pub open spec fn env_map(entries: Seq<(String, StractValue)>) -> Map<Seq<char>, ValueV>
    decreases entries.len(),
{
    if entries.len() == 0 {
        Map::empty()
    } else {
        env_map(entries.drop_last()).insert(entries.last().0@, entries.last().1@)
    }
}

/// The environment: an ordered list of bindings whose meaning is the map of
/// the latest value bound to each name.
pub struct Environment {
    pub values: Vec<(String, StractValue)>,
}

impl Environment {
    /// The mapping from names to values.
    pub open spec fn as_map(&self) -> Map<Seq<char>, ValueV> {
        env_map(self.values@)
    }

    /// Every stored value is well formed.
    pub open spec fn inv(&self) -> bool {
        forall|i: int| 0 <= i < self.values@.len() ==> value_inv(#[trigger] self.values@[i].1)
    }

    /// An empty environment.
    pub fn new() -> (r: Self)
        ensures
            r.inv(),
            r.as_map() == Map::<Seq<char>, ValueV>::empty(),
    {
        Self { values: Vec::new() }
    }

    /// Bind `name` to `value`, overwriting any earlier binding.
    pub fn define(&mut self, name: String, value: StractValue)
        requires
            old(self).inv(),
            value_inv(value),
        ensures
            final(self).inv(),
            final(self).as_map() == old(self).as_map().insert(name@, value@),
    {
        let ghost before = self.values@;
        let ghost v = value@;
        self.values.push((name, value));
        proof {
            assert(self.values@.drop_last() =~= before);
        }
    }

    /// The value bound to `name`, or `None` if the name was never defined.
    #[verifier::loop_isolation(false)]
    pub fn get(&self, name: String) -> (r: Option<StractValue>)
        requires
            self.inv(),
        ensures
            match r {
                Some(v) => self.as_map().contains_key(name@) && v@ == self.as_map()[name@]
                    && value_inv(v),
                None => !self.as_map().contains_key(name@),
            },
    {
        let ghost k = name@;
        let ghost es = self.values@;
        let mut i: usize = self.values.len();
        proof {
            assert(es.take(es.len() as int) =~= es);
        }
        while i > 0
            invariant
                0 <= i <= es.len(),
                es == self.values@,
                self.inv(),
                env_map(es).contains_key(k) == env_map(es.take(i as int)).contains_key(k),
                env_map(es).contains_key(k) ==> env_map(es)[k] == env_map(es.take(i as int))[k],
            decreases i,
        {
            i = i - 1;
            proof {
                assert(es.take(i + 1).drop_last() =~= es.take(i as int));
                assert(es.take(i + 1).last() == es[i as int]);
                assert(env_map(es.take(i + 1)) == env_map(es.take(i as int)).insert(
                    es[i as int].0@, es[i as int].1@));
            }
            if self.values[i].0 == name {
                proof {
                    assert(env_map(es.take(i + 1)).contains_key(k));
                    assert(env_map(es.take(i + 1))[k] == es[i as int].1@);
                }
                let v = self.values[i].1.duplicate();
                return Some(v);
            }
            proof {
                assert(env_map(es.take(i + 1)).contains_key(k) == env_map(es.take(i as int)).contains_key(k));
                assert(env_map(es.take(i + 1)).contains_key(k)
                    ==> env_map(es.take(i + 1))[k] == env_map(es.take(i as int))[k]);
            }
        }
        proof {
            assert(es.take(0) =~= Seq::<(String, StractValue)>::empty());
        }
        None
    }
}

} // verus!
