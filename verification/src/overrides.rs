//! The override map: user-supplied example values, keyed by variable name.
//!
//! Entries come from `NAME=VALUE` arguments. Keys are unique in the abstract
//! map; on a duplicate key the last insertion wins.

use vstd::prelude::*;

use crate::text::first_index_of;
use crate::text::find_char;
use crate::text::lemma_first_index_at;

verus! {

/// The map described by a sequence of `(name, value)` pairs, later pairs
/// overriding earlier ones.
pub open spec fn map_of_pairs(pairs: Seq<(String, String)>) -> Map<Seq<char>, Seq<char>>
    decreases pairs.len(),
{
    if pairs.len() == 0 {
        Map::empty()
    } else {
        map_of_pairs(pairs.drop_last()).insert(pairs.last().0@, pairs.last().1@)
    }
}

/// A mapping from variable names to replacement values. Its abstract value
/// is a `Map<Seq<char>, Seq<char>>`; insertion order is irrelevant except
/// that the last value written for a name wins.
pub struct Overrides {
    pairs: Vec<(String, String)>,
}

impl View for Overrides {
    type V = Map<Seq<char>, Seq<char>>;

    closed spec fn view(&self) -> Map<Seq<char>, Seq<char>> {
        map_of_pairs(self.pairs@)
    }
}

impl Overrides {
    /// The empty map.
    pub fn new() -> (r: Overrides)
        ensures
            r@ == Map::<Seq<char>, Seq<char>>::empty(),
    {
        Overrides { pairs: Vec::new() }
    }

    /// Binds `name` to `value`, replacing any earlier binding of `name`.
    pub fn insert(&mut self, name: String, value: String)
        ensures
            final(self)@ == old(self)@.insert(name@, value@),
    {
        let ghost old_pairs = self.pairs@;
        self.pairs.push((name, value));
        proof {
            assert(self.pairs@.drop_last() =~= old_pairs);
        }
    }

    /// Looks `name` up: the bound value, or `None` when `name` is not bound.
    pub fn get(&self, name: &String) -> (r: Option<&String>)
        ensures
            match r {
                Some(v) => self@.contains_key(name@) && v@ == self@[name@],
                None => !self@.contains_key(name@),
            },
    {
        let n: usize = self.pairs.len();
        let mut i: usize = n;
        proof {
            assert(self.pairs@.take(n as int) =~= self.pairs@);
        }
        while i > 0
            invariant
                i <= n,
                n == self.pairs@.len(),
                self@.contains_key(name@) == map_of_pairs(self.pairs@.take(i as int)).contains_key(
                    name@,
                ),
                self@.contains_key(name@) ==> self@[name@] == map_of_pairs(
                    self.pairs@.take(i as int),
                )[name@],
            decreases i,
        {
            proof {
                assert(self.pairs@.take(i as int).drop_last() =~= self.pairs@.take(i - 1));
                assert(self.pairs@.take(i as int).last() == self.pairs@[i - 1]);
            }
            if self.pairs[i - 1].0.eq(name) {
                return Some(&self.pairs[i - 1].1);
            }
            assert(self.pairs@[i - 1].0@ != name@);
            i = i - 1;
        }
        proof {
            assert(self.pairs@.take(0) =~= Seq::<(String, String)>::empty());
        }
        None
    }
}

/// The name in a `NAME=VALUE` argument: everything before the first `'='`.
pub open spec fn override_name(s: Seq<char>) -> Seq<char> {
    s.take(first_index_of(s, '='))
}

/// The value in a `NAME=VALUE` argument: everything after the first `'='`
/// and before the second, if there is one.
pub open spec fn override_value(s: Seq<char>) -> Seq<char> {
    let rest = s.skip(first_index_of(s, '=') + 1);
    rest.take(first_index_of(rest, '='))
}

/// Parses one `NAME=VALUE` argument into a `(name, value)` pair, or `None`
/// when it holds no `'='` at all. Any third segment after a second `'='` is
/// discarded.
pub fn parse_override(s: &str) -> (r: Option<(String, String)>)
    ensures
        r is Some <==> first_index_of(s@, '=') < s@.len(),
        r is Some ==> r.unwrap().0@ == override_name(s@) && r.unwrap().1@ == override_value(s@),
{
    let n: usize = s.unicode_len();
    let j1 = find_char(s, 0, '=');
    proof {
        lemma_first_index_at(s@, '=', j1 as int);
    }
    if j1 == n {
        return None;
    }
    let j2 = find_char(s, j1 + 1, '=');
    let name = s.substring_char(0, j1).to_owned();
    let value = s.substring_char(j1 + 1, j2).to_owned();
    proof {
        let rest = s@.skip(j1 + 1);
        assert(forall|i: int| 0 <= i < j2 - j1 - 1 ==> rest[i] != '=');
        lemma_first_index_at(rest, '=', j2 - j1 - 1);
        assert(name@ =~= override_name(s@));
        assert(value@ =~= override_value(s@));
    }
    Some((name, value))
}

} // verus!
