//! A map from strings to strings, used for message catalogs and template variables.
use vstd::prelude::*;

verus! {

/// The map that inserting the pairs of `s` in order builds: a later pair overrides an
/// earlier one with the same key.
pub open spec fn map_of(s: Seq<(Seq<char>, Seq<char>)>) -> Map<Seq<char>, Seq<char>>
    decreases s.len(),
{
    if s.len() == 0 {
        Map::empty()
    } else {
        map_of(s.drop_last()).insert(s.last().0, s.last().1)
    }
}

pub proof fn lemma_map_of_push(s: Seq<(Seq<char>, Seq<char>)>, k: Seq<char>, v: Seq<char>)
    ensures
        map_of(s.push((k, v))) == map_of(s).insert(k, v),
{
    assert(s.push((k, v)).drop_last() =~= s);
}

/// A key that no pair at index `i` or later carries is looked up in the first `i` pairs.
proof fn lemma_map_of_prefix(s: Seq<(Seq<char>, Seq<char>)>, k: Seq<char>, i: int)
    requires
        0 <= i <= s.len(),
        forall|j: int| i <= j < s.len() ==> (#[trigger] s[j]).0 != k,
    ensures
        map_of(s).contains_key(k) == map_of(s.take(i)).contains_key(k),
        map_of(s).contains_key(k) ==> map_of(s)[k] == map_of(s.take(i))[k],
    decreases s.len() - i,
{
    if i == s.len() {
        assert(s.take(i) =~= s);
    } else {
        let t = s.drop_last();
        assert(s.last() == s[s.len() - 1]);
        assert forall|j: int| i <= j < t.len() implies (#[trigger] t[j]).0 != k by {
            assert(t[j] == s[j]);
        }
        lemma_map_of_prefix(t, k, i);
        assert(t.take(i) =~= s.take(i));
    }
}

/// A string-to-string map; a later insertion of a key replaces the earlier value.
#[derive(Debug)]
pub struct StrMap {
    entries: Vec<(String, String)>,
}

impl StrMap {
    /// The inserted pairs, in insertion order.
    pub closed spec fn pairs(&self) -> Seq<(Seq<char>, Seq<char>)> {
        self.entries@.map_values(|e: (String, String)| (e.0@, e.1@))
    }

    /// An empty map.
    pub fn new() -> (m: Self)
        ensures
            m@ == Map::<Seq<char>, Seq<char>>::empty(),
    {
        let m = StrMap { entries: Vec::new() };
        assert(m.pairs() =~= Seq::<(Seq<char>, Seq<char>)>::empty());
        m
    }

    /// Sets `key` to `value`, replacing an earlier value.
    pub fn insert(&mut self, key: String, value: String)
        ensures
            final(self)@ == old(self)@.insert(key@, value@),
    {
        let ghost before = self.pairs();
        self.entries.push((key, value));
        proof {
            assert(self.pairs() =~= before.push((key@, value@)));
            lemma_map_of_push(before, key@, value@);
        }
    }

    /// The value of `key`, if it has one.
    pub fn get(&self, key: &Vec<char>) -> (r: Option<String>)
        ensures
            match r {
                Some(v) => self@.contains_key(key@) && self@[key@] == v@,
                None => !self@.contains_key(key@),
            },
    {
        let ghost p = self.pairs();
        let mut i: usize = self.entries.len();
        while i > 0
            invariant
                i <= self.entries@.len(),
                p == self.pairs(),
                forall|j: int| i <= j < p.len() ==> (#[trigger] p[j]).0 != key@,
            decreases i,
        {
            let k = crate::text::chars_of(self.entries[i - 1].0.as_str());
            if crate::text::chars_eq(&k, key) {
                proof {
                    lemma_map_of_prefix(p, key@, i as int);
                    assert(p.take(i as int).drop_last() =~= p.take(i - 1));
                    assert(p.take(i as int).last() == p[i - 1]);
                }
                return Some(self.entries[i - 1].1.clone());
            }
            i -= 1;
        }
        proof {
            lemma_map_of_prefix(p, key@, 0);
            assert(p.take(0) =~= Seq::<(Seq<char>, Seq<char>)>::empty());
        }
        None
    }

    /// The value of the literal key `key`, if it has one.
    pub fn get_str(&self, key: &str) -> (r: Option<String>)
        ensures
            match r {
                Some(v) => self@.contains_key(key@) && self@[key@] == v@,
                None => !self@.contains_key(key@),
            },
    {
        let k = crate::text::chars_of(key);
        self.get(&k)
    }
}

impl View for StrMap {
    type V = Map<Seq<char>, Seq<char>>;

    closed spec fn view(&self) -> Map<Seq<char>, Seq<char>> {
        map_of(self.pairs())
    }
}

} // verus!
