//! A hash map keyed by integer triples.
use std::collections::HashMap;
use vstd::prelude::*;

verus! {

/// The distance of a coordinate from `i32::MIN`, which fits in 32 bits.
pub open spec fn lift(v: i32) -> u128 {
    (v as int - i32::MIN as int) as u128
}

/// The single integer under which a triple is stored.
pub open spec fn key_of(t: (i32, i32, i32)) -> u128 {
    (lift(t.0) << 64u128) | (lift(t.1) << 32u128) | lift(t.2)
}

proof fn lemma_key_injective(s: (i32, i32, i32), t: (i32, i32, i32))
    requires
        key_of(s) == key_of(t),
    ensures
        s == t,
{
    let (a1, b1, c1) = (lift(s.0), lift(s.1), lift(s.2));
    let (a2, b2, c2) = (lift(t.0), lift(t.1), lift(t.2));
    assert(a1 < 0x1_0000_0000u128 && b1 < 0x1_0000_0000u128 && c1 < 0x1_0000_0000u128);
    assert(a2 < 0x1_0000_0000u128 && b2 < 0x1_0000_0000u128 && c2 < 0x1_0000_0000u128);
    assert(((a1 << 64u128) | (b1 << 32u128) | c1) == ((a2 << 64u128) | (b2 << 32u128) | c2)
        && a1 < 0x1_0000_0000u128 && b1 < 0x1_0000_0000u128 && c1 < 0x1_0000_0000u128 && a2
        < 0x1_0000_0000u128 && b2 < 0x1_0000_0000u128 && c2 < 0x1_0000_0000u128 ==> a1 == a2
        && b1 == b2 && c1 == c2) by (bit_vector);
}

fn key(t: (i32, i32, i32)) -> (r: u128)
    ensures
        r == key_of(t),
{
    let a = (t.0 as i64 - i32::MIN as i64) as u128;
    let b = (t.1 as i64 - i32::MIN as i64) as u128;
    let c = (t.2 as i64 - i32::MIN as i64) as u128;
    (a << 64u128) | (b << 32u128) | c
}

/// A map from integer triples to values.
pub struct CoordMap<V> {
    inner: HashMap<u128, V>,
}

impl<V> View for CoordMap<V> {
    type V = Map<(i32, i32, i32), V>;

    closed spec fn view(&self) -> Map<(i32, i32, i32), V> {
        Map::new(|t: (i32, i32, i32)| self.inner@.contains_key(key_of(t)), |t: (i32, i32, i32)| self.inner@[key_of(t)])
    }
}

impl<V> CoordMap<V> {
    pub fn new() -> (r: CoordMap<V>)
        ensures
            r@ == Map::<(i32, i32, i32), V>::empty(),
    {
        let r = CoordMap { inner: HashMap::new() };
        assert(r@ =~= Map::<(i32, i32, i32), V>::empty());
        r
    }

    pub fn contains(&self, t: (i32, i32, i32)) -> (r: bool)
        ensures
            r == self@.contains_key(t),
    {
        self.inner.contains_key(&key(t))
    }

    pub fn get(&self, t: (i32, i32, i32)) -> (r: Option<&V>)
        ensures
            match r {
                Some(v) => self@.contains_key(t) && *v == self@[t],
                None => !self@.contains_key(t),
            },
    {
        self.inner.get(&key(t))
    }

    pub fn insert(&mut self, t: (i32, i32, i32), v: V)
        ensures
            final(self)@ == old(self)@.insert(t, v),
    {
        let k = key(t);
        self.inner.insert(k, v);
        proof {
            assert forall|s: (i32, i32, i32)| key_of(s) == k implies s == t by {
                lemma_key_injective(s, t);
            }
            assert(self@ =~= old(self)@.insert(t, v));
        }
    }

    pub fn remove(&mut self, t: (i32, i32, i32)) -> (r: Option<V>)
        ensures
            final(self)@ == old(self)@.remove(t),
            match r {
                Some(v) => old(self)@.contains_key(t) && v == old(self)@[t],
                None => !old(self)@.contains_key(t),
            },
    {
        let k = key(t);
        let r = self.inner.remove(&k);
        proof {
            assert forall|s: (i32, i32, i32)| key_of(s) == k implies s == t by {
                lemma_key_injective(s, t);
            }
            assert(self@ =~= old(self)@.remove(t));
        }
        r
    }
}

} // verus!
