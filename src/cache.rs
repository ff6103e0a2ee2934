use std::collections::HashMap;
use vstd::prelude::*;
use vstd::std_specs::hash::*;

verus! {

broadcast use vstd::std_specs::hash::group_hash_axioms;

/// The map a cache holds after `power` was asked for with `made` as the
/// value to store when nothing is kept for it yet.
pub open spec fn prepared<E>(m: Map<u8, E>, power: u8, made: E) -> Map<u8, E> {
    if m.contains_key(power) {
        m
    } else {
        m.insert(power, made)
    }
}

/// Asking again for a size already asked for keeps the entry built the
/// first time: nothing is built anew and the cache does not change.
pub proof fn lemma_prepare_idempotent<E>(m: Map<u8, E>, power: u8, first: E, second: E)
    ensures
        prepared(prepared(m, power, first), power, second) == prepared(m, power, first),
        prepared(m, power, first).contains_key(power),
{
}

/// Per-transform-size state (a plan, a window, a scale), kept by the power of
/// two of the size, built on first use and then kept for good.
pub struct SpectralCache<E> {
    entries: HashMap<u8, E>,
}

impl<E> View for SpectralCache<E> {
    type V = Map<u8, E>;

    closed spec fn view(&self) -> Map<u8, E> {
        self.entries@
    }
}

impl<E> SpectralCache<E> {
    pub fn new() -> (r: Self)
        ensures
            r@ == Map::<u8, E>::empty(),
    {
        SpectralCache { entries: HashMap::new() }
    }

    pub fn contains(&self, power: u8) -> (r: bool)
        ensures
            r == self@.contains_key(power),
    {
        self.entries.contains_key(&power)
    }

    pub fn get(&self, power: u8) -> (r: Option<&E>)
        ensures
            match r {
                Some(e) => self@.contains_key(power) && *e == self@[power],
                None => !self@.contains_key(power),
            },
    {
        self.entries.get(&power)
    }

    /// Makes sure an entry for `power` exists, building it with `make` only
    /// when none is kept yet. Returns whether `make` was called.
    pub fn prepare<F: FnOnce(u8) -> E>(&mut self, power: u8, make: F) -> (built: bool)
        requires
            make.requires((power,)),
        ensures
            built == !old(self)@.contains_key(power),
            final(self)@.contains_key(power),
            built ==> make.ensures((power,), final(self)@[power]),
            final(self)@ == prepared(old(self)@, power, final(self)@[power]),
            !built ==> final(self)@ == old(self)@,
    {
        if self.entries.contains_key(&power) {
            assert(self@ == prepared(self@, power, self@[power]));
            false
        } else {
            let e = make(power);
            let ghost before = self@;
            self.entries.insert(power, e);
            assert(self@ == prepared(before, power, self@[power]));
            true
        }
    }
}

} // verus!
