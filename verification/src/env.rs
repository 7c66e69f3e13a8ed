//! An in-memory execution environment: the storage collaborator and the
//! per-call inputs.
//!
//! Storage is a byte-keyed, byte-valued store, modelled as a
//! `Map<Seq<u8>, Seq<u8>>`; a call context carries the raw call data, the
//! mode it was made in, and the caller's address.  The dispatcher itself
//! never touches storage — bound functions own their state — but a hosting
//! runtime keeps contract state here between calls.

use vstd::prelude::*;
use crate::dispatch::{parse_call_data, spec_calldata_selector, CallData};
use crate::table::{bytes_eq, clone_bytes};

verus! {

/// In which mode the current call was made.
#[derive(Clone, Copy, PartialEq, Eq, Structural, Debug)]
pub enum CallMode {
    /// The one-time deployment call that runs the constructor.
    Deploy,
    /// An ordinary call routed by selector.
    Call,
}

/// Why the environment refused a request.
#[derive(Clone, Copy, PartialEq, Eq, Structural, Debug)]
pub enum EnvError {
    /// No value is stored under the key.
    KeyNotFound,
    /// Call data was requested for a mode other than the current call's.
    WrongCallMode,
    /// The current call's data is shorter than a selector.
    MalformedCallData,
}

/// The map a storage list denotes: later pairs shadow earlier ones, and a
/// well-formed store has no two pairs with one key.
pub open spec fn spec_store_map(s: Seq<(Vec<u8>, Vec<u8>)>) -> Map<Seq<u8>, Seq<u8>>
    decreases s,
{
    if s.len() == 0 {
        Map::empty()
    } else {
        spec_store_map(s.drop_last()).insert(s.last().0@, s.last().1@)
    }
}

/// No two pairs of `s` share a key.
pub open spec fn spec_store_unique(s: Seq<(Vec<u8>, Vec<u8>)>) -> bool {
    forall|i: int, j: int| 0 <= i < j < s.len() ==> (#[trigger] s[i]).0@ != (#[trigger] s[j]).0@
}

/// The denoted map contains exactly the listed keys, each with its listed
/// value.
pub proof fn lemma_store_map_char(s: Seq<(Vec<u8>, Vec<u8>)>)
    requires
        spec_store_unique(s),
    ensures
        forall|k: Seq<u8>|
            #[trigger] spec_store_map(s).contains_key(k) <==> exists|i: int|
                0 <= i < s.len() && (#[trigger] s[i]).0@ == k,
        forall|i: int|
            0 <= i < s.len() ==> spec_store_map(s).contains_key((#[trigger] s[i]).0@)
                && spec_store_map(s)[s[i].0@] == s[i].1@,
    decreases s,
{
    if s.len() > 0 {
        let init = s.drop_last();
        lemma_store_map_char(init);
        assert(forall|i: int| 0 <= i < init.len() ==> init[i] == s[i]);
        assert forall|k: Seq<u8>|
            #[trigger] spec_store_map(s).contains_key(k) implies exists|i: int|
            0 <= i < s.len() && (#[trigger] s[i]).0@ == k by {
            if k != s.last().0@ {
                assert(spec_store_map(init).contains_key(k));
                let i = choose|i: int| 0 <= i < init.len() && (#[trigger] init[i]).0@ == k;
                assert(init[i].0@ == k);
                assert(s[i].0@ == k);
            } else {
                assert(s[s.len() - 1].0@ == k);
            }
        }
        assert forall|i: int|
            0 <= i < s.len() implies spec_store_map(s).contains_key((#[trigger] s[i]).0@)
            && spec_store_map(s)[s[i].0@] == s[i].1@ by {
            if i < s.len() - 1 {
                assert(s[i].0@ != s.last().0@);
            }
        }
    }
}

/// The execution environment of a hosted contract instance.
pub struct Env {
    /// The backing store, one pair per key.
    pub storage: Vec<(Vec<u8>, Vec<u8>)>,
    /// The raw call data of the current call.
    pub call_input: Vec<u8>,
    /// The mode of the current call.
    pub mode: CallMode,
    /// The caller's 20-byte address.
    pub caller: Vec<u8>,
}

impl Env {
    /// The map the store denotes.
    pub open spec fn spec_map(self) -> Map<Seq<u8>, Seq<u8>> {
        spec_store_map(self.storage@)
    }

    /// Well-formed: no duplicate keys.
    pub open spec fn spec_wf(self) -> bool {
        spec_store_unique(self.storage@)
    }

    /// A fresh environment for one call: empty storage, the given call
    /// data, mode and caller.
    pub fn new(call_input: Vec<u8>, mode: CallMode, caller: Vec<u8>) -> (r: Env)
        ensures
            r.spec_wf(),
            r.spec_map() == Map::<Seq<u8>, Seq<u8>>::empty(),
            r.call_input@ == call_input@,
            r.mode == mode,
            r.caller@ == caller@,
    {
        Env { storage: Vec::new(), call_input, mode, caller }
    }

    /// The position of `key` in the store, if any.
    fn find_key(&self, key: &Vec<u8>) -> (r: Option<usize>)
        ensures
            match r {
                Some(i) => i < self.storage@.len() && self.storage@[i as int].0@ == key@,
                None => forall|i: int|
                    0 <= i < self.storage@.len() ==> (#[trigger] self.storage@[i]).0@ != key@,
            },
    {
        let mut i: usize = 0;
        while i < self.storage.len()
            invariant
                0 <= i <= self.storage@.len(),
                forall|j: int|
                    0 <= j < i ==> (#[trigger] self.storage@[j]).0@ != key@,
            decreases self.storage@.len() - i,
        {
            if bytes_eq(&self.storage[i].0, key) {
                return Some(i);
            }
            i = i + 1;
        }
        None
    }

    /// Store `value` under `key`, replacing what the key held before.
    pub fn set_storage(&mut self, key: &Vec<u8>, value: Vec<u8>)
        requires
            old(self).spec_wf(),
        ensures
            final(self).spec_wf(),
            final(self).spec_map() == old(self).spec_map().insert(key@, value@),
            final(self).call_input@ == old(self).call_input@,
            final(self).mode == old(self).mode,
            final(self).caller@ == old(self).caller@,
    {
        self.remove_storage(key);
        let ghost mid = self.storage@;
        let k = clone_bytes(key);
        self.storage.push((k, value));
        proof {
            assert(self.storage@.drop_last() =~= mid);
            lemma_store_map_char(mid);
            assert(!spec_store_map(mid).contains_key(key@));
            assert forall|i: int, j: int|
                0 <= i < j < self.storage@.len() implies (#[trigger] self.storage@[i]).0@
                != (#[trigger] self.storage@[j]).0@ by {
                if j == self.storage@.len() - 1 {
                    assert(spec_store_map(mid).contains_key(mid[i].0@));
                    assert(mid[i].0@ != key@);
                }
            }
            assert(old(self).spec_map().remove(key@).insert(key@, value@) =~= old(
                self,
            ).spec_map().insert(key@, value@));
        }
    }

    /// The value stored under `key`, or `KeyNotFound`.
    pub fn get_storage(&self, key: &Vec<u8>) -> (r: Result<Vec<u8>, EnvError>)
        requires
            self.spec_wf(),
        ensures
            match r {
                Ok(v) => self.spec_map().contains_key(key@) && v@ == self.spec_map()[key@],
                Err(e) => !self.spec_map().contains_key(key@) && e == EnvError::KeyNotFound,
            },
    {
        proof {
            lemma_store_map_char(self.storage@);
        }
        match self.find_key(key) {
            Some(i) => Ok(clone_bytes(&self.storage[i].1)),
            None => Err(EnvError::KeyNotFound),
        }
    }

    /// Remove whatever is stored under `key`; removing an absent key does
    /// nothing.
    pub fn remove_storage(&mut self, key: &Vec<u8>)
        requires
            old(self).spec_wf(),
        ensures
            final(self).spec_wf(),
            final(self).spec_map() == old(self).spec_map().remove(key@),
            final(self).call_input@ == old(self).call_input@,
            final(self).mode == old(self).mode,
            final(self).caller@ == old(self).caller@,
    {
        proof {
            lemma_store_map_char(self.storage@);
        }
        let ghost pre = self.storage@;
        match self.find_key(key) {
            Some(i) => {
                self.storage.remove(i);
                proof {
                    assert(self.storage@ == pre.remove(i as int));
                    assert(forall|x: int|
                        0 <= x < i ==> #[trigger] self.storage@[x] == pre[x]);
                    assert(forall|x: int|
                        i <= x < self.storage@.len() ==> #[trigger] self.storage@[x] == pre[x
                            + 1]);
                    assert forall|a: int, b: int|
                        0 <= a < b < self.storage@.len() implies (#[trigger] self.storage@[a]).0@
                        != (#[trigger] self.storage@[b]).0@ by {
                        if a < i && b < i {
                        } else if a < i {
                            assert(self.storage@[b] == pre[b + 1]);
                        } else {
                            assert(self.storage@[a] == pre[a + 1] && self.storage@[b] == pre[b
                                + 1]);
                        }
                    }
                    lemma_store_map_char(self.storage@);
                    assert forall|k2: Seq<u8>| true implies #[trigger] spec_store_map(
                        self.storage@,
                    ).contains_key(k2) == spec_store_map(pre).remove(key@).contains_key(k2)
                        && (spec_store_map(self.storage@).contains_key(k2)
                        ==> spec_store_map(self.storage@)[k2] == spec_store_map(pre).remove(
                        key@,
                    )[k2]) by {
                        if k2 == key@ {
                            if spec_store_map(self.storage@).contains_key(k2) {
                                let w = choose|w: int|
                                    0 <= w < self.storage@.len() && (#[trigger] self.storage@[
                                        w
                                    ]).0@ == k2;
                                if w < i {
                                    assert(pre[w].0@ == key@ && pre[i as int].0@ == key@);
                                } else {
                                    assert(pre[w + 1].0@ == key@ && pre[i as int].0@ == key@);
                                }
                            }
                        } else {
                            if spec_store_map(self.storage@).contains_key(k2) {
                                let w = choose|w: int|
                                    0 <= w < self.storage@.len() && (#[trigger] self.storage@[
                                        w
                                    ]).0@ == k2;
                                let wp = if w < i {
                                    w
                                } else {
                                    w + 1
                                };
                                assert(pre[wp].0@ == k2);
                                assert(spec_store_map(self.storage@)[k2] == self.storage@[w].1@);
                                assert(spec_store_map(pre)[k2] == pre[wp].1@);
                            }
                            if spec_store_map(pre).contains_key(k2) {
                                let w = choose|w: int|
                                    0 <= w < pre.len() && (#[trigger] pre[w]).0@ == k2;
                                let wn = if w < i {
                                    w
                                } else {
                                    w - 1
                                };
                                assert(w != i);
                                assert(self.storage@[wn].0@ == k2);
                            }
                        }
                    }
                    assert(spec_store_map(self.storage@) =~= spec_store_map(pre).remove(key@));
                }
            },
            None => {
                proof {
                    assert(!spec_store_map(pre).contains_key(key@));
                    assert(spec_store_map(pre) =~= spec_store_map(pre).remove(key@));
                }
            },
        }
    }

    /// The current call's data, parsed into selector and payload.  The
    /// request must name the mode the call was made in, and the data must
    /// be at least a selector long.
    pub fn get_call_data(&self, mode: CallMode) -> (r: Result<CallData, EnvError>)
        ensures
            match r {
                Ok(cd) => mode == self.mode && self.call_input@.len() >= 4 && cd.selector
                    == spec_calldata_selector(self.call_input@) && cd.payload@
                    == self.call_input@.subrange(4, self.call_input@.len() as int),
                Err(e) => match e {
                    EnvError::WrongCallMode => mode != self.mode,
                    EnvError::MalformedCallData => mode == self.mode
                        && self.call_input@.len() < 4,
                    EnvError::KeyNotFound => false,
                },
            },
    {
        if mode != self.mode {
            return Err(EnvError::WrongCallMode);
        }
        match parse_call_data(&self.call_input) {
            Ok(cd) => Ok(cd),
            Err(_) => Err(EnvError::MalformedCallData),
        }
    }

    /// The caller's address.
    pub fn get_caller(&self) -> (r: Vec<u8>)
        ensures
            r@ == self.caller@,
    {
        clone_bytes(&self.caller)
    }
}

} // verus!
