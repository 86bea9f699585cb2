//! The configuration store that identities are read from and written to,
//! modelled by the record of the calls made on it.
use vstd::prelude::*;
use crate::identity::ConfigKey;

verus! {

/// The view of a read's result.
pub open spec fn read_view(r: Result<String, String>) -> Result<Seq<char>, Seq<char>> {
    match r {
        Ok(v) => Ok(v@),
        Err(e) => Err(e@),
    }
}

/// The view of a write's result.
pub open spec fn write_view(r: Result<(), String>) -> Result<(), Seq<char>> {
    match r {
        Ok(_) => Ok(()),
        Err(e) => Err(e@),
    }
}

/// A store of configuration values, read and written one key at a time.
///
/// Its model is the record of the calls made on it: each read with its key
/// and result, and each write with its key, value and result. What a read
/// returns is up to the store; `MemoryConfig` pins it down. A store that
/// keeps no such record, as one that runs `git`, leaves `records` false, and
/// the contracts over the record then say nothing of it.
pub trait ConfigStore {
    /// Whether the store keeps the record of its calls.
    open spec fn records(&self) -> bool {
        false
    }

    /// The reads made so far, oldest first.
    open spec fn reads(&self) -> Seq<(ConfigKey, Result<Seq<char>, Seq<char>>)> {
        Seq::empty()
    }

    /// The writes made so far, oldest first.
    open spec fn writes(&self) -> Seq<(ConfigKey, Seq<char>, Result<(), Seq<char>>)> {
        Seq::empty()
    }

    /// Reads the current value of `key`.
    fn get(&mut self, key: ConfigKey) -> (r: Result<String, String>)
        ensures
            final(self).records() == old(self).records(),
            old(self).records() ==> final(self).reads() == old(self).reads().push(
                (key, read_view(r)),
            ) && final(self).writes() == old(self).writes(),
    ;

    /// Sets `key` to `value`.
    fn set(&mut self, key: ConfigKey, value: &String) -> (r: Result<(), String>)
        ensures
            final(self).records() == old(self).records(),
            old(self).records() ==> final(self).writes() == old(self).writes().push(
                (key, value@, write_view(r)),
            ) && final(self).reads() == old(self).reads(),
    ;
}

/// `t` reads `keys` in order, each successfully.
pub open spec fn reads_each(
    t: Seq<(ConfigKey, Result<Seq<char>, Seq<char>>)>,
    keys: Seq<ConfigKey>,
) -> bool {
    &&& t.len() == keys.len()
    &&& forall|j: int| 0 <= j < t.len() ==> (#[trigger] t[j]).0 == keys[j] && t[j].1 is Ok
}

/// `t` reads a first part of `keys` in order, each successfully but the
/// last, which fails with `e`; nothing is read after it.
pub open spec fn reads_until_failure(
    t: Seq<(ConfigKey, Result<Seq<char>, Seq<char>>)>,
    keys: Seq<ConfigKey>,
    e: Seq<char>,
) -> bool {
    &&& 1 <= t.len() <= keys.len()
    &&& forall|j: int| 0 <= j < t.len() ==> (#[trigger] t[j]).0 == keys[j]
    &&& forall|j: int| 0 <= j < t.len() - 1 ==> (#[trigger] t[j]).1 is Ok
    &&& t.last().1 == Err::<Seq<char>, Seq<char>>(e)
}

/// `t` makes the writes of `plan` in order, each successfully.
pub open spec fn writes_each(
    t: Seq<(ConfigKey, Seq<char>, Result<(), Seq<char>>)>,
    plan: Seq<(ConfigKey, Seq<char>)>,
) -> bool {
    &&& t.len() == plan.len()
    &&& forall|j: int|
        0 <= j < t.len() ==> ((#[trigger] t[j]).0, t[j].1) == plan[j] && t[j].2 is Ok
}

/// `t` makes a first part of the writes of `plan` in order, each
/// successfully but the last, which fails with `e`; nothing is written after
/// it, and nothing written before it is undone.
pub open spec fn writes_until_failure(
    t: Seq<(ConfigKey, Seq<char>, Result<(), Seq<char>>)>,
    plan: Seq<(ConfigKey, Seq<char>)>,
    e: Seq<char>,
) -> bool {
    &&& 1 <= t.len() <= plan.len()
    &&& forall|j: int| 0 <= j < t.len() ==> ((#[trigger] t[j]).0, t[j].1) == plan[j]
    &&& forall|j: int| 0 <= j < t.len() - 1 ==> (#[trigger] t[j]).2 is Ok
    &&& t.last().2 == Err::<(), Seq<char>>(e)
}

} // verus!
