//! An in-memory configuration store, for running the identity logic without
//! a Git repository.
use vstd::prelude::*;
use crate::identity::{ConfigKey, GitUserData};
use crate::store::{ConfigStore, read_view};

verus! {

/// The value that a list of assignments gives `k`: the last one made to it,
/// or the empty text where none was, as `git config` prints nothing for an
/// unset key.
pub open spec fn last_assigned(s: Seq<(ConfigKey, String)>, k: ConfigKey) -> Seq<char>
    decreases s.len(),
{
    if s.len() == 0 {
        seq![]
    } else if s.last().0 == k {
        s.last().1@
    } else {
        last_assigned(s.drop_last(), k)
    }
}

/// The store after an identity is written to it, key by key.
pub open spec fn with_identity(m: Map<ConfigKey, Seq<char>>, d: GitUserData) -> Map<
    ConfigKey,
    Seq<char>,
> {
    m.insert(ConfigKey::UserName, d.name@).insert(ConfigKey::UserEmail, d.email@).insert(
        ConfigKey::UserSigningKey,
        d.signingkey@,
    ).insert(ConfigKey::CommitGpgSign, d.gpgsign@)
}

/// A configuration store held in memory: a value for every key, empty until
/// written.
pub struct MemoryConfig {
    assignments: Vec<(ConfigKey, String)>,
    read_log: Ghost<Seq<(ConfigKey, Result<Seq<char>, Seq<char>>)>>,
}

impl ConfigStore for MemoryConfig {
    open spec fn records(&self) -> bool {
        true
    }

    closed spec fn reads(&self) -> Seq<(ConfigKey, Result<Seq<char>, Seq<char>>)> {
        self.read_log@
    }

    closed spec fn writes(&self) -> Seq<(ConfigKey, Seq<char>, Result<(), Seq<char>>)> {
        self.assignments@.map_values(
            |a: (ConfigKey, String)| (a.0, a.1@, Ok::<(), Seq<char>>(())),
        )
    }

    /// Always succeeds, with the stored value.
    fn get(&mut self, key: ConfigKey) -> (r: Result<String, String>) {
        let v = self.read(key);
        let r = Ok(v);
        self.read_log = Ghost(self.read_log@.push((key, read_view(r))));
        r
    }

    /// Always succeeds.
    fn set(&mut self, key: ConfigKey, value: &String) -> (r: Result<(), String>) {
        self.write(key, value);
        Ok(())
    }
}

impl View for MemoryConfig {
    type V = Map<ConfigKey, Seq<char>>;

    closed spec fn view(&self) -> Map<ConfigKey, Seq<char>> {
        Map::new(|k: ConfigKey| true, |k: ConfigKey| last_assigned(self.assignments@, k))
    }
}

impl MemoryConfig {
    /// A store in which every key is unset.
    pub fn new() -> (r: MemoryConfig)
        ensures
            r@.dom() == Set::<ConfigKey>::full(),
            forall|k: ConfigKey| r@[k] == Seq::<char>::empty(),
    {
        let r = MemoryConfig { assignments: Vec::new(), read_log: Ghost(Seq::empty()) };
        assert(r@.dom() =~= Set::<ConfigKey>::full());
        r
    }

    /// The current value of `key`.
    pub fn read(&self, key: ConfigKey) -> (r: String)
        ensures
            r@ == self@[key],
    {
        let mut i: usize = self.assignments.len();
        assert(self.assignments@.subrange(0, i as int) =~= self.assignments@);
        while i > 0
            invariant
                i <= self.assignments.len(),
                last_assigned(self.assignments@, key) == last_assigned(
                    self.assignments@.subrange(0, i as int),
                    key,
                ),
            decreases i,
        {
            let ghost prefix = self.assignments@.subrange(0, i as int);
            assert(prefix.drop_last() =~= self.assignments@.subrange(0, i - 1));
            if self.assignments[i - 1].0 == key {
                return self.assignments[i - 1].1.clone();
            }
            i = i - 1;
        }
        assert(self.assignments@.subrange(0, 0) =~= Seq::<(ConfigKey, String)>::empty());
        String::new()
    }

    /// Sets `key` to `value`, leaving every other key as it was.
    pub fn write(&mut self, key: ConfigKey, value: &String)
        ensures
            final(self)@ == old(self)@.insert(key, value@),
            final(self).writes() == old(self).writes().push((key, value@, Ok::<(), Seq<char>>(()))),
            final(self).reads() == old(self).reads(),
    {
        self.assignments.push((key, value.clone()));
        assert(self.assignments@.drop_last() =~= old(self).assignments@);
        assert(self@ =~= old(self)@.insert(key, value@));
        assert(self.writes() =~= old(self).writes().push((key, value@, Ok::<(), Seq<char>>(()))));
    }

    /// Reads the identity that the store holds.
    pub fn load_identity(&self) -> (r: GitUserData)
        ensures
            r.name@ == self@[ConfigKey::UserName],
            r.email@ == self@[ConfigKey::UserEmail],
            r.signingkey@ == self@[ConfigKey::UserSigningKey],
            r.gpgsign@ == self@[ConfigKey::CommitGpgSign],
    {
        GitUserData {
            name: self.read(ConfigKey::UserName),
            email: self.read(ConfigKey::UserEmail),
            signingkey: self.read(ConfigKey::UserSigningKey),
            gpgsign: self.read(ConfigKey::CommitGpgSign),
        }
    }

    /// Writes each field of `d` to its key, through `set_as_current`.
    pub fn store_identity(&mut self, d: &GitUserData)
        ensures
            final(self)@ == with_identity(old(self)@, *d),
    {
        let ghost a0 = self.assignments@;
        let r = d.set_as_current(self);
        proof {
            let a = self.assignments@;
            let n = a0.len() as int;
            let w = self.writes();
            assert(w.len() == a.len());
            assert(w.subrange(0, n) =~= a0.map_values(
                |a: (ConfigKey, String)| (a.0, a.1@, Ok::<(), Seq<char>>(())),
            ));
            assert(a.len() == n + 4);
            let t = w.skip(n);
            assert(t[0].0 == t[0].0 && t[1].0 == t[1].0 && t[2].0 == t[2].0 && t[3].0 == t[3].0);
            assert(t[0] == w[n] && t[1] == w[n + 1] && t[2] == w[n + 2] && t[3] == w[n + 3]);
            assert(w[n] == (a[n].0, a[n].1@, Ok::<(), Seq<char>>(())));
            assert(w[n + 1] == (a[n + 1].0, a[n + 1].1@, Ok::<(), Seq<char>>(())));
            assert(w[n + 2] == (a[n + 2].0, a[n + 2].1@, Ok::<(), Seq<char>>(())));
            assert(w[n + 3] == (a[n + 3].0, a[n + 3].1@, Ok::<(), Seq<char>>(())));
            assert forall|j: int| 0 <= j < n implies (#[trigger] a.subrange(0, n)[j]).0 == a0[j].0
                && a.subrange(0, n)[j].1@ == a0[j].1@ by {
                assert(w[j] == w.subrange(0, n)[j]);
                assert(w[j] == (a[j].0, a[j].1@, Ok::<(), Seq<char>>(())));
            }
            assert(a.subrange(0, n).len() == a0.len());
            assert forall|k: ConfigKey| last_assigned(a.subrange(0, n), k) == #[trigger] old(self)@[k] by {
                lemma_same_views(a.subrange(0, n), a0, k);
            }
            assert(a.subrange(0, n + 4) =~= a);
            assert(a.subrange(0, n + 4).drop_last() =~= a.subrange(0, n + 3));
            assert(a.subrange(0, n + 3).drop_last() =~= a.subrange(0, n + 2));
            assert(a.subrange(0, n + 2).drop_last() =~= a.subrange(0, n + 1));
            assert(a.subrange(0, n + 1).drop_last() =~= a.subrange(0, n));
            assert(a[n] == a.subrange(0, n + 1).last());
            assert(a[n + 1] == a.subrange(0, n + 2).last());
            assert(a[n + 2] == a.subrange(0, n + 3).last());
            assert(a[n + 3] == a.subrange(0, n + 4).last());
            assert(d.plan()[0] == (ConfigKey::UserName, d.name@));
            assert(d.plan()[1] == (ConfigKey::UserEmail, d.email@));
            assert(d.plan()[2] == (ConfigKey::UserSigningKey, d.signingkey@));
            assert(d.plan()[3] == (ConfigKey::CommitGpgSign, d.gpgsign@));
            assert forall|k: ConfigKey| #[trigger] self@[k] == with_identity(old(self)@, *d)[k] by {
                let s4 = a.subrange(0, n + 4);
                let s3 = a.subrange(0, n + 3);
                let s2 = a.subrange(0, n + 2);
                let s1 = a.subrange(0, n + 1);
                assert(last_assigned(s4, k) == if a[n + 3].0 == k { a[n + 3].1@ } else { last_assigned(s3, k) });
                assert(last_assigned(s3, k) == if a[n + 2].0 == k { a[n + 2].1@ } else { last_assigned(s2, k) });
                assert(last_assigned(s2, k) == if a[n + 1].0 == k { a[n + 1].1@ } else { last_assigned(s1, k) });
                assert(last_assigned(s1, k) == if a[n].0 == k { a[n].1@ } else { last_assigned(a.subrange(0, n), k) });
            }
            assert(self@ =~= with_identity(old(self)@, *d));
        }
    }

}

/// Assignments that agree on keys and on the views of values give every key
/// the same value.
proof fn lemma_same_views(x: Seq<(ConfigKey, String)>, y: Seq<(ConfigKey, String)>, k: ConfigKey)
    requires
        x.len() == y.len(),
        forall|j: int| 0 <= j < x.len() ==> (#[trigger] x[j]).0 == y[j].0 && x[j].1@ == y[j].1@,
    ensures
        last_assigned(x, k) == last_assigned(y, k),
    decreases x.len(),
{
    if x.len() > 0 {
        assert(x[x.len() - 1].0 == y[y.len() - 1].0);
        assert forall|j: int| 0 <= j < x.drop_last().len() implies (#[trigger] x.drop_last()[j]).0
            == y.drop_last()[j].0 && x.drop_last()[j].1@ == y.drop_last()[j].1@ by {
            assert(x[j].0 == y[j].0);
        }
        lemma_same_views(x.drop_last(), y.drop_last(), k);
    }
}

/// Writing an identity to a store and reading it back gives the identity
/// that was written, whatever the store held before.
pub proof fn lemma_identity_round_trip(m: Map<ConfigKey, Seq<char>>, d: GitUserData)
    ensures
        forall|k: ConfigKey| #[trigger] with_identity(m, d)[k] == d.value_of(k)@,
{
    assert forall|k: ConfigKey| #[trigger] with_identity(m, d)[k] == d.value_of(k)@ by {
        match k {
            ConfigKey::UserName => {},
            ConfigKey::UserEmail => {},
            ConfigKey::UserSigningKey => {},
            ConfigKey::CommitGpgSign => {},
        }
    }
}

/// Storing the same identity twice leaves the store as storing it once.
pub proof fn lemma_store_identity_idempotent(m: Map<ConfigKey, Seq<char>>, d: GitUserData)
    ensures
        with_identity(with_identity(m, d), d) == with_identity(m, d),
{
    assert(with_identity(with_identity(m, d), d) =~= with_identity(m, d));
}

} // verus!
