use vstd::prelude::*;
use vstd::string::StrSliceExecFns;
use vstd::string::StringExecFns;
use crate::store::{
    ConfigStore, read_view, reads_each, reads_until_failure, write_view, writes_each,
    writes_until_failure,
};

verus! {

/// A configuration key that this tool reads and writes.
#[derive(Clone, Copy, Debug, PartialEq, Eq, Structural)]
pub enum ConfigKey {
    UserName,
    UserEmail,
    UserSigningKey,
    CommitGpgSign,
}

/// How `git config` spells a key.
pub open spec fn key_name(k: ConfigKey) -> Seq<char> {
    match k {
        ConfigKey::UserName => "user.name"@,
        ConfigKey::UserEmail => "user.email"@,
        ConfigKey::UserSigningKey => "user.signingkey"@,
        ConfigKey::CommitGpgSign => "commit.gpgsign"@,
    }
}

/// The input line that stands for "keep the current value".
pub open spec fn is_keep_sentinel(s: Seq<char>) -> bool {
    s == seq!['0']
}

impl ConfigKey {
    /// The key as `git config` spells it.
    pub fn as_str(&self) -> (r: &'static str)
        ensures
            r@ == key_name(*self),
    {
        match self {
            ConfigKey::UserName => "user.name",
            ConfigKey::UserEmail => "user.email",
            ConfigKey::UserSigningKey => "user.signingkey",
            ConfigKey::CommitGpgSign => "commit.gpgsign",
        }
    }
}

/// The Git identity of a commit author.
#[derive(Debug)]
pub struct GitUserData {
    pub name: String,
    pub email: String,
    pub signingkey: String,
    pub gpgsign: String,
}

/// The text shown for an identity, one key per line.
pub open spec fn display_text(d: GitUserData) -> Seq<char> {
    "user.name: "@ + d.name@ + "\nuser.email: "@ + d.email@ + "\nuser.signingkey: "@
        + d.signingkey@ + "\ncommit.gpgsign: "@ + d.gpgsign@
}

impl GitUserData {
    /// The field that holds the value of a key.
    pub open spec fn value_of(&self, k: ConfigKey) -> String {
        match k {
            ConfigKey::UserName => self.name,
            ConfigKey::UserEmail => self.email,
            ConfigKey::UserSigningKey => self.signingkey,
            ConfigKey::CommitGpgSign => self.gpgsign,
        }
    }

    /// The writes that storing this identity makes, in order.
    pub open spec fn plan(&self) -> Seq<(ConfigKey, Seq<char>)> {
        seq![
            (ConfigKey::UserName, self.name@),
            (ConfigKey::UserEmail, self.email@),
            (ConfigKey::UserSigningKey, self.signingkey@),
            (ConfigKey::CommitGpgSign, self.gpgsign@),
        ]
    }

    /// The field that holds the value of `k`.
    pub fn field(&self, k: ConfigKey) -> (r: &String)
        ensures
            *r == self.value_of(k),
    {
        match k {
            ConfigKey::UserName => &self.name,
            ConfigKey::UserEmail => &self.email,
            ConfigKey::UserSigningKey => &self.signingkey,
            ConfigKey::CommitGpgSign => &self.gpgsign,
        }
    }

    /// Writes the four values to `store`, in the order name, email, signing
    /// key, signing flag, and stops at the first failure, whose error it
    /// returns. Values written before a failure stay written.
    pub fn set_as_current<S: ConfigStore>(&self, store: &mut S) -> (r: Result<(), String>)
        ensures
            final(store).records() == old(store).records(),
            old(store).records() ==> {
                &&& final(store).reads() == old(store).reads()
                &&& extends(old(store).writes(), final(store).writes())
                &&& r is Ok ==> writes_each(
                    added(old(store).writes(), final(store).writes()),
                    self.plan(),
                )
                &&& r is Err ==> writes_until_failure(
                    added(old(store).writes(), final(store).writes()),
                    self.plan(),
                    r->Err_0@,
                )
            },
    {
        let ghost w0 = store.writes();
        let ghost r0 = store.reads();
        let ghost plan = self.plan();
        assert(w0.subrange(0, w0.len() as int) =~= w0);
        assert(added(w0, w0) =~= Seq::<(ConfigKey, Seq<char>, Result<(), Seq<char>>)>::empty());
        let mut i: usize = 0;
        while i < 4
            invariant
                i <= 4,
                w0 == old(store).writes(),
                r0 == old(store).reads(),
                plan == self.plan(),
                store.records() == old(store).records(),
                store.records() ==> store.reads() == r0 && extends(w0, store.writes())
                    && writes_each(added(w0, store.writes()), plan.take(i as int)),
            decreases 4 - i,
        {
            let ghost before = added(w0, store.writes());
            let k = key_at(i);
            let v = self.field(k);
            let ghost prev = store.writes();
            let res = store.set(k, v);
            let ghost after = added(w0, store.writes());
            proof {
                if store.records() {
                    assert(store.writes().subrange(0, w0.len() as int) =~= prev.subrange(
                        0,
                        w0.len() as int,
                    ));
                    assert(after =~= before.push((k, v@, write_view(res))));
                }
            }
            assert(plan.take(i + 1) =~= plan.take(i as int).push(plan[i as int]));
            assert(plan[i as int] == (k, v@)) by {
                if i == 0 {} else if i == 1 {} else if i == 2 {} else {}
            }
            match res {
                Ok(_) => {},
                Err(e) => {
                    proof {
                        if store.records() {
                            assert forall|j: int| 0 <= j < after.len() implies (
                                (#[trigger] after[j]).0,
                                after[j].1,
                            ) == plan[j] by {
                                if j < i {
                                    assert(before[j] == after[j]);
                                    assert(plan.take(i as int)[j] == plan[j]);
                                }
                            }
                            assert forall|j: int| 0 <= j < after.len() - 1 implies (
                                #[trigger] after[j]).2 is Ok by {
                                assert(before[j] == after[j]);
                                assert(before[j].0 == before[j].0);
                            }
                        }
                    }
                    return Err(e);
                },
            }
            i = i + 1;
        }
        assert(plan.take(4) =~= plan);
        Ok(())
    }

    /// The identity as text, one `key: value` line per key.
    pub fn to_string(&self) -> (r: String)
        ensures
            r@ == display_text(*self),
    {
        let mut s = String::from_str("user.name: ");
        s.append(self.name.as_str());
        s.append("\nuser.email: ");
        s.append(self.email.as_str());
        s.append("\nuser.signingkey: ");
        s.append(self.signingkey.as_str());
        s.append("\ncommit.gpgsign: ");
        s.append(self.gpgsign.as_str());
        s
    }

    /// Whether automatic signing is off, that is `commit.gpgsign` is not the
    /// text `true`.
    pub fn signing_disabled(&self) -> (r: bool)
        ensures
            r == (self.gpgsign@ != "true"@),
    {
        let t = String::from_str("true");
        !(self.gpgsign == t)
    }
}

/// The keys in the order in which an identity is read and written.
pub open spec fn key_order() -> Seq<ConfigKey> {
    seq![ConfigKey::UserName, ConfigKey::UserEmail, ConfigKey::UserSigningKey, ConfigKey::CommitGpgSign]
}

/// The key at position `i` of `key_order`.
pub fn key_at(i: usize) -> (k: ConfigKey)
    requires
        i < 4,
    ensures
        k == key_order()[i as int],
{
    if i == 0 {
        ConfigKey::UserName
    } else if i == 1 {
        ConfigKey::UserEmail
    } else if i == 2 {
        ConfigKey::UserSigningKey
    } else {
        ConfigKey::CommitGpgSign
    }
}

/// `after` is `before` with entries appended.
pub open spec fn extends<T>(before: Seq<T>, after: Seq<T>) -> bool {
    before.len() <= after.len() && after.subrange(0, before.len() as int) == before
}

/// The entries that `after` appends to `before`.
pub open spec fn added<T>(before: Seq<T>, after: Seq<T>) -> Seq<T> {
    after.skip(before.len() as int)
}

/// Each read in `t` succeeded with the value that `d` holds for its key.
pub open spec fn reads_give(t: Seq<(ConfigKey, Result<Seq<char>, Seq<char>>)>, d: GitUserData) -> bool {
    forall|j: int|
        0 <= j < t.len() ==> (#[trigger] t[j]).1 == Ok::<Seq<char>, Seq<char>>(d.value_of(t[j].0)@)
}

/// Reads the current identity from `store`, key by key in `key_order`, and
/// stops at the first read that fails, whose error it returns.
pub fn env_git_user<S: ConfigStore>(store: &mut S) -> (r: Result<GitUserData, String>)
    ensures
        final(store).records() == old(store).records(),
        old(store).records() ==> {
            &&& final(store).writes() == old(store).writes()
            &&& extends(old(store).reads(), final(store).reads())
            &&& r is Ok ==> reads_each(added(old(store).reads(), final(store).reads()), key_order())
                && reads_give(added(old(store).reads(), final(store).reads()), r->Ok_0)
            &&& r is Err ==> reads_until_failure(
                added(old(store).reads(), final(store).reads()),
                key_order(),
                r->Err_0@,
            )
        },
{
    let ghost r0 = store.reads();
    let ghost w0 = store.writes();
    let mut vals: Vec<String> = Vec::new();
    assert(r0.subrange(0, r0.len() as int) =~= r0);
    assert(added(r0, r0) =~= Seq::<(ConfigKey, Result<Seq<char>, Seq<char>>)>::empty());
    let mut i: usize = 0;
    while i < 4
        invariant
            i <= 4,
            w0 == old(store).writes(),
            r0 == old(store).reads(),
            vals.len() == i,
            store.records() == old(store).records(),
            store.records() ==> store.writes() == w0 && extends(r0, store.reads()) && reads_each(
                added(r0, store.reads()),
                key_order().take(i as int),
            ) && forall|j: int|
                0 <= j < i ==> #[trigger] added(r0, store.reads())[j].1 == Ok::<
                    Seq<char>,
                    Seq<char>,
                >(vals@[j]@),
        decreases 4 - i,
    {
        let ghost before = added(r0, store.reads());
        let k = key_at(i);
        let ghost prev = store.reads();
        let res = store.get(k);
        let ghost after = added(r0, store.reads());
        proof {
            if store.records() {
                assert(store.reads().subrange(0, r0.len() as int) =~= prev.subrange(
                    0,
                    r0.len() as int,
                ));
                assert(after =~= before.push((k, read_view(res))));
            }
        }
        assert(key_order().take(i + 1) =~= key_order().take(i as int).push(key_order()[i as int]));
        match res {
            Ok(v) => {
                vals.push(v);
            },
            Err(e) => {
                return Err(e);
            },
        }
        i = i + 1;
    }
    assert(key_order().take(4) =~= key_order());
    let d = GitUserData {
        name: vals[0].clone(),
        email: vals[1].clone(),
        signingkey: vals[2].clone(),
        gpgsign: vals[3].clone(),
    };
    Ok(d)
}

/// The value to store for `key`: the input line itself, with no read made,
/// or, where the line is the sentinel `0`, the result of one read of `key`.
pub fn get_or_default<S: ConfigStore>(val: &str, key: ConfigKey, store: &mut S) -> (r: Result<String, String>)
    ensures
        final(store).records() == old(store).records(),
        old(store).records() ==> final(store).writes() == old(store).writes(),
        old(store).records() && is_keep_sentinel(val@) ==> final(store).reads()
            == old(store).reads().push((key, read_view(r))),
        !is_keep_sentinel(val@) ==> *final(store) == *old(store) && r is Ok && r->Ok_0@ == val@,
{
    if val.unicode_len() == 1 && val.get_char(0) == '0' {
        assert(val@ =~= seq!['0']);
        store.get(key)
    } else {
        Ok(val.to_owned())
    }
}

/// The keys, in `key_order`, whose line among the first `n` of `lines` is
/// the sentinel: the keys that are read.
pub open spec fn sentinel_keys(lines: Seq<Seq<char>>, n: int) -> Seq<ConfigKey>
    decreases n,
{
    if n <= 0 {
        seq![]
    } else if is_keep_sentinel(lines[n - 1]) {
        sentinel_keys(lines, n - 1).push(key_order()[n - 1])
    } else {
        sentinel_keys(lines, n - 1)
    }
}

proof fn lemma_sentinel_keys_prefix(lines: Seq<Seq<char>>, n: int, m: int)
    requires
        0 <= n <= m,
    ensures
        sentinel_keys(lines, n).len() <= sentinel_keys(lines, m).len(),
        sentinel_keys(lines, m).subrange(0, sentinel_keys(lines, n).len() as int)
            == sentinel_keys(lines, n),
    decreases m - n,
{
    if n < m {
        lemma_sentinel_keys_prefix(lines, n, m - 1);
        let a = sentinel_keys(lines, n);
        let b = sentinel_keys(lines, m - 1);
        assert(sentinel_keys(lines, m).subrange(0, a.len() as int) =~= b.subrange(0, a.len() as int));
    } else {
        assert(sentinel_keys(lines, m).subrange(0, sentinel_keys(lines, n).len() as int)
            =~= sentinel_keys(lines, n));
    }
}

/// The four input lines, in `key_order`.
pub open spec fn input_lines(name: &str, email: &str, signingkey: &str, gpgsign: &str) -> Seq<
    Seq<char>,
> {
    seq![name@, email@, signingkey@, gpgsign@]
}

/// Builds an identity from four input lines (name, email, signing key,
/// signing flag). A line that is the sentinel `0` keeps the current value,
/// read from `store`; any other line is taken as it stands, with no read.
/// Lines are handled in order, and the first failing read ends the work.
pub fn stdin_git_user<S: ConfigStore>(
    name: &str,
    email: &str,
    signingkey: &str,
    gpgsign: &str,
    store: &mut S,
) -> (r: Result<GitUserData, String>)
    ensures
        final(store).records() == old(store).records(),
        old(store).records() ==> final(store).writes() == old(store).writes(),
        old(store).records() ==> extends(old(store).reads(), final(store).reads()),
        old(store).records() && r is Ok ==> {
            let d = r->Ok_0;
            let t = added(old(store).reads(), final(store).reads());
            let lines = input_lines(name, email, signingkey, gpgsign);
            &&& reads_each(t, sentinel_keys(lines, 4))
            &&& reads_give(t, d)
            &&& forall|j: int|
                0 <= j < 4 && !is_keep_sentinel(#[trigger] lines[j]) ==> d.value_of(
                    key_order()[j],
                )@ == lines[j]
        },
        old(store).records() && r is Err ==> reads_until_failure(
            added(old(store).reads(), final(store).reads()),
            sentinel_keys(input_lines(name, email, signingkey, gpgsign), 4),
            r->Err_0@,
        ),
{
    let ghost r0 = store.reads();
    let ghost w0 = store.writes();
    let ghost lines = input_lines(name, email, signingkey, gpgsign);
    let ins: Vec<&str> = vec![name, email, signingkey, gpgsign];
    assert(forall|j: int| 0 <= j < 4 ==> (#[trigger] ins@[j])@ == lines[j]);
    let mut vals: Vec<String> = Vec::new();
    assert(r0.subrange(0, r0.len() as int) =~= r0);
    assert(added(r0, r0) =~= Seq::<(ConfigKey, Result<Seq<char>, Seq<char>>)>::empty());
    let mut i: usize = 0;
    while i < 4
        invariant
            i <= 4,
            w0 == old(store).writes(),
            r0 == old(store).reads(),
            ins.len() == 4,
            forall|j: int| 0 <= j < 4 ==> (#[trigger] ins@[j])@ == lines[j],
            lines == input_lines(name, email, signingkey, gpgsign),
            vals.len() == i,
            store.records() == old(store).records(),
            store.records() ==> store.writes() == w0 && extends(r0, store.reads()) && reads_each(
                added(r0, store.reads()),
                sentinel_keys(lines, i as int),
            ) && forall|m: int|
                0 <= m < added(r0, store.reads()).len() ==> exists|j: int|
                    0 <= j < i && key_order()[j] == (#[trigger] added(r0, store.reads())[m]).0
                        && added(r0, store.reads())[m].1 == Ok::<Seq<char>, Seq<char>>(vals@[j]@),
            forall|j: int|
                0 <= j < i && !is_keep_sentinel(#[trigger] lines[j]) ==> vals@[j]@ == lines[j],
        decreases 4 - i,
    {
        let ghost before = added(r0, store.reads());
        let k = key_at(i);
        let ghost prev = store.reads();
        let res = get_or_default(ins[i], k, store);
        let ghost after = added(r0, store.reads());
        proof {
            lemma_sentinel_keys_prefix(lines, i + 1, 4);
            if store.records() {
                assert(store.reads().subrange(0, r0.len() as int) =~= prev.subrange(
                    0,
                    r0.len() as int,
                ));
            }
            if !store.records() {
            } else if is_keep_sentinel(lines[i as int]) {
                assert(after =~= before.push((k, read_view(res))));
            } else {
                assert(after =~= before);
            }
        }
        match res {
            Ok(v) => {
                vals.push(v);
            },
            Err(e) => {
                proof {
                if store.records() {
                    let sk = sentinel_keys(lines, 4);
                    let ski = sentinel_keys(lines, i + 1);
                    assert(is_keep_sentinel(lines[i as int]));
                    assert(ski == sentinel_keys(lines, i as int).push(key_order()[i as int]));
                    assert(after.len() == ski.len());
                    assert forall|j: int| 0 <= j < after.len() implies (#[trigger] after[j]).0 == sk[j] by {
                        assert(sk.subrange(0, ski.len() as int)[j] == sk[j]);
                        if j < before.len() {
                            assert(before[j] == after[j]);
                        }
                    }
                    assert forall|j: int| 0 <= j < after.len() - 1 implies (#[trigger] after[j]).1 is Ok by {
                        assert(before[j] == after[j]);
                        assert(before[j].0 == sentinel_keys(lines, i as int)[j]);
                    }
                    assert(after.last().1 == Err::<Seq<char>, Seq<char>>(e@));
                }
                }
                return Err(e);
            },
        }
        i = i + 1;
    }
    let d = GitUserData {
        name: vals[0].clone(),
        email: vals[1].clone(),
        signingkey: vals[2].clone(),
        gpgsign: vals[3].clone(),
    };
    proof {
    if store.records() {
        let t = added(r0, store.reads());
        assert forall|m: int| 0 <= m < t.len() implies (#[trigger] t[m]).1 == Ok::<
            Seq<char>,
            Seq<char>,
        >(d.value_of(t[m].0)@) by {
            let j = choose|j: int|
                0 <= j < 4 && key_order()[j] == t[m].0 && t[m].1 == Ok::<Seq<char>, Seq<char>>(
                    vals@[j]@,
                );
        }
    }
    }
    Ok(d)
}

/// Answering every prompt of the configure step with the sentinel `0` reads
/// each key once, in `key_order`, and keeps for each field the value read.
pub proof fn lemma_all_sentinels_keep_current(
    lines: Seq<Seq<char>>,
    t: Seq<(ConfigKey, Result<Seq<char>, Seq<char>>)>,
    d: GitUserData,
)
    requires
        lines.len() == 4,
        forall|j: int| 0 <= j < 4 ==> is_keep_sentinel(#[trigger] lines[j]),
        reads_each(t, sentinel_keys(lines, 4)),
        reads_give(t, d),
    ensures
        t.len() == 4,
        forall|j: int|
            0 <= j < 4 ==> #[trigger] t[j] == (
                key_order()[j],
                Ok::<Seq<char>, Seq<char>>(d.value_of(key_order()[j])@),
            ),
{
    assert(is_keep_sentinel(lines[0]) && is_keep_sentinel(lines[1]) && is_keep_sentinel(lines[2])
        && is_keep_sentinel(lines[3]));
    assert(sentinel_keys(lines, 0) =~= seq![]);
    assert(sentinel_keys(lines, 1) =~= key_order().take(1));
    assert(sentinel_keys(lines, 2) =~= key_order().take(2));
    assert(sentinel_keys(lines, 3) =~= key_order().take(3));
    assert(sentinel_keys(lines, 4) =~= key_order());
    assert forall|j: int| 0 <= j < 4 implies #[trigger] t[j] == (
        key_order()[j],
        Ok::<Seq<char>, Seq<char>>(d.value_of(key_order()[j])@),
    ) by {
        assert(t[j].0 == key_order()[j]);
    }
}

} // verus!
