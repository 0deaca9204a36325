//! The variable store: a mapping from variable names to string values. Values
//! are written by user commands and by response extraction, read by payload
//! substitution, and merged — never replaced wholesale — when the workflow
//! definition is reloaded.

use vstd::prelude::*;
use crate::text::str_eq;

verus! {

/// Named string values. Viewed as a `Map<Seq<char>, Seq<char>>` from variable
/// name to value.
pub struct VarStore {
    entries: Vec<(String, String)>,
}

/// The mapping that a sequence of (name, value) pairs denotes; the earliest
/// pair with a given name wins.
spec fn bindings_of(entries: Seq<(String, String)>) -> Map<Seq<char>, Seq<char>>
    decreases entries.len(),
{
    if entries.len() == 0 {
        Map::empty()
    } else {
        bindings_of(entries.skip(1)).insert(entries[0].0@, entries[0].1@)
    }
}

/// The index of the earliest pair named `k`, or `-1` when there is none.
spec fn first_with(entries: Seq<(String, String)>, k: Seq<char>) -> int
    decreases entries.len(),
{
    if entries.len() == 0 {
        -1
    } else if entries[0].0@ == k {
        0
    } else if first_with(entries.skip(1), k) < 0 {
        -1
    } else {
        first_with(entries.skip(1), k) + 1
    }
}

proof fn lemma_bindings(entries: Seq<(String, String)>, k: Seq<char>)
    ensures
        bindings_of(entries).contains_key(k) <==> first_with(entries, k) >= 0,
        first_with(entries, k) >= 0 ==> {
            &&& first_with(entries, k) < entries.len()
            &&& entries[first_with(entries, k)].0@ == k
            &&& bindings_of(entries)[k] == entries[first_with(entries, k)].1@
            &&& forall|j: int| 0 <= j < first_with(entries, k) ==> entries[j].0@ != k
        },
        (exists|j: int| 0 <= j < entries.len() && entries[j].0@ == k) ==> first_with(entries, k)
            >= 0,
    decreases entries.len(),
{
    if entries.len() > 0 {
        let tail = entries.skip(1);
        lemma_bindings(tail, k);
        assert(forall|j: int| 0 <= j < tail.len() ==> #[trigger] tail[j] == entries[j + 1]);
        if entries[0].0@ != k {
            let fw1 = first_with(tail, k);
            if fw1 >= 0 {
                let fw = first_with(entries, k);
                assert(fw == fw1 + 1);
                assert(entries[fw] == tail[fw1]);
                assert(bindings_of(entries)[k] == bindings_of(tail)[k]);
                assert forall|j: int| 0 <= j < fw implies entries[j].0@ != k by {
                    if j > 0 {
                        assert(entries[j] == tail[j - 1]);
                        assert(tail[j - 1].0@ != k);
                    }
                }
            } else {
                assert(!bindings_of(entries).contains_key(k));
                assert forall|j: int|
                    0 <= j < entries.len() implies entries[j].0@ != k by {
                    if j > 0 && entries[j].0@ == k {
                        assert(0 <= j - 1 < tail.len() && tail[j - 1].0@ == k);
                        assert(exists|jj: int| 0 <= jj < tail.len() && tail[jj].0@ == k);
                        assert(first_with(tail, k) >= 0);
                    }
                }
            }
        }
    }
}

/// Updating the earliest pair named `k` with a new value is, on the mapping,
/// an `insert`.
proof fn lemma_bindings_update(entries: Seq<(String, String)>, i: int, p: (String, String))
    requires
        0 <= i < entries.len(),
        p.0@ == entries[i].0@,
        forall|j: int| 0 <= j < i ==> entries[j].0@ != entries[i].0@,
    ensures
        bindings_of(entries.update(i, p)) == bindings_of(entries).insert(p.0@, p.1@),
    decreases entries.len(),
{
    let updated = entries.update(i, p);
    if i == 0 {
        assert(updated.skip(1) =~= entries.skip(1));
        assert(bindings_of(updated) == bindings_of(entries.skip(1)).insert(p.0@, p.1@));
        assert(bindings_of(entries.skip(1)).insert(p.0@, p.1@) =~= bindings_of(
            entries.skip(1),
        ).insert(entries[0].0@, entries[0].1@).insert(p.0@, p.1@));
    } else {
        assert(updated.skip(1) =~= entries.skip(1).update(i - 1, p));
        assert(forall|j: int|
            0 <= j < i - 1 ==> (#[trigger] entries.skip(1)[j]).0@ != entries.skip(1)[i - 1].0@);
        lemma_bindings_update(entries.skip(1), i - 1, p);
        assert(entries[0].0@ != p.0@);
        assert(bindings_of(entries.skip(1)).insert(p.0@, p.1@).insert(entries[0].0@, entries[0].1@)
            =~= bindings_of(entries.skip(1)).insert(entries[0].0@, entries[0].1@).insert(
            p.0@,
            p.1@,
        ));
    }
}

/// Appending a pair whose name is absent is, on the mapping, an `insert`.
proof fn lemma_bindings_push_absent(entries: Seq<(String, String)>, p: (String, String))
    requires
        forall|j: int| 0 <= j < entries.len() ==> entries[j].0@ != p.0@,
    ensures
        bindings_of(entries.push(p)) == bindings_of(entries).insert(p.0@, p.1@),
    decreases entries.len(),
{
    if entries.len() == 0 {
        let pushed = entries.push(p);
        assert(pushed[0] == p);
        assert(pushed.skip(1) =~= Seq::<(String, String)>::empty());
        assert(bindings_of(Seq::<(String, String)>::empty())
            == Map::<Seq<char>, Seq<char>>::empty());
        assert(bindings_of(pushed) == bindings_of(pushed.skip(1)).insert(p.0@, p.1@));
        assert(entries =~= Seq::<(String, String)>::empty());
        assert(bindings_of(pushed) =~= bindings_of(entries).insert(p.0@, p.1@));
    } else {
        assert(entries.push(p).skip(1) =~= entries.skip(1).push(p));
        assert(forall|j: int|
            0 <= j < entries.skip(1).len() ==> entries.skip(1)[j].0@ != p.0@) by {
            assert(forall|j: int|
                0 <= j < entries.skip(1).len() ==> entries.skip(1)[j] == entries[j + 1]);
        }
        lemma_bindings_push_absent(entries.skip(1), p);
        assert(entries[0].0@ != p.0@);
        assert(bindings_of(entries.skip(1)).insert(p.0@, p.1@).insert(entries[0].0@, entries[0].1@)
            =~= bindings_of(entries.skip(1)).insert(entries[0].0@, entries[0].1@).insert(
            p.0@,
            p.1@,
        ));
        assert(entries.push(p)[0] == entries[0]);
    }
}

impl View for VarStore {
    type V = Map<Seq<char>, Seq<char>>;

    closed spec fn view(&self) -> Map<Seq<char>, Seq<char>> {
        bindings_of(self.entries@)
    }
}

impl VarStore {
    /// A store with no variables.
    pub fn new() -> (r: VarStore)
        ensures
            r@ == Map::<Seq<char>, Seq<char>>::empty(),
    {
        VarStore { entries: Vec::new() }
    }

    /// The value bound to `name`, if any. No side effects.
    pub fn get(&self, name: &str) -> (r: Option<&String>)
        ensures
            match r {
                Some(value) => self@.contains_key(name@) && value@ == self@[name@],
                None => !self@.contains_key(name@),
            },
    {
        let n = self.entries.len();
        let mut i: usize = 0;
        while i < n
            invariant
                i <= n,
                n == self.entries@.len(),
                forall|j: int| 0 <= j < i ==> self.entries@[j].0@ != name@,
            decreases n - i,
        {
            if str_eq(self.entries[i].0.as_str(), name) {
                proof {
                    lemma_bindings(self.entries@, name@);
                }
                return Some(&self.entries[i].1);
            }
            i = i + 1;
        }
        proof {
            lemma_bindings(self.entries@, name@);
        }
        None
    }

    /// Whether `name` is bound.
    pub fn contains(&self, name: &str) -> (r: bool)
        ensures
            r == self@.contains_key(name@),
    {
        self.get(name).is_some()
    }

    /// Binds `name` to `value`, overwriting any previous binding.
    pub fn set(&mut self, name: &str, value: String)
        ensures
            final(self)@ == old(self)@.insert(name@, value@),
    {
        let n = self.entries.len();
        let mut i: usize = 0;
        while i < n
            invariant
                i <= n,
                *self == *old(self),
                n == self.entries@.len(),
                forall|j: int| 0 <= j < i ==> self.entries@[j].0@ != name@,
            decreases n - i,
        {
            if str_eq(self.entries[i].0.as_str(), name) {
                let key = self.entries[i].0.clone();
                proof {
                    lemma_bindings_update(self.entries@, i as int, (key, value));
                }
                self.entries.set(i, (key, value));
                return;
            }
            i = i + 1;
        }
        let key = name.to_owned();
        proof {
            lemma_bindings_push_absent(self.entries@, (key, value));
        }
        self.entries.push((key, value));
    }

    /// How many (name, value) pairs the store holds.
    pub closed spec fn entry_count(&self) -> nat {
        self.entries@.len()
    }

    /// How many (name, value) pairs the store holds.
    pub fn count(&self) -> (r: usize)
        ensures
            r == self.entry_count(),
    {
        self.entries.len()
    }

    /// The pair at position `i`, for listing and persisting the store; its
    /// name is bound.
    pub fn pair_at(&self, i: usize) -> (r: (&String, &String))
        requires
            i < self.entry_count(),
        ensures
            self@.contains_key(r.0@),
    {
        proof {
            lemma_bindings(self.entries@, self.entries@[i as int].0@);
            assert(exists|j: int|
                0 <= j < self.entries@.len() && self.entries@[j].0@ == self.entries@[i as int].0@)
                by {
                assert(self.entries@[i as int].0@ == self.entries@[i as int].0@);
            }
        }
        (&self.entries[i].0, &self.entries[i].1)
    }

    /// Inserts every binding of `incoming` whose name is not yet bound here;
    /// bindings already present are never removed or overwritten.
    #[verifier::loop_isolation(false)]
    pub fn merge_preserving_existing(&mut self, incoming: &VarStore)
        ensures
            forall|k: Seq<char>| #[trigger] old(self)@.contains_key(k)
                ==> final(self)@.contains_key(k) && final(self)@[k] == old(self)@[k],
            forall|k: Seq<char>| #[trigger] incoming@.contains_key(k)
                ==> final(self)@.contains_key(k),
            forall|k: Seq<char>| #[trigger] final(self)@.contains_key(k)
                ==> old(self)@.contains_key(k) || incoming@.contains_key(k),
            forall|k: Seq<char>|
                #[trigger] final(self)@.contains_key(k) && !old(self)@.contains_key(k)
                    ==> final(self)@[k] == incoming@[k],
    {
        let ghost orig = self@;
        let n = incoming.entries.len();
        let mut idx: usize = 0;
        while idx < n
            invariant
                idx <= n,
                n == incoming.entries@.len(),
                forall|k: Seq<char>| #[trigger] orig.contains_key(k) ==> self@.contains_key(k)
                    && self@[k] == orig[k],
                forall|j: int|
                    0 <= j < idx ==> self@.contains_key(#[trigger] incoming.entries@[j].0@),
                forall|k: Seq<char>| #[trigger] self@.contains_key(k) ==> orig.contains_key(k)
                    || incoming@.contains_key(k),
                forall|k: Seq<char>|
                    #[trigger] self@.contains_key(k) && !orig.contains_key(k) ==> self@[k]
                        == incoming@[k],
            decreases n - idx,
        {
            let name = &incoming.entries[idx].0;
            if !self.contains(name.as_str()) {
                let value = incoming.entries[idx].1.clone();
                let key = incoming.entries[idx].0.clone();
                proof {
                    let ghost e = incoming.entries@[idx as int];
                    assert(key == e.0 && value == e.1);
                    assert forall|j: int|
                        0 <= j < self.entries@.len() implies (#[trigger] self.entries@[j]).0@
                        != e.0@ by {
                        if self.entries@[j].0@ == e.0@ {
                            lemma_bindings(self.entries@, e.0@);
                            assert(exists|jj: int|
                                0 <= jj < self.entries@.len() && self.entries@[jj].0@ == e.0@);
                            assert(self@.contains_key(e.0@));
                        }
                    }
                    lemma_bindings_push_absent(self.entries@, (key, value));
                    // the pushed pair is the first occurrence of its name in
                    // `incoming`, so its value is the one `incoming` binds
                    lemma_bindings(incoming.entries@, e.0@);
                    assert(exists|jj: int|
                        0 <= jj < incoming.entries@.len() && incoming.entries@[jj].0@ == e.0@) by {
                        assert(incoming.entries@[idx as int].0@ == e.0@);
                    }
                    let ghost fw = first_with(incoming.entries@, e.0@);
                    assert(fw >= 0);
                    if fw < idx as int {
                        assert(self@.contains_key(incoming.entries@[fw].0@));
                        assert(false);
                    }
                    if fw > idx as int {
                        assert(incoming.entries@[idx as int].0@ != e.0@);
                        assert(false);
                    }
                    assert(incoming@[e.0@] == e.1@);
                }
                let ghost pre = self@;
                let ghost e = incoming.entries@[idx as int];
                self.entries.push((key, value));
                proof {
                    assert(self@ == pre.insert(e.0@, e.1@));
                    assert forall|k: Seq<char>|
                        orig.contains_key(k) implies self@.contains_key(k) && self@[k]
                        == orig[k] by {
                        assert(pre.contains_key(k) && pre[k] == orig[k]);
                        assert(k != e.0@);
                    }
                }
            }
            idx = idx + 1;
        }
        proof {
            assert forall|k: Seq<char>|
                incoming@.contains_key(k) implies self@.contains_key(k) by {
                lemma_bindings(incoming.entries@, k);
                let fw = first_with(incoming.entries@, k);
                assert(0 <= fw < n && incoming.entries@[fw].0@ == k);
                assert(self@.contains_key(incoming.entries@[fw].0@));
            }
        }
    }
}

} // verus!
