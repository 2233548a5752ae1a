use vstd::prelude::*;
use crate::bytes::bytes_eq;

verus! {

/// Per-address balances, counted in hundredths of a coin. An address that
/// is absent holds 0. Keys are unique whenever `wf` holds.
pub struct Balances {
    pub entries: Vec<(Vec<u8>, u64)>,
}

/// The images of a sequence of balance entries.
pub open spec fn entries_view(s: Seq<(Vec<u8>, u64)>) -> Seq<(Seq<u8>, u64)> {
    Seq::new(s.len(), |i: int| (s[i].0@, s[i].1))
}

impl View for Balances {
    type V = Seq<(Seq<u8>, u64)>;

    open spec fn view(&self) -> Seq<(Seq<u8>, u64)> {
        entries_view(self.entries@)
    }
}

pub open spec fn keys_distinct(s: Seq<(Seq<u8>, u64)>) -> bool {
    forall|i: int, j: int| 0 <= i < j < s.len() ==> s[i].0 != s[j].0
}

pub open spec fn has_key(s: Seq<(Seq<u8>, u64)>, k: Seq<u8>) -> bool {
    exists|i: int| 0 <= i < s.len() && s[i].0 == k
}

/// The balance recorded for `k`; 0 when the address is absent.
pub open spec fn lookup(s: Seq<(Seq<u8>, u64)>, k: Seq<u8>) -> u64
    decreases s.len(),
{
    if s.len() == 0 {
        0
    } else if s[0].0 == k {
        s[0].1
    } else {
        lookup(s.drop_first(), k)
    }
}

/// The sum of all recorded balances.
pub open spec fn total(s: Seq<(Seq<u8>, u64)>) -> int
    decreases s.len(),
{
    if s.len() == 0 {
        0
    } else {
        s[0].1 + total(s.drop_first())
    }
}

proof fn lemma_lookup_skip(s: Seq<(Seq<u8>, u64)>, k: Seq<u8>, i: int)
    requires
        0 <= i <= s.len(),
        forall|j: int| 0 <= j < i ==> s[j].0 != k,
    ensures
        lookup(s, k) == lookup(s.skip(i), k),
    decreases i,
{
    if i > 0 {
        lemma_lookup_skip(s.drop_first(), k, i - 1);
        assert(s.drop_first().skip(i - 1) =~= s.skip(i));
    } else {
        assert(s.skip(0) =~= s);
    }
}

proof fn lemma_lookup_update(s: Seq<(Seq<u8>, u64)>, i: int, v: u64, k: Seq<u8>)
    requires
        keys_distinct(s),
        0 <= i < s.len(),
    ensures
        lookup(s.update(i, (s[i].0, v)), k) == if k == s[i].0 {
            v
        } else {
            lookup(s, k)
        },
    decreases s.len(),
{
    let t = s.update(i, (s[i].0, v));
    if i == 0 {
        assert(t[0] == (s[0].0, v));
        assert(t.drop_first() =~= s.drop_first());
    } else {
        assert(t[0] == s[0]);
        assert(t.drop_first() =~= s.drop_first().update(i - 1, (s.drop_first()[i - 1].0, v)));
        assert(keys_distinct(s.drop_first()));
        lemma_lookup_update(s.drop_first(), i - 1, v, k);
        if k == s[i].0 {
            assert(s[0].0 != s[i].0);
        }
    }
}

proof fn lemma_lookup_push(s: Seq<(Seq<u8>, u64)>, p: (Seq<u8>, u64), k: Seq<u8>)
    requires
        !has_key(s, p.0),
    ensures
        lookup(s.push(p), k) == if k == p.0 {
            p.1
        } else {
            lookup(s, k)
        },
    decreases s.len(),
{
    if s.len() == 0 {
        assert(s.push(p)[0] == p);
        assert(s.push(p).drop_first() =~= Seq::<(Seq<u8>, u64)>::empty());
        assert(lookup(Seq::<(Seq<u8>, u64)>::empty(), k) == 0);
        assert(lookup(s, k) == 0);
    } else {
        assert(s.push(p)[0] == s[0]);
        assert(s.push(p).drop_first() =~= s.drop_first().push(p));
        assert(!has_key(s.drop_first(), p.0)) by {
            assert(forall|i: int|
                0 <= i < s.drop_first().len() ==> s.drop_first()[i] == s[i + 1]);
        }
        lemma_lookup_push(s.drop_first(), p, k);
        if k == p.0 {
            assert(s[0].0 != p.0);
        }
    }
}

proof fn lemma_total_update(s: Seq<(Seq<u8>, u64)>, i: int, v: u64)
    requires
        0 <= i < s.len(),
    ensures
        total(s.update(i, (s[i].0, v))) == total(s) - s[i].1 + v,
    decreases s.len(),
{
    let t = s.update(i, (s[i].0, v));
    if i == 0 {
        assert(t.drop_first() =~= s.drop_first());
    } else {
        assert(t[0] == s[0]);
        assert(t.drop_first() =~= s.drop_first().update(i - 1, (s.drop_first()[i - 1].0, v)));
        lemma_total_update(s.drop_first(), i - 1, v);
    }
}

proof fn lemma_total_push(s: Seq<(Seq<u8>, u64)>, p: (Seq<u8>, u64))
    ensures
        total(s.push(p)) == total(s) + p.1,
    decreases s.len(),
{
    if s.len() == 0 {
        assert(s.push(p)[0] == p);
        assert(s.push(p).drop_first() =~= Seq::<(Seq<u8>, u64)>::empty());
        assert(total(Seq::<(Seq<u8>, u64)>::empty()) == 0);
        assert(total(s) == 0);
    } else {
        assert(s.push(p)[0] == s[0]);
        assert(s.push(p).drop_first() =~= s.drop_first().push(p));
        lemma_total_push(s.drop_first(), p);
        assert(total(s.push(p)) == s[0].1 + total(s.drop_first().push(p)));
        assert(total(s) == s[0].1 + total(s.drop_first()));
    }
}

impl Balances {
    pub open spec fn wf(&self) -> bool {
        keys_distinct(self@)
    }

    /// An empty balance table.
    pub fn new() -> (r: Balances)
        ensures
            r.wf(),
            r@.len() == 0,
            total(r@) == 0,
    {
        Balances { entries: Vec::new() }
    }

    fn index_of(&self, addr: &Vec<u8>) -> (r: Option<usize>)
        ensures
            match r {
                Some(i) => i < self@.len() && self@[i as int].0 == addr@ && (forall|j: int|
                    0 <= j < i ==> self@[j].0 != addr@),
                None => !has_key(self@, addr@),
            },
    {
        let mut i: usize = 0;
        while i < self.entries.len()
            invariant
                i <= self@.len(),
                self@.len() == self.entries@.len(),
                forall|j: int| 0 <= j < i ==> self@[j].0 != addr@,
            decreases self@.len() - i,
        {
            if bytes_eq(&self.entries[i].0, addr) {
                return Some(i);
            }
            i += 1;
        }
        None
    }

    /// The balance of `addr`; 0 when the address is absent.
    pub fn get(&self, addr: &Vec<u8>) -> (r: u64)
        ensures
            r == lookup(self@, addr@),
    {
        match self.index_of(addr) {
            Some(i) => {
                proof {
                    lemma_first_occurrence(self@, addr@, i as int);
                }
                self.entries[i].1
            },
            None => {
                proof {
                    lemma_lookup_skip(self@, addr@, self@.len() as int);
                    assert(self@.skip(self@.len() as int) =~= Seq::<(Seq<u8>, u64)>::empty());
                }
                0
            },
        }
    }

    /// Add `amount` to the balance of `addr`, creating the entry if absent.
    /// Refused (state unchanged) only when the new balance would not fit.
    pub fn credit(&mut self, addr: &Vec<u8>, amount: u64) -> (r: bool)
        requires
            old(self).wf(),
        ensures
            final(self).wf(),
            r == (lookup(old(self)@, addr@) + amount <= u64::MAX),
            r ==> lookup(final(self)@, addr@) == lookup(old(self)@, addr@) + amount,
            r ==> forall|k: Seq<u8>|
                k != addr@ ==> lookup(final(self)@, k) == lookup(old(self)@, k),
            r ==> total(final(self)@) == total(old(self)@) + amount,
            !r ==> final(self)@ == old(self)@,
    {
        match self.index_of(addr) {
            Some(i) => {
                proof {
                    lemma_first_occurrence(self@, addr@, i as int);
                }
                let cur = self.entries[i].1;
                if amount > u64::MAX - cur {
                    proof {
                        assert(final(self)@ =~= old(self)@);
                    }
                    return false;
                }
                let ghost key = self@[i as int].0;
                self.entries[i].1 = cur + amount;
                proof {
                    assert(self@ =~= old(self)@.update(i as int, (key, (cur + amount) as u64)));
                    lemma_lookup_update(old(self)@, i as int, (cur + amount) as u64, addr@);
                    assert(forall|k: Seq<u8>| k != addr@ ==> lookup(self@, k) == lookup(
                        old(self)@,
                        k,
                    )) by {
                        assert forall|k: Seq<u8>| k != addr@ implies lookup(self@, k) == lookup(
                            old(self)@,
                            k,
                        ) by {
                            lemma_lookup_update(old(self)@, i as int, (cur + amount) as u64, k);
                        }
                    }
                    lemma_total_update(old(self)@, i as int, (cur + amount) as u64);
                }
                true
            },
            None => {
                let mut key: Vec<u8> = Vec::new();
                crate::bytes::push_all(&mut key, addr);
                proof {
                    assert(key@ =~= addr@);
                    lemma_lookup_skip(old(self)@, addr@, old(self)@.len() as int);
                    assert(old(self)@.skip(old(self)@.len() as int) =~= Seq::<(
                        Seq<u8>,
                        u64,
                    )>::empty());
                }
                self.entries.push((key, amount));
                proof {
                    assert(self@ =~= old(self)@.push((addr@, amount)));
                    lemma_lookup_push(old(self)@, (addr@, amount), addr@);
                    assert(forall|k: Seq<u8>| k != addr@ ==> lookup(self@, k) == lookup(
                        old(self)@,
                        k,
                    )) by {
                        assert forall|k: Seq<u8>| k != addr@ implies lookup(self@, k) == lookup(
                            old(self)@,
                            k,
                        ) by {
                            lemma_lookup_push(old(self)@, (addr@, amount), k);
                        }
                    }
                    lemma_total_push(old(self)@, (addr@, amount));
                }
                true
            },
        }
    }

    /// Take `amount` from the balance of `addr`. The caller must know the
    /// balance covers it; an absent address (balance 0) is left untouched,
    /// which can only arise when `amount` is 0.
    pub fn debit(&mut self, addr: &Vec<u8>, amount: u64)
        requires
            old(self).wf(),
            lookup(old(self)@, addr@) >= amount,
        ensures
            final(self).wf(),
            lookup(final(self)@, addr@) == lookup(old(self)@, addr@) - amount,
            forall|k: Seq<u8>| k != addr@ ==> lookup(final(self)@, k) == lookup(old(self)@, k),
            total(final(self)@) == total(old(self)@) - amount,
    {
        match self.index_of(addr) {
            Some(i) => {
                proof {
                    lemma_first_occurrence(self@, addr@, i as int);
                }
                let cur = self.entries[i].1;
                let ghost key = self@[i as int].0;
                self.entries[i].1 = cur - amount;
                proof {
                    assert(self@ =~= old(self)@.update(i as int, (key, (cur - amount) as u64)));
                    lemma_lookup_update(old(self)@, i as int, (cur - amount) as u64, addr@);
                    assert(forall|k: Seq<u8>| k != addr@ ==> lookup(self@, k) == lookup(
                        old(self)@,
                        k,
                    )) by {
                        assert forall|k: Seq<u8>| k != addr@ implies lookup(self@, k) == lookup(
                            old(self)@,
                            k,
                        ) by {
                            lemma_lookup_update(old(self)@, i as int, (cur - amount) as u64, k);
                        }
                    }
                    lemma_total_update(old(self)@, i as int, (cur - amount) as u64);
                }
            },
            None => {
                proof {
                    lemma_lookup_skip(self@, addr@, self@.len() as int);
                    assert(self@.skip(self@.len() as int) =~= Seq::<(Seq<u8>, u64)>::empty());
                    assert(final(self)@ =~= old(self)@);
                }
            },
        }
    }

    /// Whether the keys are unique, as hydration from the store must check.
    pub fn is_wf(&self) -> (r: bool)
        ensures
            r == self.wf(),
    {
        let mut i: usize = 0;
        while i < self.entries.len()
            invariant
                i <= self@.len(),
                self@.len() == self.entries@.len(),
                forall|a: int, b: int| 0 <= a < b < i ==> self@[a].0 != self@[b].0,
            decreases self@.len() - i,
        {
            let mut j: usize = 0;
            while j < i
                invariant
                    j <= i < self@.len(),
                    self@.len() == self.entries@.len(),
                    forall|b: int| 0 <= b < j ==> self@[b].0 != self@[i as int].0,
                decreases i - j,
            {
                if bytes_eq(&self.entries[j].0, &self.entries[i].0) {
                    proof {
                        assert(self@[j as int].0 == self@[i as int].0);
                        assert(!keys_distinct(self@));
                    }
                    return false;
                }
                j += 1;
            }
            i += 1;
        }
        true
    }
}

/// If `addr` first occurs at position `i`, the recorded balance is the one
/// stored there.
proof fn lemma_first_occurrence(s: Seq<(Seq<u8>, u64)>, k: Seq<u8>, i: int)
    requires
        0 <= i < s.len(),
        s[i].0 == k,
        forall|j: int| 0 <= j < i ==> s[j].0 != k,
    ensures
        lookup(s, k) == s[i].1,
    decreases i,
{
    if i > 0 {
        lemma_first_occurrence(s.drop_first(), k, i - 1);
    }
}

} // verus!
