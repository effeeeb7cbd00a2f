//! Persistent-map models: small association-list maps with mathematical
//! `Map` views. One holds account balances, one the expiration index
//! (second -> reservation ids), one the reservations of each account.

use vstd::prelude::*;

use crate::account::AccountId;
use crate::errors::Error;

verus! {

/// The balance of `a` in `m`: an absent account holds nothing.
pub open spec fn bal_of(m: Map<AccountId, u128>, a: AccountId) -> u128 {
    if m.contains_key(a) {
        m[a]
    } else {
        0
    }
}

/// What a transfer does to the balances: it moves `amount` from `from` to
/// `to` and fails, changing nothing, if `from` cannot cover it or the
/// receiving balance would not fit.
pub open spec fn spec_transfer(
    m: Map<AccountId, u128>,
    from: AccountId,
    to: AccountId,
    amount: u128,
) -> (Map<AccountId, u128>, Result<(), Error>) {
    if bal_of(m, from) < amount {
        (m, Err(Error::CantMakeTransfer))
    } else if from == to {
        (m, Ok(()))
    } else if bal_of(m, to) + amount > u128::MAX {
        (m, Err(Error::CantMakeTransfer))
    } else {
        (
            m.insert(from, (bal_of(m, from) - amount) as u128).insert(
                to,
                (bal_of(m, to) + amount) as u128,
            ),
            Ok(()),
        )
    }
}

/// Account balances, as a list of pairs with distinct keys.
pub struct Ledger {
    entries: Vec<(AccountId, u128)>,
}

impl Ledger {
    spec fn entries_map(s: Seq<(AccountId, u128)>) -> Map<AccountId, u128>
        decreases s.len(),
    {
        if s.len() == 0 {
            Map::empty()
        } else {
            Self::entries_map(s.drop_last()).insert(s.last().0, s.last().1)
        }
    }

    spec fn distinct(s: Seq<(AccountId, u128)>) -> bool {
        forall|i: int, j: int| 0 <= i < j < s.len() ==> s[i].0 != s[j].0
    }

    /// The keys of the underlying list are distinct.
    pub closed spec fn wf(&self) -> bool {
        Self::distinct(self.entries@)
    }

    pub closed spec fn view(&self) -> Map<AccountId, u128> {
        Self::entries_map(self.entries@)
    }

    proof fn lemma_at(s: Seq<(AccountId, u128)>, i: int)
        requires
            Self::distinct(s),
            0 <= i < s.len(),
        ensures
            Self::entries_map(s).contains_key(s[i].0),
            Self::entries_map(s)[s[i].0] == s[i].1,
        decreases s.len(),
    {
        if i < s.len() - 1 {
            Self::lemma_at(s.drop_last(), i);
        }
    }

    proof fn lemma_absent(s: Seq<(AccountId, u128)>, k: AccountId)
        requires
            forall|i: int| 0 <= i < s.len() ==> s[i].0 != k,
        ensures
            !Self::entries_map(s).contains_key(k),
        decreases s.len(),
    {
        if s.len() > 0 {
            Self::lemma_absent(s.drop_last(), k);
        }
    }

    proof fn lemma_update(s: Seq<(AccountId, u128)>, i: int, v: u128)
        requires
            Self::distinct(s),
            0 <= i < s.len(),
        ensures
            Self::entries_map(s.update(i, (s[i].0, v))) =~= Self::entries_map(s).insert(s[i].0, v),
        decreases s.len(),
    {
        let t = s.update(i, (s[i].0, v));
        if i == s.len() - 1 {
            assert(t.drop_last() =~= s.drop_last());
        } else {
            assert(t.drop_last() =~= s.drop_last().update(i, (s[i].0, v)));
            Self::lemma_update(s.drop_last(), i, v);
        }
    }

    /// An empty ledger.
    pub fn new() -> (r: Ledger)
        ensures
            r.wf(),
            r@ == Map::<AccountId, u128>::empty(),
    {
        Ledger { entries: Vec::new() }
    }

    /// The balance of an account; an account never seen holds nothing.
    pub fn balance_of(&self, a: AccountId) -> (r: u128)
        requires
            self.wf(),
        ensures
            r == bal_of(self@, a),
    {
        let n = self.entries.len();
        let mut i: usize = 0;
        while i < n
            invariant
                n == self.entries@.len(),
                0 <= i <= n,
                Self::distinct(self.entries@),
                self@ == Self::entries_map(self.entries@),
                forall|j: int| 0 <= j < i ==> self.entries@[j].0 != a,
            decreases n - i,
        {
            if self.entries[i].0 == a {
                proof {
                    Self::lemma_at(self.entries@, i as int);
                }
                return self.entries[i].1;
            }
            i = i + 1;
        }
        proof {
            Self::lemma_absent(self.entries@, a);
        }
        0
    }

    /// Sets the balance of an account outright.
    pub fn set_balance(&mut self, a: AccountId, v: u128)
        requires
            old(self).wf(),
        ensures
            final(self).wf(),
            final(self)@ == old(self)@.insert(a, v),
    {
        let n = self.entries.len();
        let mut i: usize = 0;
        while i < n
            invariant
                n == self.entries@.len(),
                0 <= i <= n,
                Self::distinct(self.entries@),
                self.entries@ == old(self).entries@,
                forall|j: int| 0 <= j < i ==> self.entries@[j].0 != a,
            decreases n - i,
        {
            if self.entries[i].0 == a {
                proof {
                    Self::lemma_update(self.entries@, i as int, v);
                }
                self.entries.set(i, (a, v));
                proof {
                    assert(self.entries@ =~= old(self).entries@.update(i as int, (a, v)));
                    assert forall|p: int, q: int|
                        0 <= p < q < self.entries@.len() implies self.entries@[p].0
                        != self.entries@[q].0 by {
                        assert(old(self).entries@[p].0 != old(self).entries@[q].0);
                    }
                }
                return ;
            }
            i = i + 1;
        }
        proof {
            Self::lemma_absent(self.entries@, a);
        }
        self.entries.push((a, v));
        proof {
            assert(self.entries@.drop_last() =~= old(self).entries@);
            assert forall|p: int, q: int|
                0 <= p < q < self.entries@.len() implies self.entries@[p].0
                != self.entries@[q].0 by {
                if q < self.entries@.len() - 1 {
                    assert(old(self).entries@[p].0 != old(self).entries@[q].0);
                }
            }
        }
    }

    /// Moves `amount` from one account to another, or fails without any
    /// change if the source cannot cover it or the target cannot hold it.
    pub fn transfer(&mut self, from: AccountId, to: AccountId, amount: u128) -> (r: Result<
        (),
        Error,
    >)
        requires
            old(self).wf(),
        ensures
            final(self).wf(),
            (final(self)@, r) == spec_transfer(old(self)@, from, to, amount),
    {
        let src = self.balance_of(from);
        if src < amount {
            return Err(Error::CantMakeTransfer);
        }
        if from == to {
            return Ok(());
        }
        let dst = self.balance_of(to);
        if dst > u128::MAX - amount {
            return Err(Error::CantMakeTransfer);
        }
        self.set_balance(from, src - amount);
        self.set_balance(to, dst + amount);
        proof {
            assert(bal_of(old(self)@, to) == dst);
        }
        Ok(())
    }
}

/// The ids listed under second `t`; an absent second lists none.
pub open spec fn spec_bucket(m: Map<u64, Seq<u64>>, t: u64) -> Seq<u64> {
    if m.contains_key(t) {
        m[t]
    } else {
        Seq::empty()
    }
}

/// `s` with the first occurrence of `id` taken out, if any.
pub open spec fn remove_first(s: Seq<u64>, id: u64) -> Seq<u64>
    decreases s.len(),
{
    if s.len() == 0 {
        s
    } else if s[0] == id {
        s.drop_first()
    } else {
        seq![s[0]] + remove_first(s.drop_first(), id)
    }
}

/// Taking the first occurrence out of a sequence whose first occurrence
/// stands at `j` is the same as removing index `j`.
pub proof fn lemma_remove_first_at(s: Seq<u64>, id: u64, j: int)
    requires
        0 <= j < s.len(),
        s[j] == id,
        forall|k: int| 0 <= k < j ==> s[k] != id,
    ensures
        remove_first(s, id) =~= s.remove(j),
    decreases j,
{
    if j == 0 {
        assert(s.drop_first() =~= s.remove(0));
    } else {
        lemma_remove_first_at(s.drop_first(), id, j - 1);
        assert(seq![s[0]] + s.drop_first().remove(j - 1) =~= s.remove(j));
    }
}

/// Taking a missing id out changes nothing.
pub proof fn lemma_remove_first_absent(s: Seq<u64>, id: u64)
    requires
        forall|k: int| 0 <= k < s.len() ==> s[k] != id,
    ensures
        remove_first(s, id) =~= s,
    decreases s.len(),
{
    if s.len() > 0 {
        lemma_remove_first_absent(s.drop_first(), id);
        assert(seq![s[0]] + s.drop_first() =~= s);
    }
}

/// Copies a list of reservation ids.
fn copy_ids(v: &Vec<u64>) -> (r: Vec<u64>)
    ensures
        r@ == v@,
{
    let mut r: Vec<u64> = Vec::new();
    let n = v.len();
    let mut i: usize = 0;
    while i < n
        invariant
            n == v@.len(),
            0 <= i <= n,
            r@ == v@.take(i as int),
        decreases n - i,
    {
        r.push(v[i]);
        proof {
            assert(r@ =~= v@.take(i + 1));
        }
        i = i + 1;
    }
    proof {
        assert(v@.take(n as int) =~= v@);
    }
    r
}

/// The expiration index: for each unix second, the reservations expiring
/// then, as a list of pairs with distinct seconds.
pub struct TimeIndex {
    entries: Vec<(u64, Vec<u64>)>,
}

impl TimeIndex {
    spec fn entries_map(s: Seq<(u64, Vec<u64>)>) -> Map<u64, Seq<u64>>
        decreases s.len(),
    {
        if s.len() == 0 {
            Map::empty()
        } else {
            Self::entries_map(s.drop_last()).insert(s.last().0, s.last().1@)
        }
    }

    spec fn distinct(s: Seq<(u64, Vec<u64>)>) -> bool {
        forall|i: int, j: int| 0 <= i < j < s.len() ==> s[i].0 != s[j].0
    }

    /// The seconds of the underlying list are distinct.
    pub closed spec fn wf(&self) -> bool {
        Self::distinct(self.entries@)
    }

    pub closed spec fn view(&self) -> Map<u64, Seq<u64>> {
        Self::entries_map(self.entries@)
    }

    proof fn lemma_at(s: Seq<(u64, Vec<u64>)>, i: int)
        requires
            Self::distinct(s),
            0 <= i < s.len(),
        ensures
            Self::entries_map(s).contains_key(s[i].0),
            Self::entries_map(s)[s[i].0] == s[i].1@,
        decreases s.len(),
    {
        if i < s.len() - 1 {
            Self::lemma_at(s.drop_last(), i);
        }
    }

    proof fn lemma_absent(s: Seq<(u64, Vec<u64>)>, k: u64)
        requires
            forall|i: int| 0 <= i < s.len() ==> s[i].0 != k,
        ensures
            !Self::entries_map(s).contains_key(k),
        decreases s.len(),
    {
        if s.len() > 0 {
            Self::lemma_absent(s.drop_last(), k);
        }
    }

    proof fn lemma_update(s: Seq<(u64, Vec<u64>)>, i: int, v: Vec<u64>)
        requires
            Self::distinct(s),
            0 <= i < s.len(),
        ensures
            Self::entries_map(s.update(i, (s[i].0, v))) =~= Self::entries_map(s).insert(
                s[i].0,
                v@,
            ),
        decreases s.len(),
    {
        let t = s.update(i, (s[i].0, v));
        if i == s.len() - 1 {
            assert(t.drop_last() =~= s.drop_last());
        } else {
            assert(t.drop_last() =~= s.drop_last().update(i, (s[i].0, v)));
            Self::lemma_update(s.drop_last(), i, v);
        }
    }

    /// An empty index.
    pub fn new() -> (r: TimeIndex)
        ensures
            r.wf(),
            r@ == Map::<u64, Seq<u64>>::empty(),
    {
        TimeIndex { entries: Vec::new() }
    }

    /// A snapshot of the ids expiring at second `t`.
    pub fn bucket(&self, t: u64) -> (r: Vec<u64>)
        requires
            self.wf(),
        ensures
            r@ == spec_bucket(self@, t),
    {
        let n = self.entries.len();
        let mut i: usize = 0;
        while i < n
            invariant
                n == self.entries@.len(),
                0 <= i <= n,
                Self::distinct(self.entries@),
                self@ == Self::entries_map(self.entries@),
                forall|j: int| 0 <= j < i ==> self.entries@[j].0 != t,
            decreases n - i,
        {
            if self.entries[i].0 == t {
                proof {
                    Self::lemma_at(self.entries@, i as int);
                }
                return copy_ids(&self.entries[i].1);
            }
            i = i + 1;
        }
        proof {
            Self::lemma_absent(self.entries@, t);
            assert(Seq::<u64>::empty() =~= spec_bucket(self@, t));
        }
        Vec::new()
    }

    /// Appends a reservation id to the bucket of second `t`.
    pub fn push_id(&mut self, t: u64, id: u64)
        requires
            old(self).wf(),
        ensures
            final(self).wf(),
            final(self)@ == old(self)@.insert(t, spec_bucket(old(self)@, t).push(id)),
    {
        let n = self.entries.len();
        let mut i: usize = 0;
        while i < n
            invariant
                n == self.entries@.len(),
                0 <= i <= n,
                Self::distinct(self.entries@),
                self.entries@ == old(self).entries@,
                forall|j: int| 0 <= j < i ==> self.entries@[j].0 != t,
            decreases n - i,
        {
            if self.entries[i].0 == t {
                proof {
                    Self::lemma_at(self.entries@, i as int);
                }
                let mut b = copy_ids(&self.entries[i].1);
                b.push(id);
                proof {
                    Self::lemma_update(self.entries@, i as int, b);
                }
                self.entries.set(i, (t, b));
                proof {
                    assert forall|p: int, q: int|
                        0 <= p < q < self.entries@.len() implies self.entries@[p].0
                        != self.entries@[q].0 by {
                        assert(old(self).entries@[p].0 != old(self).entries@[q].0);
                    }
                }
                return ;
            }
            i = i + 1;
        }
        proof {
            Self::lemma_absent(self.entries@, t);
        }
        let mut b: Vec<u64> = Vec::new();
        b.push(id);
        self.entries.push((t, b));
        proof {
            assert(self.entries@.drop_last() =~= old(self).entries@);
            assert(b@ =~= spec_bucket(old(self)@, t).push(id));
            assert forall|p: int, q: int|
                0 <= p < q < self.entries@.len() implies self.entries@[p].0
                != self.entries@[q].0 by {
                if q < self.entries@.len() - 1 {
                    assert(old(self).entries@[p].0 != old(self).entries@[q].0);
                }
            }
        }
    }

    /// Takes the first occurrence of `id` out of the bucket of second `t`;
    /// an absent bucket or a missing id leaves the index as it was.
    pub fn remove_id(&mut self, t: u64, id: u64)
        requires
            old(self).wf(),
        ensures
            final(self).wf(),
            final(self)@ == (if old(self)@.contains_key(t) {
                old(self)@.insert(t, remove_first(old(self)@[t], id))
            } else {
                old(self)@
            }),
    {
        let n = self.entries.len();
        let mut i: usize = 0;
        while i < n
            invariant
                n == self.entries@.len(),
                0 <= i <= n,
                Self::distinct(self.entries@),
                self.entries@ == old(self).entries@,
                forall|j: int| 0 <= j < i ==> self.entries@[j].0 != t,
            decreases n - i,
        {
            if self.entries[i].0 == t {
                proof {
                    Self::lemma_at(self.entries@, i as int);
                }
                let mut b = copy_ids(&self.entries[i].1);
                let m = b.len();
                let mut j: usize = 0;
                while j < m
                    invariant
                        m == b@.len(),
                        0 <= j <= m,
                        i < n == self.entries@.len(),
                        Self::distinct(self.entries@),
                        self.entries@ == old(self).entries@,
                        self.entries@[i as int].0 == t,
                        b@ == self.entries@[i as int].1@,
                        forall|k: int| 0 <= k < j ==> b@[k] != id,
                    decreases m - j,
                {
                    if b[j] == id {
                        proof {
                            lemma_remove_first_at(b@, id, j as int);
                        }
                        b.remove(j);
                        proof {
                            Self::lemma_at(self.entries@, i as int);
                            Self::lemma_update(self.entries@, i as int, b);
                        }
                        self.entries.set(i, (t, b));
                        proof {
                            assert forall|p: int, q: int|
                                0 <= p < q < self.entries@.len() implies self.entries@[p].0
                                != self.entries@[q].0 by {
                                assert(old(self).entries@[p].0 != old(self).entries@[q].0);
                            }
                        }
                        return ;
                    }
                    j = j + 1;
                }
                proof {
                    Self::lemma_at(self.entries@, i as int);
                    lemma_remove_first_absent(b@, id);
                    assert(old(self)@.insert(t, remove_first(old(self)@[t], id)) =~= old(self)@);
                }
                return ;
            }
            i = i + 1;
        }
        proof {
            Self::lemma_absent(self.entries@, t);
        }
    }
}

/// The reservations created by each account, as a list of pairs with
/// distinct accounts.
pub struct AccountIndex {
    entries: Vec<(AccountId, Vec<u64>)>,
}

/// The reservations listed for account `a`; an absent account lists none.
pub open spec fn spec_reservations(m: Map<AccountId, Seq<u64>>, a: AccountId) -> Seq<u64> {
    if m.contains_key(a) {
        m[a]
    } else {
        Seq::empty()
    }
}

impl AccountIndex {
    spec fn entries_map(s: Seq<(AccountId, Vec<u64>)>) -> Map<AccountId, Seq<u64>>
        decreases s.len(),
    {
        if s.len() == 0 {
            Map::empty()
        } else {
            Self::entries_map(s.drop_last()).insert(s.last().0, s.last().1@)
        }
    }

    spec fn distinct(s: Seq<(AccountId, Vec<u64>)>) -> bool {
        forall|i: int, j: int| 0 <= i < j < s.len() ==> s[i].0 != s[j].0
    }

    /// The accounts of the underlying list are distinct.
    pub closed spec fn wf(&self) -> bool {
        Self::distinct(self.entries@)
    }

    pub closed spec fn view(&self) -> Map<AccountId, Seq<u64>> {
        Self::entries_map(self.entries@)
    }

    proof fn lemma_at(s: Seq<(AccountId, Vec<u64>)>, i: int)
        requires
            Self::distinct(s),
            0 <= i < s.len(),
        ensures
            Self::entries_map(s).contains_key(s[i].0),
            Self::entries_map(s)[s[i].0] == s[i].1@,
        decreases s.len(),
    {
        if i < s.len() - 1 {
            Self::lemma_at(s.drop_last(), i);
        }
    }

    proof fn lemma_absent(s: Seq<(AccountId, Vec<u64>)>, k: AccountId)
        requires
            forall|i: int| 0 <= i < s.len() ==> s[i].0 != k,
        ensures
            !Self::entries_map(s).contains_key(k),
        decreases s.len(),
    {
        if s.len() > 0 {
            Self::lemma_absent(s.drop_last(), k);
        }
    }

    proof fn lemma_update(s: Seq<(AccountId, Vec<u64>)>, i: int, v: Vec<u64>)
        requires
            Self::distinct(s),
            0 <= i < s.len(),
        ensures
            Self::entries_map(s.update(i, (s[i].0, v))) =~= Self::entries_map(s).insert(
                s[i].0,
                v@,
            ),
        decreases s.len(),
    {
        let t = s.update(i, (s[i].0, v));
        if i == s.len() - 1 {
            assert(t.drop_last() =~= s.drop_last());
        } else {
            assert(t.drop_last() =~= s.drop_last().update(i, (s[i].0, v)));
            Self::lemma_update(s.drop_last(), i, v);
        }
    }

    /// An empty index.
    pub fn new() -> (r: AccountIndex)
        ensures
            r.wf(),
            r@ == Map::<AccountId, Seq<u64>>::empty(),
    {
        AccountIndex { entries: Vec::new() }
    }

    /// A snapshot of the reservations of account `a`.
    pub fn reservations(&self, a: AccountId) -> (r: Vec<u64>)
        requires
            self.wf(),
        ensures
            r@ == spec_reservations(self@, a),
    {
        let n = self.entries.len();
        let mut i: usize = 0;
        while i < n
            invariant
                n == self.entries@.len(),
                0 <= i <= n,
                Self::distinct(self.entries@),
                self@ == Self::entries_map(self.entries@),
                forall|j: int| 0 <= j < i ==> self.entries@[j].0 != a,
            decreases n - i,
        {
            if self.entries[i].0 == a {
                proof {
                    Self::lemma_at(self.entries@, i as int);
                }
                return copy_ids(&self.entries[i].1);
            }
            i = i + 1;
        }
        proof {
            Self::lemma_absent(self.entries@, a);
            assert(Seq::<u64>::empty() =~= spec_reservations(self@, a));
        }
        Vec::new()
    }

    /// Appends a reservation id to the list of account `a`.
    pub fn push_id(&mut self, a: AccountId, id: u64)
        requires
            old(self).wf(),
        ensures
            final(self).wf(),
            final(self)@ == old(self)@.insert(a, spec_reservations(old(self)@, a).push(id)),
    {
        let n = self.entries.len();
        let mut i: usize = 0;
        while i < n
            invariant
                n == self.entries@.len(),
                0 <= i <= n,
                Self::distinct(self.entries@),
                self.entries@ == old(self).entries@,
                forall|j: int| 0 <= j < i ==> self.entries@[j].0 != a,
            decreases n - i,
        {
            if self.entries[i].0 == a {
                proof {
                    Self::lemma_at(self.entries@, i as int);
                }
                let mut b = copy_ids(&self.entries[i].1);
                b.push(id);
                proof {
                    Self::lemma_update(self.entries@, i as int, b);
                }
                self.entries.set(i, (a, b));
                proof {
                    assert forall|p: int, q: int|
                        0 <= p < q < self.entries@.len() implies self.entries@[p].0
                        != self.entries@[q].0 by {
                        assert(old(self).entries@[p].0 != old(self).entries@[q].0);
                    }
                }
                return ;
            }
            i = i + 1;
        }
        proof {
            Self::lemma_absent(self.entries@, a);
        }
        let mut b: Vec<u64> = Vec::new();
        b.push(id);
        self.entries.push((a, b));
        proof {
            assert(self.entries@.drop_last() =~= old(self).entries@);
            assert(b@ =~= spec_reservations(old(self)@, a).push(id));
            assert forall|p: int, q: int|
                0 <= p < q < self.entries@.len() implies self.entries@[p].0
                != self.entries@[q].0 by {
                if q < self.entries@.len() - 1 {
                    assert(old(self).entries@[p].0 != old(self).entries@[q].0);
                }
            }
        }
    }
}

} // verus!
