use vstd::prelude::*;
use crate::errors::CustomError;
use crate::errors::PawnError;
use crate::errors::TransferError;
use crate::fee::calc_fee;
use crate::fee::spec_fee;
use crate::model::Balance;
use crate::model::Config;
use crate::model::EMPTY_IDENTITY;
use crate::model::Loan;
use crate::model::LoanKey;
use crate::model::NftSlot;
use crate::model::Scope;
use crate::escrow::Escrow;

verus! {

/// The fee rate, in basis points, fixed at pool setup.
pub const DEFAULT_BPS_FEE: u64 = 30;

// ---------------------------------------------------------------------------
// The mathematical model of the three keyed stores.
//
// Each store is a sequence of records with a key; a lookup walks the
// sequence from its end, so the record found is the latest one written.
// The stores keep their keys distinct, so there is never more than one.
// ---------------------------------------------------------------------------

/// The balance recorded for `scope`, if any account exists for it.
pub open spec fn bal_lookup(s: Seq<Balance>, scope: Scope) -> Option<u64>
    decreases s.len(),
{
    if s.len() == 0 {
        None
    } else if s.last().scope == scope {
        Some(s.last().amount)
    } else {
        bal_lookup(s.drop_last(), scope)
    }
}

/// The scope holding the asset `mint`, if that asset exists.
pub open spec fn nft_lookup(s: Seq<NftSlot>, mint: u64) -> Option<Scope>
    decreases s.len(),
{
    if s.len() == 0 {
        None
    } else if s.last().mint == mint {
        Some(s.last().holder)
    } else {
        nft_lookup(s.drop_last(), mint)
    }
}

/// The loan record stored under `key`, if one exists.
pub open spec fn loan_lookup(s: Seq<Loan>, key: LoanKey) -> Option<Loan>
    decreases s.len(),
{
    if s.len() == 0 {
        None
    } else if s.last().key() == key {
        Some(s.last())
    } else {
        loan_lookup(s.drop_last(), key)
    }
}

/// No two currency accounts share a scope.
pub open spec fn bal_distinct(s: Seq<Balance>) -> bool {
    forall|i: int, j: int| 0 <= i < j < s.len() ==> s[i].scope != s[j].scope
}

/// No two asset slots share a mint.
pub open spec fn nft_distinct(s: Seq<NftSlot>) -> bool {
    forall|i: int, j: int| 0 <= i < j < s.len() ==> s[i].mint != s[j].mint
}

/// No two loan records share a (borrower, collateral) key.
pub open spec fn loans_distinct(s: Seq<Loan>) -> bool {
    forall|i: int, j: int| 0 <= i < j < s.len() ==> s[i].key() != s[j].key()
}

// ---------------------------------------------------------------------------
// Lemmas relating lookups to indices, updates and pushes.
// ---------------------------------------------------------------------------

proof fn lemma_bal_lookup_at(s: Seq<Balance>, i: int)
    requires
        0 <= i < s.len(),
        forall|j: int| i < j < s.len() ==> s[j].scope != s[i].scope,
    ensures
        bal_lookup(s, s[i].scope) == Some(s[i].amount),
    decreases s.len(),
{
    if i < s.len() - 1 {
        lemma_bal_lookup_at(s.drop_last(), i);
    }
}

proof fn lemma_bal_lookup_none(s: Seq<Balance>, scope: Scope)
    requires
        forall|j: int| 0 <= j < s.len() ==> s[j].scope != scope,
    ensures
        bal_lookup(s, scope) == None::<u64>,
    decreases s.len(),
{
    if s.len() > 0 {
        lemma_bal_lookup_none(s.drop_last(), scope);
    }
}

proof fn lemma_bal_lookup_update(s: Seq<Balance>, i: int, b: Balance)
    requires
        0 <= i < s.len(),
        s[i].scope == b.scope,
        forall|j: int| i < j < s.len() ==> s[j].scope != b.scope,
    ensures
        bal_lookup(s.update(i, b), b.scope) == Some(b.amount),
        forall|s2: Scope|
            s2 != b.scope ==> bal_lookup(s.update(i, b), s2) == bal_lookup(s, s2),
    decreases s.len(),
{
    let t = s.update(i, b);
    assert(t.last() == if i == s.len() - 1 { b } else { s.last() });
    if i == s.len() - 1 {
        assert(t.drop_last() =~= s.drop_last());
    } else {
        assert(t.drop_last() =~= s.drop_last().update(i, b));
        lemma_bal_lookup_update(s.drop_last(), i, b);
    }
    assert forall|s2: Scope| s2 != b.scope implies bal_lookup(t, s2) == bal_lookup(s, s2) by {
        if i == s.len() - 1 {
            assert(bal_lookup(t, s2) == bal_lookup(t.drop_last(), s2));
            assert(bal_lookup(s, s2) == bal_lookup(s.drop_last(), s2));
        } else if s.last().scope != s2 {
            assert(bal_lookup(t, s2) == bal_lookup(t.drop_last(), s2));
            assert(bal_lookup(s, s2) == bal_lookup(s.drop_last(), s2));
        }
    }
}

proof fn lemma_bal_lookup_push(s: Seq<Balance>, b: Balance)
    ensures
        bal_lookup(s.push(b), b.scope) == Some(b.amount),
        forall|s2: Scope| s2 != b.scope ==> bal_lookup(s.push(b), s2) == bal_lookup(s, s2),
{
    assert(s.push(b).drop_last() =~= s);
    assert(s.push(b).last() == b);
}

proof fn lemma_nft_lookup_at(s: Seq<NftSlot>, i: int)
    requires
        0 <= i < s.len(),
        forall|j: int| i < j < s.len() ==> s[j].mint != s[i].mint,
    ensures
        nft_lookup(s, s[i].mint) == Some(s[i].holder),
    decreases s.len(),
{
    if i < s.len() - 1 {
        lemma_nft_lookup_at(s.drop_last(), i);
    }
}

proof fn lemma_nft_lookup_none(s: Seq<NftSlot>, mint: u64)
    requires
        forall|j: int| 0 <= j < s.len() ==> s[j].mint != mint,
    ensures
        nft_lookup(s, mint) == None::<Scope>,
    decreases s.len(),
{
    if s.len() > 0 {
        lemma_nft_lookup_none(s.drop_last(), mint);
    }
}

proof fn lemma_nft_lookup_update(s: Seq<NftSlot>, i: int, n: NftSlot)
    requires
        0 <= i < s.len(),
        s[i].mint == n.mint,
        forall|j: int| i < j < s.len() ==> s[j].mint != n.mint,
    ensures
        nft_lookup(s.update(i, n), n.mint) == Some(n.holder),
        forall|m2: u64| m2 != n.mint ==> nft_lookup(s.update(i, n), m2) == nft_lookup(s, m2),
    decreases s.len(),
{
    let t = s.update(i, n);
    assert(t.last() == if i == s.len() - 1 { n } else { s.last() });
    if i == s.len() - 1 {
        assert(t.drop_last() =~= s.drop_last());
    } else {
        assert(t.drop_last() =~= s.drop_last().update(i, n));
        lemma_nft_lookup_update(s.drop_last(), i, n);
    }
    assert forall|m2: u64| m2 != n.mint implies nft_lookup(t, m2) == nft_lookup(s, m2) by {
        if i == s.len() - 1 {
            assert(nft_lookup(t, m2) == nft_lookup(t.drop_last(), m2));
            assert(nft_lookup(s, m2) == nft_lookup(s.drop_last(), m2));
        } else if s.last().mint != m2 {
            assert(nft_lookup(t, m2) == nft_lookup(t.drop_last(), m2));
            assert(nft_lookup(s, m2) == nft_lookup(s.drop_last(), m2));
        }
    }
}

proof fn lemma_nft_lookup_push(s: Seq<NftSlot>, n: NftSlot)
    ensures
        nft_lookup(s.push(n), n.mint) == Some(n.holder),
        forall|m2: u64| m2 != n.mint ==> nft_lookup(s.push(n), m2) == nft_lookup(s, m2),
{
    assert(s.push(n).drop_last() =~= s);
    assert(s.push(n).last() == n);
}

proof fn lemma_loan_lookup_at(s: Seq<Loan>, i: int)
    requires
        0 <= i < s.len(),
        forall|j: int| i < j < s.len() ==> s[j].key() != s[i].key(),
    ensures
        loan_lookup(s, s[i].key()) == Some(s[i]),
    decreases s.len(),
{
    if i < s.len() - 1 {
        lemma_loan_lookup_at(s.drop_last(), i);
    }
}

proof fn lemma_loan_lookup_none(s: Seq<Loan>, key: LoanKey)
    requires
        forall|j: int| 0 <= j < s.len() ==> s[j].key() != key,
    ensures
        loan_lookup(s, key) == None::<Loan>,
    decreases s.len(),
{
    if s.len() > 0 {
        lemma_loan_lookup_none(s.drop_last(), key);
    }
}

proof fn lemma_loan_lookup_update(s: Seq<Loan>, i: int, l: Loan)
    requires
        0 <= i < s.len(),
        s[i].key() == l.key(),
        forall|j: int| i < j < s.len() ==> s[j].key() != l.key(),
    ensures
        loan_lookup(s.update(i, l), l.key()) == Some(l),
        forall|k2: LoanKey| k2 != l.key() ==> loan_lookup(s.update(i, l), k2) == loan_lookup(s, k2),
    decreases s.len(),
{
    let t = s.update(i, l);
    assert(t.last() == if i == s.len() - 1 { l } else { s.last() });
    if i == s.len() - 1 {
        assert(t.drop_last() =~= s.drop_last());
    } else {
        assert(t.drop_last() =~= s.drop_last().update(i, l));
        lemma_loan_lookup_update(s.drop_last(), i, l);
    }
    assert forall|k2: LoanKey| k2 != l.key() implies loan_lookup(t, k2) == loan_lookup(s, k2) by {
        if i == s.len() - 1 {
            assert(loan_lookup(t, k2) == loan_lookup(t.drop_last(), k2));
            assert(loan_lookup(s, k2) == loan_lookup(s.drop_last(), k2));
        } else if s.last().key() != k2 {
            assert(loan_lookup(t, k2) == loan_lookup(t.drop_last(), k2));
            assert(loan_lookup(s, k2) == loan_lookup(s.drop_last(), k2));
        }
    }
}

proof fn lemma_loan_lookup_push(s: Seq<Loan>, l: Loan)
    ensures
        loan_lookup(s.push(l), l.key()) == Some(l),
        forall|k2: LoanKey| k2 != l.key() ==> loan_lookup(s.push(l), k2) == loan_lookup(s, k2),
{
    assert(s.push(l).drop_last() =~= s);
    assert(s.push(l).last() == l);
}

// ---------------------------------------------------------------------------
// The vault: pool configuration, loan records and the asset ledger.
// ---------------------------------------------------------------------------

/// Whether two vault states are observably identical: same configuration,
/// same loan records, same currency balances, same asset holders.  A failed
/// operation leaves the vault in the same state it found, and this is the
/// statement of that rollback.
pub open spec fn same_state(a: Vault, b: Vault) -> bool {
    &&& b.spec_config() == a.spec_config()
    &&& b.spec_loans() == a.spec_loans()
    &&& forall|s2: Scope| b.spec_balance(s2) == a.spec_balance(s2)
    &&& forall|m2: u64| b.spec_nft_holder(m2) == a.spec_nft_holder(m2)
}

/// The persistent program state.  Its fields are only written through the
/// lifecycle operations; in particular no caller can move an escrowed asset
/// without the custody authority of the loan it belongs to.
pub struct Vault {
    config: Config,
    loans: Vec<Loan>,
    balances: Vec<Balance>,
    nfts: Vec<NftSlot>,
}

impl Vault {
    /// The pool configuration.
    pub closed spec fn spec_config(self) -> Config {
        self.config
    }

    /// All loan records, in order of first deposit.
    pub closed spec fn spec_loans(self) -> Seq<Loan> {
        self.loans@
    }

    /// The loan record stored for `key`, if any.
    pub open spec fn spec_loan(self, key: LoanKey) -> Option<Loan> {
        loan_lookup(self.spec_loans(), key)
    }

    /// Whether an active loan is recorded for `key`.
    pub open spec fn spec_loan_active(self, key: LoanKey) -> bool {
        match self.spec_loan(key) {
            Some(l) => l.active,
            None => false,
        }
    }

    /// The currency balance held by `scope`; a scope with no account holds 0.
    pub closed spec fn spec_balance(self, scope: Scope) -> u64 {
        match bal_lookup(self.balances@, scope) {
            Some(a) => a,
            None => 0,
        }
    }

    /// The scope holding the asset `mint`, if that asset exists.
    pub closed spec fn spec_nft_holder(self, mint: u64) -> Option<Scope> {
        nft_lookup(self.nfts@, mint)
    }

    /// Well-formedness: the invariants every reachable vault satisfies.
    ///
    /// - every store keeps its keys distinct, so each (borrower, collateral)
    ///   pair has at most one loan record, each scope one currency account,
    ///   each asset one holder;
    /// - every loan record names a non-empty borrower;
    /// - the collateral of every active loan is held by that loan's own
    ///   escrow scope.
    pub closed spec fn wf(self) -> bool {
        &&& loans_distinct(self.loans@)
        &&& bal_distinct(self.balances@)
        &&& nft_distinct(self.nfts@)
        &&& forall|i: int|
            0 <= i < self.loans@.len() ==> self.loans@[i].borrower != EMPTY_IDENTITY
        &&& forall|i: int|
            0 <= i < self.loans@.len() && self.loans@[i].active
                ==> nft_lookup(self.nfts@, self.loans@[i].nft_mint)
                    == Some(Scope::LoanEscrow(self.loans@[i].key()))
    }

    // -----------------------------------------------------------------------
    // Finders: each walks its store from the end, so the index found agrees
    // with the lookup functions above.
    // -----------------------------------------------------------------------

    fn find_balance(&self, scope: Scope) -> (r: Option<usize>)
        ensures
            match r {
                Some(i) => {
                    &&& i < self.balances@.len()
                    &&& self.balances@[i as int].scope == scope
                    &&& forall|j: int|
                        i < j < self.balances@.len() ==> self.balances@[j].scope != scope
                },
                None => forall|j: int|
                    0 <= j < self.balances@.len() ==> self.balances@[j].scope != scope,
            },
    {
        let mut k: usize = self.balances.len();
        while k > 0
            invariant
                k <= self.balances@.len(),
                forall|j: int| k <= j < self.balances@.len() ==> self.balances@[j].scope != scope,
            decreases k,
        {
            k = k - 1;
            if self.balances[k].scope == scope {
                return Some(k);
            }
        }
        None
    }

    fn find_nft(&self, mint: u64) -> (r: Option<usize>)
        ensures
            match r {
                Some(i) => {
                    &&& i < self.nfts@.len()
                    &&& self.nfts@[i as int].mint == mint
                    &&& forall|j: int| i < j < self.nfts@.len() ==> self.nfts@[j].mint != mint
                },
                None => forall|j: int| 0 <= j < self.nfts@.len() ==> self.nfts@[j].mint != mint,
            },
    {
        let mut k: usize = self.nfts.len();
        while k > 0
            invariant
                k <= self.nfts@.len(),
                forall|j: int| k <= j < self.nfts@.len() ==> self.nfts@[j].mint != mint,
            decreases k,
        {
            k = k - 1;
            if self.nfts[k].mint == mint {
                return Some(k);
            }
        }
        None
    }

    // -----------------------------------------------------------------------
    // Writers: each rewrites the record under one key and leaves every other
    // key's record, and the other two stores, untouched.
    // -----------------------------------------------------------------------

    fn set_balance(&mut self, scope: Scope, amount: u64)
        requires
            bal_distinct(old(self).balances@),
        ensures
            final(self).config == old(self).config,
            final(self).loans@ == old(self).loans@,
            final(self).nfts@ == old(self).nfts@,
            bal_distinct(final(self).balances@),
            final(self).spec_balance(scope) == amount,
            forall|s2: Scope| s2 != scope ==> final(self).spec_balance(s2) == old(self).spec_balance(s2),
    {
        let entry = Balance { scope, amount };
        match self.find_balance(scope) {
            Some(i) => {
                proof {
                    lemma_bal_lookup_update(self.balances@, i as int, entry);
                }
                let ghost s = self.balances@;
                self.balances[i] = entry;
                proof {
                    let t = self.balances@;
                    assert forall|i2: int, j2: int|
                        0 <= i2 < j2 < t.len() implies t[i2].scope != t[j2].scope by {
                        assert(t[i2].scope == s[i2].scope);
                        assert(t[j2].scope == s[j2].scope);
                    }
                }
            }
            None => {
                proof {
                    lemma_bal_lookup_none(self.balances@, scope);
                    lemma_bal_lookup_push(self.balances@, entry);
                }
                let ghost s = self.balances@;
                self.balances.push(entry);
                proof {
                    let t = self.balances@;
                    assert forall|i2: int, j2: int|
                        0 <= i2 < j2 < t.len() implies t[i2].scope != t[j2].scope by {
                        if j2 < s.len() {
                            assert(t[i2] == s[i2] && t[j2] == s[j2]);
                        } else {
                            assert(t[j2].scope == scope && t[i2] == s[i2]);
                        }
                    }
                }
            }
        }
    }

    fn set_nft(&mut self, mint: u64, holder: Scope)
        requires
            nft_distinct(old(self).nfts@),
        ensures
            final(self).config == old(self).config,
            final(self).loans@ == old(self).loans@,
            final(self).balances@ == old(self).balances@,
            nft_distinct(final(self).nfts@),
            final(self).spec_nft_holder(mint) == Some(holder),
            forall|m2: u64| m2 != mint ==> final(self).spec_nft_holder(m2) == old(self).spec_nft_holder(m2),
    {
        let entry = NftSlot { mint, holder };
        match self.find_nft(mint) {
            Some(i) => {
                proof {
                    lemma_nft_lookup_update(self.nfts@, i as int, entry);
                }
                let ghost s = self.nfts@;
                self.nfts[i] = entry;
                proof {
                    let t = self.nfts@;
                    assert forall|i2: int, j2: int|
                        0 <= i2 < j2 < t.len() implies t[i2].mint != t[j2].mint by {
                        assert(t[i2].mint == s[i2].mint);
                        assert(t[j2].mint == s[j2].mint);
                    }
                }
            }
            None => {
                proof {
                    lemma_nft_lookup_none(self.nfts@, mint);
                    lemma_nft_lookup_push(self.nfts@, entry);
                }
                let ghost s = self.nfts@;
                self.nfts.push(entry);
                proof {
                    let t = self.nfts@;
                    assert forall|i2: int, j2: int|
                        0 <= i2 < j2 < t.len() implies t[i2].mint != t[j2].mint by {
                        if j2 < s.len() {
                            assert(t[i2] == s[i2] && t[j2] == s[j2]);
                        } else {
                            assert(t[j2].mint == mint && t[i2] == s[i2]);
                        }
                    }
                }
            }
        }
    }

    fn set_loan(&mut self, record: Loan)
        requires
            loans_distinct(old(self).loans@),
        ensures
            final(self).config == old(self).config,
            final(self).balances@ == old(self).balances@,
            final(self).nfts@ == old(self).nfts@,
            loans_distinct(final(self).loans@),
            final(self).spec_loan(record.key()) == Some(record),
            forall|k2: LoanKey|
                k2 != record.key() ==> final(self).spec_loan(k2) == old(self).spec_loan(k2),
            forall|q: int|
                0 <= q < final(self).loans@.len() ==> (final(self).loans@[q] == record || (
                0 <= q < old(self).loans@.len() && final(self).loans@[q] == old(self).loans@[q]
                    && old(self).loans@[q].key() != record.key())),
    {
        match self.find_loan(LoanKey { borrower: record.borrower, nft_mint: record.nft_mint }) {
            Some(i) => {
                proof {
                    assert(self.loans@[i as int].key() == record.key());
                    assert forall|q: int|
                        0 <= q < self.loans@.len() && q != i implies self.loans@[q].key()
                        != record.key() by {
                        if q < i as int {
                            assert(self.loans@[q].key() != self.loans@[i as int].key());
                        }
                    }
                    lemma_loan_lookup_update(self.loans@, i as int, record);
                }
                let ghost s = self.loans@;
                self.loans[i] = record;
                proof {
                    let t = self.loans@;
                    assert forall|i2: int, j2: int|
                        0 <= i2 < j2 < t.len() implies t[i2].key() != t[j2].key() by {
                        assert(t[i2].key() == s[i2].key());
                        assert(t[j2].key() == s[j2].key());
                    }
                }
            }
            None => {
                proof {
                    lemma_loan_lookup_none(self.loans@, record.key());
                    lemma_loan_lookup_push(self.loans@, record);
                }
                let ghost s = self.loans@;
                self.loans.push(record);
                proof {
                    let t = self.loans@;
                    assert forall|i2: int, j2: int|
                        0 <= i2 < j2 < t.len() implies t[i2].key() != t[j2].key() by {
                        if j2 < s.len() {
                            assert(t[i2] == s[i2] && t[j2] == s[j2]);
                        } else {
                            assert(t[j2].key() == record.key() && t[i2] == s[i2]);
                        }
                    }
                }
            }
        }
    }

    /// Moves `amount` currency units from `from` to `to`: all or nothing.
    /// Fails when `from` does not hold `amount`, or when crediting `to`
    /// would overflow; a failed transfer moves nothing at all.
    fn transfer_currency(&mut self, from: Scope, to: Scope, amount: u64) -> (r: Result<
        (),
        TransferError,
    >)
        requires
            from != to,
            bal_distinct(old(self).balances@),
        ensures
            final(self).config == old(self).config,
            final(self).loans@ == old(self).loans@,
            final(self).nfts@ == old(self).nfts@,
            bal_distinct(final(self).balances@),
            r is Ok <==> {
                &&& old(self).spec_balance(from) >= amount
                &&& old(self).spec_balance(to) + amount <= u64::MAX
            },
            r is Ok ==> {
                &&& final(self).spec_balance(from) == old(self).spec_balance(from) - amount
                &&& final(self).spec_balance(to) == old(self).spec_balance(to) + amount
                &&& forall|s2: Scope|
                    s2 != from && s2 != to ==> final(self).spec_balance(s2) == old(self).spec_balance(s2)
            },
            r is Err ==> final(self).balances@ == old(self).balances@,
            old(self).spec_balance(from) < amount ==> r == Err::<(), TransferError>(
                TransferError::InsufficientFunds,
            ),
            old(self).spec_balance(from) >= amount && old(self).spec_balance(to) + amount
                > u64::MAX ==> r == Err::<(), TransferError>(TransferError::RecipientOverflow),
    {
        let from_bal = self.balance_of(from);
        if from_bal < amount {
            return Err(TransferError::InsufficientFunds);
        }
        let to_bal = self.balance_of(to);
        if amount > u64::MAX - to_bal {
            return Err(TransferError::RecipientOverflow);
        }
        self.set_balance(from, from_bal - amount);
        self.set_balance(to, to_bal + amount);
        Ok(())
    }

    /// The currency balance held by `scope`; a scope with no account holds 0.
    pub fn balance_of(&self, scope: Scope) -> (r: u64)
        ensures
            r == self.spec_balance(scope),
    {
        match self.find_balance(scope) {
            Some(i) => {
                proof {
                    lemma_bal_lookup_at(self.balances@, i as int);
                }
                self.balances[i].amount
            }
            None => {
                proof {
                    lemma_bal_lookup_none(self.balances@, scope);
                }
                0
            }
        }
    }

    /// Moves the asset `mint` from `from` to `to`: all or nothing.  Fails
    /// when `from` does not hold the asset (or the asset does not exist);
    /// a failed transfer moves nothing at all.
    fn transfer_nft(&mut self, from: Scope, to: Scope, mint: u64) -> (r: Result<
        (),
        TransferError,
    >)
        requires
            nft_distinct(old(self).nfts@),
        ensures
            final(self).config == old(self).config,
            final(self).loans@ == old(self).loans@,
            final(self).balances@ == old(self).balances@,
            nft_distinct(final(self).nfts@),
            r is Ok <==> nft_lookup(old(self).nfts@, mint) == Some(from),
            r is Ok ==> {
                &&& final(self).spec_nft_holder(mint) == Some(to)
                &&& forall|m2: u64|
                    m2 != mint ==> final(self).spec_nft_holder(m2) == old(self).spec_nft_holder(m2)
            },
            r is Err ==> final(self).nfts@ == old(self).nfts@ && r == Err::<(), TransferError>(
                TransferError::InsufficientFunds,
            ),
    {
        match self.find_nft(mint) {
            Some(i) => {
                proof {
                    lemma_nft_lookup_at(self.nfts@, i as int);
                }
                if self.nfts[i].holder == from {
                    self.set_nft(mint, to);
                    Ok(())
                } else {
                    Err(TransferError::InsufficientFunds)
                }
            }
            None => {
                proof {
                    lemma_nft_lookup_none(self.nfts@, mint);
                }
                Err(TransferError::InsufficientFunds)
            }
        }
    }

    /// Moves currency out of a loan's escrow scope.  The custody authority
    /// bound to that loan must be presented: no other value authorizes a
    /// debit of an escrow scope.
    fn escrow_currency_out(&mut self, auth: &Escrow, to: Scope, amount: u64) -> (r: Result<
        (),
        TransferError,
    >)
        requires
            to != Scope::LoanEscrow(auth.spec_owner()),
            bal_distinct(old(self).balances@),
        ensures
            final(self).config == old(self).config,
            final(self).loans@ == old(self).loans@,
            final(self).nfts@ == old(self).nfts@,
            bal_distinct(final(self).balances@),
            r is Ok <==> {
                &&& old(self).spec_balance(Scope::LoanEscrow(auth.spec_owner())) >= amount
                &&& old(self).spec_balance(to) + amount <= u64::MAX
            },
            r is Ok ==> {
                &&& final(self).spec_balance(Scope::LoanEscrow(auth.spec_owner())) == old(self).spec_balance(Scope::LoanEscrow(auth.spec_owner())) - amount
                &&& final(self).spec_balance(to) == old(self).spec_balance(to) + amount
                &&& forall|s2: Scope|
                    s2 != Scope::LoanEscrow(auth.spec_owner()) && s2 != to ==> final(self).spec_balance(s2) == old(self).spec_balance(s2)
            },
            r is Err ==> final(self).balances@ == old(self).balances@,
            old(self).spec_balance(Scope::LoanEscrow(auth.spec_owner())) < amount ==> r == Err::<
                (),
                TransferError,
            >(TransferError::InsufficientFunds),
            old(self).spec_balance(Scope::LoanEscrow(auth.spec_owner())) >= amount && old(self).spec_balance(to) + amount > u64::MAX ==> r == Err::<(), TransferError>(
                TransferError::RecipientOverflow,
            ),
    {
        let from = Scope::LoanEscrow(auth.owner());
        self.transfer_currency(from, to, amount)
    }

    /// Releases the asset `mint` out of a loan's escrow scope to `to`, under
    /// the loan's custody authority.  Demands that the escrow scope actually
    /// holds the asset; the lifecycle proves this from the vault invariants,
    /// so a repayment can never strand or lose the collateral.
    fn escrow_nft_out(&mut self, auth: &Escrow, to: Scope, mint: u64)
        requires
            nft_distinct(old(self).nfts@),
            nft_lookup(old(self).nfts@, mint) == Some(Scope::LoanEscrow(auth.spec_owner())),
        ensures
            final(self).config == old(self).config,
            final(self).loans@ == old(self).loans@,
            final(self).balances@ == old(self).balances@,
            nft_distinct(final(self).nfts@),
            final(self).spec_nft_holder(mint) == Some(to),
            forall|m2: u64| m2 != mint ==> final(self).spec_nft_holder(m2) == old(self).spec_nft_holder(m2),
    {
        self.set_nft(mint, to);
    }

    // -----------------------------------------------------------------------
    // The world's edges: assets entering the modeled ledger from outside.
    // -----------------------------------------------------------------------

    /// Currency arriving in a user's wallet from outside the pool (for
    /// instance a lender acquiring liquidity).  Refused, and nothing changes,
    /// only if the wallet's balance would overflow.
    pub fn mint_currency(&mut self, user: u64, amount: u64) -> (ok: bool)
        requires
            old(self).wf(),
        ensures
            final(self).wf(),
            final(self).spec_config() == old(self).spec_config(),
            final(self).spec_loans() == old(self).spec_loans(),
            forall|m: u64| final(self).spec_nft_holder(m) == old(self).spec_nft_holder(m),
            ok <==> old(self).spec_balance(Scope::User(user)) + amount <= u64::MAX,
            ok ==> {
                &&& final(self).spec_balance(Scope::User(user)) == old(self).spec_balance(
                    Scope::User(user),
                ) + amount
                &&& forall|s2: Scope|
                    s2 != Scope::User(user) ==> final(self).spec_balance(s2) == old(self).spec_balance(s2)
            },
            !ok ==> forall|s2: Scope| final(self).spec_balance(s2) == old(self).spec_balance(s2),
    {
        let scope = Scope::User(user);
        let held = self.balance_of(scope);
        if amount > u64::MAX - held {
            return false;
        }
        self.set_balance(scope, held + amount);
        true
    }

    /// A collateral asset entering the modeled world, initially held by
    /// `owner`.  Refused, and nothing changes, only if an asset with this
    /// mint already exists.
    pub fn mint_nft(&mut self, mint: u64, owner: u64) -> (ok: bool)
        requires
            old(self).wf(),
        ensures
            final(self).wf(),
            final(self).spec_config() == old(self).spec_config(),
            final(self).spec_loans() == old(self).spec_loans(),
            forall|s2: Scope| final(self).spec_balance(s2) == old(self).spec_balance(s2),
            ok <==> old(self).spec_nft_holder(mint) is None,
            ok ==> {
                &&& final(self).spec_nft_holder(mint) == Some(Scope::User(owner))
                &&& forall|m2: u64|
                    m2 != mint ==> final(self).spec_nft_holder(m2) == old(self).spec_nft_holder(m2)
            },
            !ok ==> forall|m2: u64| final(self).spec_nft_holder(m2) == old(self).spec_nft_holder(m2),
    {
        match self.find_nft(mint) {
            Some(i) => {
                proof {
                    lemma_nft_lookup_at(self.nfts@, i as int);
                }
                false
            }
            None => {
                proof {
                    lemma_nft_lookup_none(self.nfts@, mint);
                }
                self.set_nft(mint, Scope::User(owner));
                proof {
                    let v = *self;
                    let o = *old(self);
                    assert(o.wf());
                    assert forall|i: int|
                        0 <= i < v.loans@.len() && v.loans@[i].active implies nft_lookup(
                        v.nfts@,
                        v.loans@[i].nft_mint,
                    ) == Some(Scope::LoanEscrow(v.loans@[i].key())) by {
                        assert(v.loans@[i] == o.loans@[i]);
                        assert(nft_lookup(o.nfts@, o.loans@[i].nft_mint) == Some(
                            Scope::LoanEscrow(o.loans@[i].key()),
                        ));
                        assert(o.loans@[i].nft_mint != mint);
                        assert(v.spec_nft_holder(o.loans@[i].nft_mint) == o.spec_nft_holder(
                            o.loans@[i].nft_mint,
                        ));
                    }
                }
                true
            }
        }
    }

    /// The lender advancing liquidity: moves `amount` currency from the
    /// lender's own wallet into the escrow scope of the loan keyed by
    /// (`borrower`, `nft_mint`).  The lender authorizes the debit of their
    /// own wallet; crediting an escrow scope needs no capability.
    pub fn fund_escrow(&mut self, lender: u64, borrower: u64, nft_mint: u64, amount: u64) -> (r:
        Result<(), TransferError>)
        requires
            old(self).wf(),
        ensures
            final(self).wf(),
            final(self).spec_config() == old(self).spec_config(),
            final(self).spec_loans() == old(self).spec_loans(),
            forall|m: u64| final(self).spec_nft_holder(m) == old(self).spec_nft_holder(m),
            r is Ok <==> {
                &&& old(self).spec_balance(Scope::User(lender)) >= amount
                &&& old(self).spec_balance(
                    Scope::LoanEscrow(LoanKey { borrower, nft_mint }),
                ) + amount <= u64::MAX
            },
            r is Ok ==> {
                &&& final(self).spec_balance(Scope::User(lender)) == old(self).spec_balance(
                    Scope::User(lender),
                ) - amount
                &&& final(self).spec_balance(Scope::LoanEscrow(LoanKey { borrower, nft_mint }))
                    == old(self).spec_balance(Scope::LoanEscrow(LoanKey { borrower, nft_mint }))
                    + amount
                &&& forall|s2: Scope|
                    s2 != Scope::User(lender) && s2 != Scope::LoanEscrow(
                        LoanKey { borrower, nft_mint },
                    ) ==> final(self).spec_balance(s2) == old(self).spec_balance(s2)
            },
            r is Err ==> forall|s2: Scope|
                final(self).spec_balance(s2) == old(self).spec_balance(s2),
            old(self).spec_balance(Scope::User(lender)) < amount ==> r == Err::<(), TransferError>(
                TransferError::InsufficientFunds,
            ),
            old(self).spec_balance(Scope::User(lender)) >= amount && old(self).spec_balance(
                Scope::LoanEscrow(LoanKey { borrower, nft_mint }),
            ) + amount > u64::MAX ==> r == Err::<(), TransferError>(
                TransferError::RecipientOverflow,
            ),
    {
        let key = LoanKey { borrower, nft_mint };
        self.transfer_currency(Scope::User(lender), Scope::LoanEscrow(key), amount)
    }

    // -----------------------------------------------------------------------
    // Read access.
    // -----------------------------------------------------------------------

    /// The scope currently holding the asset `mint`, if that asset exists.
    pub fn holder_of(&self, mint: u64) -> (r: Option<Scope>)
        ensures
            r == self.spec_nft_holder(mint),
    {
        match self.find_nft(mint) {
            Some(i) => {
                proof {
                    lemma_nft_lookup_at(self.nfts@, i as int);
                }
                Some(self.nfts[i].holder)
            }
            None => {
                proof {
                    lemma_nft_lookup_none(self.nfts@, mint);
                }
                None
            }
        }
    }

    /// The loan record stored for the (`borrower`, `nft_mint`) pair, if any.
    pub fn loan_of(&self, borrower: u64, nft_mint: u64) -> (r: Option<Loan>)
        ensures
            r == self.spec_loan(LoanKey { borrower, nft_mint }),
    {
        let key = LoanKey { borrower, nft_mint };
        match self.find_loan(key) {
            Some(i) => {
                proof {
                    lemma_loan_lookup_at(self.loans@, i as int);
                }
                Some(self.loans[i])
            }
            None => {
                proof {
                    lemma_loan_lookup_none(self.loans@, key);
                }
                None
            }
        }
    }

    /// The pool configuration.
    pub fn pool_config(&self) -> (c: Config)
        ensures
            c == self.spec_config(),
    {
        self.config
    }

    // -----------------------------------------------------------------------
    // The loan lifecycle.
    // -----------------------------------------------------------------------

    /// Creates the pool: a configuration naming the administrator, the
    /// default principal advanced to each borrower, and the fee rate fixed
    /// at `DEFAULT_BPS_FEE` basis points.  All stores start empty.
    pub fn initialize(admin: u64, loan_amount: u64) -> (v: Vault)
        ensures
            v.wf(),
            v.spec_config() == (Config { admin, loan_amount, bps_fee: DEFAULT_BPS_FEE }),
            v.spec_loans() == Seq::<Loan>::empty(),
            forall|s2: Scope| v.spec_balance(s2) == 0,
            forall|m2: u64| v.spec_nft_holder(m2) is None,
    {
        let v = Vault {
            config: Config { admin, loan_amount, bps_fee: DEFAULT_BPS_FEE },
            loans: Vec::new(),
            balances: Vec::new(),
            nfts: Vec::new(),
        };
        proof {
            assert(v.loans@ =~= Seq::<Loan>::empty());
            assert forall|s2: Scope| v.spec_balance(s2) == 0 by {
                assert(bal_lookup(v.balances@, s2) == None::<u64>);
            }
            assert forall|m2: u64| v.spec_nft_holder(m2) is None by {
                assert(nft_lookup(v.nfts@, m2) == None::<Scope>);
            }
        }
        v
    }

    /// Deposit: the borrower pledges the collateral `nft_mint` and opens a
    /// loan.  The collateral moves from the borrower's wallet into the
    /// loan's escrow scope, authorized by the borrower, who owns it; the
    /// record is then written with the pool's default principal captured at
    /// this moment, and marked active.
    ///
    /// Fails with `LoanIsActive` when a loan for this (borrower, collateral)
    /// pair is still active, and with a transfer failure when the borrower
    /// does not hold the collateral; a failed deposit changes nothing.
    pub fn deposite(&mut self, user: u64, nft_mint: u64) -> (r: Result<(), PawnError>)
        requires
            old(self).wf(),
            user != EMPTY_IDENTITY,
        ensures
            final(self).wf(),
            ({
                let key = LoanKey { borrower: user, nft_mint };
                if old(self).spec_loan_active(key) {
                    &&& r == Err::<(), PawnError>(PawnError::Custom(CustomError::LoanIsActive))
                    &&& same_state(*old(self), *final(self))
                } else if old(self).spec_nft_holder(nft_mint) != Some(Scope::User(user)) {
                    &&& r == Err::<(), PawnError>(
                        PawnError::Transfer(TransferError::InsufficientFunds),
                    )
                    &&& same_state(*old(self), *final(self))
                } else {
                    &&& r == Ok::<(), PawnError>(())
                    &&& final(self).spec_config() == old(self).spec_config()
                    &&& final(self).spec_loan(key) == Some(
                        Loan {
                            nft_mint,
                            borrower: user,
                            amount: old(self).spec_config().loan_amount,
                            active: true,
                        },
                    )
                    &&& forall|k2: LoanKey|
                        k2 != key ==> final(self).spec_loan(k2) == old(self).spec_loan(k2)
                    &&& final(self).spec_nft_holder(nft_mint) == Some(Scope::LoanEscrow(key))
                    &&& forall|m2: u64|
                        m2 != nft_mint ==> final(self).spec_nft_holder(m2) == old(
                            self,
                        ).spec_nft_holder(m2)
                    &&& forall|s2: Scope|
                        final(self).spec_balance(s2) == old(self).spec_balance(s2)
                }
            }),
    {
        let key = LoanKey { borrower: user, nft_mint };
        let ghost o = *old(self);
        match self.find_loan(key) {
            Some(i) => {
                proof {
                    lemma_loan_lookup_at(self.loans@, i as int);
                }
                if self.loans[i].active {
                    return Err(PawnError::Custom(CustomError::LoanIsActive));
                }
            }
            None => {
                proof {
                    lemma_loan_lookup_none(self.loans@, key);
                }
            }
        }
        match self.transfer_nft(Scope::User(user), Scope::LoanEscrow(key), nft_mint) {
            Ok(()) => {}
            Err(e) => {
                return Err(PawnError::Transfer(e));
            }
        }
        let ghost mid = *self;
        let record = Loan {
            nft_mint,
            borrower: user,
            amount: self.config.loan_amount,
            active: true,
        };
        self.set_loan(record);
        proof {
            let v = *self;
            assert(o.wf());
            assert forall|q: int| 0 <= q < v.loans@.len() implies v.loans@[q].borrower != 0 by {
                if v.loans@[q] != record {
                    assert(v.loans@[q] == o.loans@[q]);
                }
            }
            assert forall|q: int|
                0 <= q < v.loans@.len() && v.loans@[q].active implies nft_lookup(
                v.nfts@,
                v.loans@[q].nft_mint,
            ) == Some(Scope::LoanEscrow(v.loans@[q].key())) by {
                if v.loans@[q] == record {
                    assert(mid.spec_nft_holder(nft_mint) == Some(Scope::LoanEscrow(key)));
                    assert(v.nfts@ == mid.nfts@);
                    assert(record.key() == key);
                } else {
                    let l = o.loans@[q];
                    assert(v.loans@[q] == l);
                    if l.active {
                        assert(nft_lookup(o.nfts@, l.nft_mint) == Some(
                            Scope::LoanEscrow(l.key()),
                        ));
                        assert(nft_lookup(o.nfts@, nft_mint) == Some(Scope::User(user)));
                        assert(l.nft_mint != nft_mint);
                        assert(mid.spec_nft_holder(l.nft_mint) == o.spec_nft_holder(l.nft_mint));
                        assert(v.nfts@ == mid.nfts@);
                    }
                }
            }
        }
        Ok(())
    }

    /// Fund: the advance is released from the loan's escrow scope to the
    /// borrower, under the custody authority derived from the loan's own
    /// identity.  This step moves currency only: it neither checks nor
    /// changes the record's `active` flag or its principal.
    ///
    /// Fails with `BorrowerNotFound` when no deposit has recorded a borrower
    /// under this key, and with a transfer failure when the escrow scope
    /// does not hold the principal or the borrower's wallet would overflow;
    /// a failed funding changes nothing.
    pub fn lend_borrower(&mut self, borrower: u64, nft_mint: u64) -> (r: Result<(), PawnError>)
        requires
            old(self).wf(),
        ensures
            final(self).wf(),
            final(self).spec_config() == old(self).spec_config(),
            final(self).spec_loans() == old(self).spec_loans(),
            forall|m2: u64| final(self).spec_nft_holder(m2) == old(self).spec_nft_holder(m2),
            ({
                let key = LoanKey { borrower, nft_mint };
                let esc = Scope::LoanEscrow(key);
                let wallet = Scope::User(borrower);
                match old(self).spec_loan(key) {
                    None => {
                        &&& r == Err::<(), PawnError>(
                            PawnError::Custom(CustomError::BorrowerNotFound),
                        )
                        &&& forall|s2: Scope|
                            final(self).spec_balance(s2) == old(self).spec_balance(s2)
                    },
                    Some(l) => {
                        if old(self).spec_balance(esc) < l.amount {
                            &&& r == Err::<(), PawnError>(
                                PawnError::Transfer(TransferError::InsufficientFunds),
                            )
                            &&& forall|s2: Scope|
                                final(self).spec_balance(s2) == old(self).spec_balance(s2)
                        } else if old(self).spec_balance(wallet) + l.amount > u64::MAX {
                            &&& r == Err::<(), PawnError>(
                                PawnError::Transfer(TransferError::RecipientOverflow),
                            )
                            &&& forall|s2: Scope|
                                final(self).spec_balance(s2) == old(self).spec_balance(s2)
                        } else {
                            &&& r == Ok::<(), PawnError>(())
                            &&& final(self).spec_balance(esc) == old(self).spec_balance(esc)
                                - l.amount
                            &&& final(self).spec_balance(wallet) == old(self).spec_balance(wallet)
                                + l.amount
                            &&& forall|s2: Scope|
                                s2 != esc && s2 != wallet ==> final(self).spec_balance(s2) == old(
                                    self,
                                ).spec_balance(s2)
                        }
                    },
                }
            }),
    {
        let key = LoanKey { borrower, nft_mint };
        let i = match self.find_loan(key) {
            None => {
                proof {
                    lemma_loan_lookup_none(self.loans@, key);
                }
                return Err(PawnError::Custom(CustomError::BorrowerNotFound));
            }
            Some(i) => i,
        };
        proof {
            lemma_loan_lookup_at(self.loans@, i as int);
        }
        if self.loans[i].borrower == EMPTY_IDENTITY {
            // Every stored record names its borrower, so this guard can
            // never fire; the verifier checks exactly that.
            return Err(PawnError::Custom(CustomError::BorrowerNotFound));
        }
        let amount = self.loans[i].amount;
        let auth = Escrow::for_loan(key);
        match self.escrow_currency_out(&auth, Scope::User(borrower), amount) {
            Ok(()) => Ok(()),
            Err(e) => Err(PawnError::Transfer(e)),
        }
    }

    /// Repay: computes the fee and the total owed, takes that total from the
    /// borrower's wallet into the loan's escrow scope under the borrower's
    /// authority, then releases the collateral back to the borrower under
    /// the loan's custody authority, and marks the record inactive.
    ///
    /// The payment commits strictly before the collateral release, and the
    /// release itself cannot fail: while a loan is active its collateral is
    /// provably held by its own escrow scope.  A failure of any earlier step
    /// aborts the whole operation with nothing changed, so no state ever
    /// shows the collateral released without the payment taken.
    ///
    /// Fails with `LoanIsNotActive` when no record exists under this key or
    /// the record is inactive — an active loan is the precondition of
    /// repayment, so this guard comes before everything else — and with
    /// `MathOverflow` when, on an active loan, the fee or the total cannot
    /// be represented.  A transfer failure is reported when the borrower's
    /// wallet does not hold the total or the escrow balance would overflow.
    pub fn repay_borrower(&mut self, borrower: u64, nft_mint: u64) -> (r: Result<(), PawnError>)
        requires
            old(self).wf(),
        ensures
            final(self).wf(),
            final(self).spec_config() == old(self).spec_config(),
            ({
                let key = LoanKey { borrower, nft_mint };
                let esc = Scope::LoanEscrow(key);
                let wallet = Scope::User(borrower);
                let bps = old(self).spec_config().bps_fee;
                match old(self).spec_loan(key) {
                    None => {
                        &&& r == Err::<(), PawnError>(
                            PawnError::Custom(CustomError::LoanIsNotActive),
                        )
                        &&& same_state(*old(self), *final(self))
                    },
                    Some(l) => {
                        let fee = spec_fee(l.amount as nat, bps as nat);
                        let total = l.amount + fee;
                        if !l.active {
                            &&& r == Err::<(), PawnError>(
                                PawnError::Custom(CustomError::LoanIsNotActive),
                            )
                            &&& same_state(*old(self), *final(self))
                        } else if l.amount * bps > u64::MAX || total > u64::MAX {
                            &&& r == Err::<(), PawnError>(
                                PawnError::Custom(CustomError::MathOverflow),
                            )
                            &&& same_state(*old(self), *final(self))
                        } else if old(self).spec_balance(wallet) < total {
                            &&& r == Err::<(), PawnError>(
                                PawnError::Transfer(TransferError::InsufficientFunds),
                            )
                            &&& same_state(*old(self), *final(self))
                        } else if old(self).spec_balance(esc) + total > u64::MAX {
                            &&& r == Err::<(), PawnError>(
                                PawnError::Transfer(TransferError::RecipientOverflow),
                            )
                            &&& same_state(*old(self), *final(self))
                        } else {
                            &&& r == Ok::<(), PawnError>(())
                            &&& final(self).spec_loan(key) == Some(
                                Loan { nft_mint, borrower, amount: l.amount, active: false },
                            )
                            &&& forall|k2: LoanKey|
                                k2 != key ==> final(self).spec_loan(k2) == old(self).spec_loan(k2)
                            &&& final(self).spec_balance(wallet) == old(self).spec_balance(wallet)
                                - total
                            &&& final(self).spec_balance(esc) == old(self).spec_balance(esc)
                                + total
                            &&& forall|s2: Scope|
                                s2 != wallet && s2 != esc ==> final(self).spec_balance(s2) == old(
                                    self,
                                ).spec_balance(s2)
                            &&& final(self).spec_nft_holder(nft_mint) == Some(wallet)
                            &&& forall|m2: u64|
                                m2 != nft_mint ==> final(self).spec_nft_holder(m2) == old(
                                    self,
                                ).spec_nft_holder(m2)
                        }
                    },
                }
            }),
    {
        let key = LoanKey { borrower, nft_mint };
        let ghost o = *old(self);
        let i = match self.find_loan(key) {
            None => {
                proof {
                    lemma_loan_lookup_none(self.loans@, key);
                }
                return Err(PawnError::Custom(CustomError::LoanIsNotActive));
            }
            Some(i) => i,
        };
        proof {
            lemma_loan_lookup_at(self.loans@, i as int);
        }
        let l = self.loans[i];
        if !l.active {
            return Err(PawnError::Custom(CustomError::LoanIsNotActive));
        }
        let fee = match calc_fee(l.amount, self.config.bps_fee) {
            Ok(f) => f,
            Err(e) => {
                return Err(PawnError::Custom(e));
            }
        };
        let total = match l.amount.checked_add(fee) {
            Some(t) => t,
            None => {
                return Err(PawnError::Custom(CustomError::MathOverflow));
            }
        };
        // The payment: borrower's wallet into escrow, under the borrower's
        // own authority.
        match self.transfer_currency(Scope::User(borrower), Scope::LoanEscrow(key), total) {
            Ok(()) => {}
            Err(e) => {
                return Err(PawnError::Transfer(e));
            }
        }
        // The collateral release, under the loan's custody authority.  It
        // comes after the payment has committed, and it cannot fail: the
        // collateral of an active loan sits in that loan's escrow scope.
        let ghost mid = *self;
        proof {
            assert(l.key() == key);
            assert(nft_lookup(o.nfts@, l.nft_mint) == Some(Scope::LoanEscrow(l.key())));
            assert(self.nfts@ == o.nfts@);
        }
        let auth = Escrow::for_loan(key);
        self.escrow_nft_out(&auth, Scope::User(borrower), nft_mint);
        let ghost mid2 = *self;
        // Close the record.
        let record = Loan { nft_mint: l.nft_mint, borrower: l.borrower, amount: l.amount, active: false };
        self.set_loan(record);
        proof {
            let v = *self;
            assert(o.wf());
            assert(record.key() == key);
            assert forall|q: int| 0 <= q < v.loans@.len() implies v.loans@[q].borrower != 0 by {
                if v.loans@[q] != record {
                    assert(v.loans@[q] == o.loans@[q]);
                }
            }
            assert forall|q: int|
                0 <= q < v.loans@.len() && v.loans@[q].active implies nft_lookup(
                v.nfts@,
                v.loans@[q].nft_mint,
            ) == Some(Scope::LoanEscrow(v.loans@[q].key())) by {
                assert(v.loans@[q] != record);
                let l2 = o.loans@[q];
                assert(v.loans@[q] == l2 && l2.key() != key);
                assert(nft_lookup(o.nfts@, l2.nft_mint) == Some(Scope::LoanEscrow(l2.key())));
                assert(l2.nft_mint != nft_mint);
                assert(mid2.spec_nft_holder(l2.nft_mint) == mid.spec_nft_holder(l2.nft_mint));
                assert(mid.nfts@ == o.nfts@);
                assert(v.nfts@ == mid2.nfts@);
            }
            assert forall|m2: u64|
                m2 != nft_mint implies v.spec_nft_holder(m2) == o.spec_nft_holder(m2) by {
                assert(mid2.spec_nft_holder(m2) == mid.spec_nft_holder(m2));
                assert(mid.nfts@ == o.nfts@);
                assert(v.nfts@ == mid2.nfts@);
            }
        }
        Ok(())
    }

    /// Every stored loan record names a non-empty borrower; the empty
    /// identity only ever means "no deposit recorded".
    pub proof fn lemma_borrower_recorded(self, i: int)
        requires
            self.wf(),
            0 <= i < self.spec_loans().len(),
        ensures
            self.spec_loans()[i].borrower != EMPTY_IDENTITY,
    {
    }

    fn find_loan(&self, key: LoanKey) -> (r: Option<usize>)
        ensures
            match r {
                Some(i) => {
                    &&& i < self.loans@.len()
                    &&& self.loans@[i as int].key() == key
                    &&& forall|j: int| i < j < self.loans@.len() ==> self.loans@[j].key() != key
                },
                None => forall|j: int| 0 <= j < self.loans@.len() ==> self.loans@[j].key() != key,
            },
    {
        let mut k: usize = self.loans.len();
        while k > 0
            invariant
                k <= self.loans@.len(),
                forall|j: int| k <= j < self.loans@.len() ==> self.loans@[j].key() != key,
            decreases k,
        {
            k = k - 1;
            if self.loans[k].borrower == key.borrower && self.loans[k].nft_mint == key.nft_mint {
                return Some(k);
            }
        }
        None
    }
}

// ---------------------------------------------------------------------------
// Laws: invariants of every well-formed vault.  Every vault built by
// `initialize` and driven through the lifecycle operations is well-formed,
// so these hold in every reachable state.
// ---------------------------------------------------------------------------

/// For any (borrower, collateral) pair there is at most one loan record in
/// the store — so at most one loan per pair is ever active at a time.
pub proof fn lemma_loan_record_unique(v: Vault, i: int, j: int)
    requires
        v.wf(),
        0 <= i < v.spec_loans().len(),
        0 <= j < v.spec_loans().len(),
        v.spec_loans()[i].key() == v.spec_loans()[j].key(),
    ensures
        i == j,
{
    if i < j {
        assert(v.spec_loans()[i].key() != v.spec_loans()[j].key());
    } else if j < i {
        assert(v.spec_loans()[j].key() != v.spec_loans()[i].key());
    }
}

/// While a loan is active, its collateral is held by that loan's own escrow
/// scope: the asset cannot sit in any wallet, nor in another loan's escrow.
pub proof fn lemma_active_collateral_escrowed(v: Vault, i: int)
    requires
        v.wf(),
        0 <= i < v.spec_loans().len(),
        v.spec_loans()[i].active,
    ensures
        v.spec_nft_holder(v.spec_loans()[i].nft_mint) == Some(
            Scope::LoanEscrow(v.spec_loans()[i].key()),
        ),
{
}

proof fn lemma_no_empty_borrower_lookup(s: Seq<Loan>, key: LoanKey)
    requires
        key.borrower == EMPTY_IDENTITY,
        forall|q: int| 0 <= q < s.len() ==> s[q].borrower != EMPTY_IDENTITY,
    ensures
        loan_lookup(s, key) == None::<Loan>,
    decreases s.len(),
{
    if s.len() > 0 {
        assert(s.last().borrower != EMPTY_IDENTITY);
        lemma_no_empty_borrower_lookup(s.drop_last(), key);
    }
}

/// The empty identity never names a borrower: no loan record is ever stored
/// under it, so funding such a key reports that no deposit was recorded.
pub proof fn lemma_empty_borrower_has_no_loan(v: Vault, nft_mint: u64)
    requires
        v.wf(),
    ensures
        v.spec_loan(LoanKey { borrower: EMPTY_IDENTITY, nft_mint }) is None,
{
    lemma_no_empty_borrower_lookup(
        v.spec_loans(),
        LoanKey { borrower: EMPTY_IDENTITY, nft_mint },
    );
}

/// No two distinct loan records are active on the same collateral, even
/// across different borrowers: the collateral of each active loan has
/// exactly one holder, and that holder names the loan's own key.
pub proof fn lemma_active_collateral_unique(v: Vault, i: int, j: int)
    requires
        v.wf(),
        0 <= i < v.spec_loans().len(),
        0 <= j < v.spec_loans().len(),
        v.spec_loans()[i].active,
        v.spec_loans()[j].active,
        v.spec_loans()[i].nft_mint == v.spec_loans()[j].nft_mint,
    ensures
        i == j,
{
    lemma_active_collateral_escrowed(v, i);
    lemma_active_collateral_escrowed(v, j);
    lemma_loan_record_unique(v, i, j);
}

} // verus!
