//! The token ledger as this library sees it: the instructions that the
//! coordinators hand to it, and a specification of what each one does to
//! issuers and custody balances, or that it aborts.

use vstd::prelude::*;
use crate::identity::Identity;

verus! {

/// One instruction for the token ledger.
#[derive(Debug, Clone, Copy)]
pub enum LedgerAction {
    /// Create a new issuer whose issuing authority is `authority`.
    CreateIssuer { issuer: Identity, authority: Identity, decimals: u8 },
    /// Create the custody account of `holder` for `issuer` unless it exists.
    EnsureAccount { issuer: Identity, holder: Identity },
    /// Issue `amount` units of `issuer` to the custody account of `holder`,
    /// authorized by `signer`.
    Issue { issuer: Identity, holder: Identity, amount: u64, signer: Identity },
    /// Remove the issuing authority of `issuer` for good, authorized by `signer`.
    RevokeIssuance { issuer: Identity, signer: Identity },
    /// Move `amount` units of `issuer` from the custody account of `from`, who
    /// signs, to that of `to`, checked against the issuer's subdivisions.
    Move { issuer: Identity, from: Identity, to: Identity, amount: u64, decimals: u8 },
}

/// What the ledger holds for one issuer.
pub struct IssuerState {
    pub authority: Option<Identity>,
    pub decimals: u8,
    /// Units issued so far.
    pub supply: nat,
}

/// The ledger's state for the issuers of this program: each issuer, and the
/// balance of each custody account, keyed by (issuer, holder).
pub struct Ledger {
    pub issuers: Map<Identity, IssuerState>,
    pub balances: Map<(Identity, Identity), nat>,
}

pub open spec fn empty_ledger() -> Ledger {
    Ledger { issuers: Map::empty(), balances: Map::empty() }
}

pub open spec fn balance_of(l: Ledger, issuer: Identity, holder: Identity) -> nat {
    if l.balances.contains_key((issuer, holder)) {
        l.balances[(issuer, holder)]
    } else {
        0
    }
}

/// The effect of one instruction, or `None` where the ledger aborts it.
pub open spec fn step(l: Ledger, a: LedgerAction) -> Option<Ledger> {
    match a {
        LedgerAction::CreateIssuer { issuer, authority, decimals } => {
            if l.issuers.contains_key(issuer) {
                None
            } else {
                Some(
                    Ledger {
                        issuers: l.issuers.insert(
                            issuer,
                            IssuerState { authority: Some(authority), decimals, supply: 0 },
                        ),
                        balances: l.balances,
                    },
                )
            }
        },
        LedgerAction::EnsureAccount { issuer, holder } => {
            if !l.issuers.contains_key(issuer) {
                None
            } else if l.balances.contains_key((issuer, holder)) {
                Some(l)
            } else {
                Some(Ledger { issuers: l.issuers, balances: l.balances.insert((issuer, holder), 0) })
            }
        },
        LedgerAction::Issue { issuer, holder, amount, signer } => {
            if l.issuers.contains_key(issuer) && l.issuers[issuer].authority == Some(signer)
                && l.balances.contains_key((issuer, holder)) {
                let st = l.issuers[issuer];
                Some(
                    Ledger {
                        issuers: l.issuers.insert(
                            issuer,
                            IssuerState {
                                authority: st.authority,
                                decimals: st.decimals,
                                supply: (st.supply + amount) as nat,
                            },
                        ),
                        balances: l.balances.insert(
                            (issuer, holder),
                            (l.balances[(issuer, holder)] + amount) as nat,
                        ),
                    },
                )
            } else {
                None
            }
        },
        LedgerAction::RevokeIssuance { issuer, signer } => {
            if l.issuers.contains_key(issuer) && l.issuers[issuer].authority == Some(signer) {
                let st = l.issuers[issuer];
                Some(
                    Ledger {
                        issuers: l.issuers.insert(
                            issuer,
                            IssuerState { authority: None, decimals: st.decimals, supply: st.supply },
                        ),
                        balances: l.balances,
                    },
                )
            } else {
                None
            }
        },
        LedgerAction::Move { issuer, from, to, amount, decimals } => {
            if l.issuers.contains_key(issuer) && l.issuers[issuer].decimals == decimals
                && l.balances.contains_key((issuer, from)) && l.balances.contains_key(
                (issuer, to),
            ) && l.balances[(issuer, from)] >= amount {
                let taken = l.balances.insert((issuer, from), (l.balances[(issuer, from)] - amount) as nat);
                Some(
                    Ledger {
                        issuers: l.issuers,
                        balances: taken.insert((issuer, to), (taken[(issuer, to)] + amount) as nat),
                    },
                )
            } else {
                None
            }
        },
    }
}

/// The effect of a sequence of instructions applied as one all-or-nothing unit:
/// `None` as soon as one of them aborts.
pub open spec fn run(l: Ledger, actions: Seq<LedgerAction>) -> Option<Ledger>
    decreases actions.len(),
{
    if actions.len() == 0 {
        Some(l)
    } else {
        match step(l, actions[0]) {
            Some(next) => run(next, actions.drop_first()),
            None => None,
        }
    }
}

/// Creating a custody account that exists already changes nothing and does not
/// abort; asking for the same account twice is the same as asking once.
pub proof fn lemma_ensure_account_idempotent(l: Ledger, issuer: Identity, holder: Identity)
    requires
        l.issuers.contains_key(issuer),
    ensures
        l.balances.contains_key((issuer, holder)) ==> step(
            l,
            LedgerAction::EnsureAccount { issuer, holder },
        ) == Some(l),
        step(l, LedgerAction::EnsureAccount { issuer, holder }) matches Some(once) && step(
            once,
            LedgerAction::EnsureAccount { issuer, holder },
        ) == Some(once) && once.balances.dom() == l.balances.dom().insert((issuer, holder))
            && balance_of(once, issuer, holder) == balance_of(l, issuer, holder),
{
    let e = LedgerAction::EnsureAccount { issuer, holder };
    if !l.balances.contains_key((issuer, holder)) {
        let once = step(l, e)->0;
        assert(once.balances.dom() =~= l.balances.dom().insert((issuer, holder)));
    } else {
        assert(l.balances.dom() =~= l.balances.dom().insert((issuer, holder)));
    }
}

} // verus!
