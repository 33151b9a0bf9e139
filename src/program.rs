//! The registry, the asset records, and the two coordinators that change them:
//! minting a unique item and passing custody of one on.

use vstd::prelude::*;
use crate::identity::{Identity, count_seed, count_seed_bytes, lemma_identity_bytes};
use crate::address::{program_address, find_address};
use crate::ledger::{Ledger, LedgerAction, IssuerState, step, run, empty_ledger, balance_of};

verus! {

/// Subdivisions of every item's unit: none, a unit cannot be split.
pub const DECIMALS: u8 = 0;

/// The registry: who may mint, and how many items have been minted.
#[derive(Debug, Clone, Copy)]
pub struct NFTInfo {
    pub count: u64,
    pub owner: Identity,
}

/// The record kept for one minted item.
#[derive(Debug, Clone)]
pub struct NFTData {
    pub name: String,
    pub symbol: String,
    pub uri: String,
    pub minter: Identity,
    pub current_holder: Identity,
}

#[derive(Debug, Clone, Copy, PartialEq, Eq, Structural)]
pub enum NFTError {
    /// The caller of a mint is not the registry owner.
    Unauthorized,
    InvalidNameLength,
    InvalidSymbolLength,
    InvalidURILength,
    /// The registry exists already.
    AlreadyInitialized,
    /// No registry exists yet.
    NotInitialized,
    /// An address derived for a new item cannot be found or is in use.
    AddressUnavailable,
    /// The mint counter is at its largest value.
    CountOverflow,
    /// No item has the given issuer.
    UnknownItem,
    /// The caller does not hold the item.
    NotHolder,
}

/// The caller of `initialize`.
pub struct Initialize {
    pub signer: Identity,
}

/// The caller of `mint_nft` and the identity that receives the new item.
pub struct MintNFT {
    pub signer: Identity,
    pub receiver: Identity,
}

/// The caller of `transfer_nft`, the item's issuer, and the destination.
pub struct TransferNFT {
    pub signer: Identity,
    pub mint: Identity,
    pub to: Identity,
}

/// A minted item: its issuer, the address of its record, and the record.
#[derive(Debug)]
pub struct Item {
    pub mint: Identity,
    pub record: Identity,
    pub data: NFTData,
}

/// What a mint hands back: the new issuer with the bump and counter value that
/// sign for it, the record's address, and the ledger instructions to run.
#[derive(Debug)]
pub struct Minted {
    pub mint: Identity,
    pub bump: u8,
    pub seed_count: u64,
    pub record: Identity,
    pub actions: Vec<LedgerAction>,
}

/// The program's whole state: its id, the registry once created, the minted
/// items in mint order, and the ledger's state for their issuers.
pub struct NftProgram {
    pub program_id: Identity,
    pub nft_info: Option<NFTInfo>,
    pub items: Vec<Item>,
    pub ledger: Ghost<Ledger>,
}

/// The ledger agrees with an item's record: one unit was ever issued, no more
/// can be, and it sits with the recorded holder.
pub open spec fn settled(l: Ledger, it: Item) -> bool {
    &&& l.issuers.contains_key(it.mint)
    &&& l.issuers[it.mint] == (IssuerState { authority: None, decimals: DECIMALS, supply: 1 })
    &&& l.balances.contains_key((it.mint, it.data.current_holder))
    &&& forall|h: Identity| #[trigger]
        l.balances.contains_key((it.mint, h)) ==> l.balances[(it.mint, h)] == (if h
            == it.data.current_holder {
            1nat
        } else {
            0nat
        })
}

/// The instructions of one mint of `mint` to `receiver`.
pub open spec fn mint_actions(mint: Identity, receiver: Identity) -> Seq<LedgerAction> {
    seq![
        LedgerAction::CreateIssuer { issuer: mint, authority: mint, decimals: DECIMALS },
        LedgerAction::EnsureAccount { issuer: mint, holder: receiver },
        LedgerAction::Issue { issuer: mint, holder: receiver, amount: 1, signer: mint },
        LedgerAction::RevokeIssuance { issuer: mint, signer: mint },
    ]
}

/// The instructions of one transfer of the item of `mint` from `from` to `to`.
pub open spec fn transfer_actions(mint: Identity, from: Identity, to: Identity) -> Seq<LedgerAction> {
    seq![
        LedgerAction::EnsureAccount { issuer: mint, holder: to },
        LedgerAction::Move { issuer: mint, from, to, amount: 1, decimals: DECIMALS },
    ]
}

impl NftProgram {
    pub open spec fn mint_taken(self, m: Seq<u8>) -> bool {
        exists|i: int| 0 <= i < self.items@.len() && (#[trigger] self.items@[i]).mint.bytes@ == m
    }

    pub open spec fn record_taken(self, a: Seq<u8>) -> bool {
        exists|i: int| 0 <= i < self.items@.len() && (#[trigger] self.items@[i]).record.bytes@ == a
    }

    pub open spec fn has_mint(self, m: Identity) -> bool {
        exists|i: int| 0 <= i < self.items@.len() && (#[trigger] self.items@[i]).mint == m
    }

    /// The state's invariant: the counter counts the items, every item was minted
    /// by the owner, issuers and record addresses are unique, and the ledger
    /// agrees with every record.
    pub open spec fn wf(self) -> bool {
        let items = self.items@;
        let l = self.ledger@;
        &&& match self.nft_info {
            None => items.len() == 0,
            Some(info) => info.count == items.len() && forall|i: int|
                0 <= i < items.len() ==> (#[trigger] items[i]).data.minter == info.owner,
        }
        &&& forall|i: int, j: int|
            0 <= i < j < items.len() ==> (#[trigger] items[i]).mint != (#[trigger] items[j]).mint
                && items[i].record != items[j].record
        &&& forall|i: int| 0 <= i < items.len() ==> settled(l, #[trigger] items[i])
        &&& forall|k: Identity| #[trigger] l.issuers.contains_key(k) ==> self.has_mint(k)
        &&& forall|k: (Identity, Identity)| #[trigger]
            l.balances.contains_key(k) ==> l.issuers.contains_key(k.0)
    }

    /// A program with no registry and no items.
    pub fn new(program_id: Identity) -> (r: NftProgram)
        ensures
            r.wf(),
            r.program_id == program_id,
            r.nft_info is None,
            r.items@.len() == 0,
            r.ledger@ == empty_ledger(),
    {
        NftProgram { program_id, nft_info: None, items: Vec::new(), ledger: Ghost(empty_ledger()) }
    }

    fn mint_in_use(&self, m: &Identity) -> (r: bool)
        ensures
            r == self.mint_taken(m.bytes@),
    {
        let mut i: usize = 0;
        while i < self.items.len()
            invariant
                0 <= i <= self.items@.len(),
                forall|j: int| 0 <= j < i ==> self.items@[j].mint != *m,
            decreases self.items@.len() - i,
        {
            if self.items[i].mint.same(m) {
                return true;
            }
            i = i + 1;
        }
        proof {
            if self.mint_taken(m.bytes@) {
                let j = choose|j: int| 0 <= j < self.items@.len() && (#[trigger] self.items@[j]).mint.bytes@ == m.bytes@;
                lemma_identity_bytes(self.items@[j].mint, *m);
            }
        }
        false
    }

    fn record_in_use(&self, a: &Identity) -> (r: bool)
        ensures
            r == self.record_taken(a.bytes@),
    {
        let mut i: usize = 0;
        while i < self.items.len()
            invariant
                0 <= i <= self.items@.len(),
                forall|j: int| 0 <= j < i ==> self.items@[j].record != *a,
            decreases self.items@.len() - i,
        {
            if self.items[i].record.same(a) {
                return true;
            }
            i = i + 1;
        }
        proof {
            if self.record_taken(a.bytes@) {
                let j = choose|j: int| 0 <= j < self.items@.len() && (#[trigger] self.items@[j]).record.bytes@ == a.bytes@;
                lemma_identity_bytes(self.items@[j].record, *a);
            }
        }
        false
    }

    /// The position of the item whose issuer is `m`.
    pub fn find_item(&self, m: &Identity) -> (r: Option<usize>)
        ensures
            match r {
                Some(i) => i < self.items@.len() && self.items@[i as int].mint == *m,
                None => !self.has_mint(*m),
            },
    {
        let mut i: usize = 0;
        while i < self.items.len()
            invariant
                0 <= i <= self.items@.len(),
                forall|j: int| 0 <= j < i ==> self.items@[j].mint != *m,
            decreases self.items@.len() - i,
        {
            if self.items[i].mint.same(m) {
                return Some(i);
            }
            i = i + 1;
        }
        None
    }
}

/// The error that a mint by `signer` ends in, if any, checked in this order:
/// no registry, a caller other than the owner, an issuer or record address that
/// cannot be derived or is in use, a counter at its largest value.
pub open spec fn mint_error(p: NftProgram, signer: Identity) -> Option<NFTError> {
    match p.nft_info {
        None => Some(NFTError::NotInitialized),
        Some(info) => if signer != info.owner {
            Some(NFTError::Unauthorized)
        } else {
            match program_address(p.program_id.bytes@, count_seed(info.count)) {
                None => Some(NFTError::AddressUnavailable),
                Some((m, _)) => match program_address(p.program_id.bytes@, m) {
                    None => Some(NFTError::AddressUnavailable),
                    Some((rec, _)) => if p.mint_taken(m) || p.record_taken(rec) {
                        Some(NFTError::AddressUnavailable)
                    } else if info.count == u64::MAX {
                        Some(NFTError::CountOverflow)
                    } else {
                        None
                    },
                },
            }
        },
    }
}

/// Creates the registry, owned by the caller, with a count of zero.
pub fn initialize(program: &mut NftProgram, ctx: &Initialize) -> (r: Result<(), NFTError>)
    requires
        old(program).wf(),
    ensures
        final(program).wf(),
        r is Err <==> old(program).nft_info is Some,
        r matches Err(e) ==> e == NFTError::AlreadyInitialized && *final(program) == *old(program),
        r is Ok ==> final(program).nft_info == Some(NFTInfo { count: 0, owner: ctx.signer })
            && final(program).program_id == old(program).program_id && final(program).items
            == old(program).items && final(program).ledger == old(program).ledger,
{
    if program.nft_info.is_some() {
        return Err(NFTError::AlreadyInitialized);
    }
    program.nft_info = Some(NFTInfo { count: 0, owner: ctx.signer });
    Ok(())
}

/// The error that minting at the issuer `mint` with its record at `record` ends
/// in, if any, checked in this order: no registry, a caller other than the owner,
/// an issuer or record address in use, a counter at its largest value.
pub open spec fn placement_error(p: NftProgram, signer: Identity, mint: Identity, record: Identity) -> Option<NFTError> {
    match p.nft_info {
        None => Some(NFTError::NotInitialized),
        Some(info) => if signer != info.owner {
            Some(NFTError::Unauthorized)
        } else if p.mint_taken(mint.bytes@) || p.record_taken(record.bytes@) {
            Some(NFTError::AddressUnavailable)
        } else if info.count == u64::MAX {
            Some(NFTError::CountOverflow)
        } else {
            None
        },
    }
}

/// Mints a new item for `ctx.receiver` whose issuer is `mint`, signed for with
/// `bump`, and whose record stands at `record`. The ledger is told to create the
/// issuer, issue exactly one unit to the receiver and revoke the issuer's
/// authority for good; the registry counts one more item. On any error nothing
/// changes.
pub fn mint_at(
    program: &mut NftProgram,
    ctx: &MintNFT,
    mint: Identity,
    bump: u8,
    record: Identity,
    name: String,
    symbol: String,
    uri: String,
) -> (r: Result<Minted, NFTError>)
    requires
        old(program).wf(),
    ensures
        final(program).wf(),
        final(program).program_id == old(program).program_id,
        r is Err <==> placement_error(*old(program), ctx.signer, mint, record) is Some,
        r matches Err(e) ==> placement_error(*old(program), ctx.signer, mint, record) == Some(e)
            && *final(program) == *old(program),
        r matches Ok(m) ==> {
            let info = old(program).nft_info->0;
            &&& m.mint == mint && m.bump == bump && m.record == record
            &&& m.seed_count == info.count
            &&& m.actions@ == mint_actions(mint, ctx.receiver)
            &&& final(program).nft_info == Some(NFTInfo { count: (info.count + 1) as u64, owner: info.owner })
            &&& final(program).items@ == old(program).items@.push(
                (Item {
                    mint,
                    record,
                    data: NFTData { name, symbol, uri, minter: ctx.signer, current_holder: ctx.receiver },
                }),
            )
            &&& run(old(program).ledger@, m.actions@) == Some(final(program).ledger@)
            &&& final(program).ledger@.issuers[mint] == (IssuerState { authority: None, decimals: DECIMALS, supply: 1 })
            &&& balance_of(final(program).ledger@, mint, ctx.receiver) == 1
            &&& final(program).ledger@.balances.dom() == old(program).ledger@.balances.dom().insert((mint, ctx.receiver))
        },
{
    let info = match &program.nft_info {
        None => return Err(NFTError::NotInitialized),
        Some(i) => *i,
    };
    if !ctx.signer.same(&info.owner) {
        return Err(NFTError::Unauthorized);
    }
    if program.mint_in_use(&mint) || program.record_in_use(&record) {
        return Err(NFTError::AddressUnavailable);
    }
    if info.count == u64::MAX {
        return Err(NFTError::CountOverflow);
    }
    let receiver = ctx.receiver;
    let mut actions: Vec<LedgerAction> = Vec::new();
    actions.push(LedgerAction::CreateIssuer { issuer: mint, authority: mint, decimals: DECIMALS });
    actions.push(LedgerAction::EnsureAccount { issuer: mint, holder: receiver });
    actions.push(LedgerAction::Issue { issuer: mint, holder: receiver, amount: 1, signer: mint });
    actions.push(LedgerAction::RevokeIssuance { issuer: mint, signer: mint });
    let ghost l0 = program.ledger@;
    let ghost l4 = Ledger {
        issuers: l0.issuers.insert(mint, IssuerState { authority: None, decimals: DECIMALS, supply: 1 }),
        balances: l0.balances.insert((mint, receiver), 1),
    };
    proof {
        assert(actions@ =~= mint_actions(mint, receiver));
        if l0.issuers.contains_key(mint) {
            let i = choose|i: int| 0 <= i < program.items@.len() && (#[trigger] program.items@[i]).mint == mint;
            assert(program.mint_taken(mint.bytes@));
        }
        assert(!l0.balances.contains_key((mint, receiver)));
        let a = actions@;
        let l1 = Ledger {
            issuers: l0.issuers.insert(mint, IssuerState { authority: Some(mint), decimals: DECIMALS, supply: 0 }),
            balances: l0.balances,
        };
        let l2 = Ledger { issuers: l1.issuers, balances: l0.balances.insert((mint, receiver), 0) };
        let l3 = Ledger {
            issuers: l0.issuers.insert(mint, IssuerState { authority: Some(mint), decimals: DECIMALS, supply: 1 }),
            balances: l0.balances.insert((mint, receiver), 1),
        };
        assert(step(l0, a[0]) == Some(l1));
        assert(step(l1, a[1]) == Some(l2));
        assert(l2.issuers.insert(mint, IssuerState { authority: Some(mint), decimals: DECIMALS, supply: 1 }) =~= l3.issuers);
        assert(l2.balances.insert((mint, receiver), 1) =~= l3.balances);
        assert(step(l2, a[2]) == Some(l3));
        assert(l3.issuers.insert(mint, IssuerState { authority: None, decimals: DECIMALS, supply: 1 }) =~= l4.issuers);
        assert(step(l3, a[3]) == Some(l4));
        let s1 = a.drop_first();
        let s2 = s1.drop_first();
        let s3 = s2.drop_first();
        assert(s1[0] == a[1] && s2[0] == a[2] && s3[0] == a[3]);
        assert(s3.drop_first().len() == 0);
        assert(run(l4, s3.drop_first()) == Some(l4));
        assert(run(l3, s3) == Some(l4));
        assert(run(l2, s2) == Some(l4));
        assert(run(l1, s1) == Some(l4));
        assert(run(l0, a) == Some(l4));
    }
    let item = Item {
        mint,
        record,
        data: NFTData { name, symbol, uri, minter: ctx.signer, current_holder: receiver },
    };
    let ghost old_items = program.items@;
    program.items.push(item);
    program.nft_info = Some(NFTInfo { count: info.count + 1, owner: info.owner });
    program.ledger = Ghost(l4);
    proof {
        assert(l4.balances.dom() =~= l0.balances.dom().insert((mint, receiver)));
        let items = program.items@;
        let n = old_items.len();
        assert forall|i: int| 0 <= i < n implies items[i].mint != mint && items[i].record != record by {
            assert(items[i] == old_items[i]);
            if items[i].mint == mint {
                assert(old_items[i].mint.bytes@ == mint.bytes@);
            }
            if items[i].record == record {
                assert(old_items[i].record.bytes@ == record.bytes@);
            }
        }
        assert forall|i: int| 0 <= i < items.len() implies settled(l4, #[trigger] items[i]) by {
            if i < n {
                assert(items[i] == old_items[i]);
                assert(settled(l0, old_items[i]));
                assert forall|h: Identity| #[trigger] l4.balances.contains_key((items[i].mint, h)) implies l4.balances[(items[i].mint, h)] == (if h == items[i].data.current_holder { 1nat } else { 0nat }) by {
                    assert(l0.balances.contains_key((old_items[i].mint, h)));
                }
            } else {
                assert forall|h: Identity| #[trigger] l4.balances.contains_key((mint, h)) implies l4.balances[(mint, h)] == (if h == receiver { 1nat } else { 0nat }) by {
                    if h != receiver {
                        assert(l0.balances.contains_key((mint, h)));
                    }
                }
            }
        }
        assert forall|k: Identity| #[trigger] l4.issuers.contains_key(k) implies program.has_mint(k) by {
            if k == mint {
                assert(items[n as int].mint == mint);
            } else {
                assert(l0.issuers.contains_key(k));
                let i = choose|i: int| 0 <= i < old_items.len() && (#[trigger] old_items[i]).mint == k;
                assert(items[i] == old_items[i]);
            }
        }
        assert forall|k: (Identity, Identity)| #[trigger] l4.balances.contains_key(k) implies l4.issuers.contains_key(k.0) by {
            if k != (mint, receiver) {
                assert(l0.balances.contains_key(k));
            }
        }
    }
    Ok(Minted { mint, bump, seed_count: info.count, record, actions })
}

/// Mints a new item for `ctx.receiver`: the issuer is derived from the current
/// count and the record's address from the issuer, then `mint_at` does the rest.
/// On any error nothing changes.
pub fn mint_nft(program: &mut NftProgram, ctx: &MintNFT, name: String, symbol: String, uri: String) -> (r: Result<Minted, NFTError>)
    requires
        old(program).wf(),
    ensures
        final(program).wf(),
        final(program).program_id == old(program).program_id,
        r is Err <==> mint_error(*old(program), ctx.signer) is Some,
        r matches Err(e) ==> mint_error(*old(program), ctx.signer) == Some(e) && *final(program)
            == *old(program),
        r matches Ok(m) ==> {
            let info = old(program).nft_info->0;
            let pid = old(program).program_id.bytes@;
            &&& program_address(pid, count_seed(info.count)) == Some((m.mint.bytes@, m.bump))
            &&& program_address(pid, m.mint.bytes@) matches Some((rec, _)) && rec == m.record.bytes@
            &&& m.seed_count == info.count
            &&& m.actions@ == mint_actions(m.mint, ctx.receiver)
            &&& final(program).nft_info == Some(NFTInfo { count: (info.count + 1) as u64, owner: info.owner })
            &&& final(program).items@ == old(program).items@.push(
                (Item {
                    mint: m.mint,
                    record: m.record,
                    data: NFTData { name, symbol, uri, minter: ctx.signer, current_holder: ctx.receiver },
                }),
            )
            &&& run(old(program).ledger@, m.actions@) == Some(final(program).ledger@)
            &&& final(program).ledger@.issuers[m.mint] == (IssuerState { authority: None, decimals: DECIMALS, supply: 1 })
            &&& balance_of(final(program).ledger@, m.mint, ctx.receiver) == 1
            &&& final(program).ledger@.balances.dom() == old(program).ledger@.balances.dom().insert((m.mint, ctx.receiver))
        },
{
    let info = match &program.nft_info {
        None => return Err(NFTError::NotInitialized),
        Some(i) => *i,
    };
    if !ctx.signer.same(&info.owner) {
        return Err(NFTError::Unauthorized);
    }
    let seed = count_seed_bytes(info.count);
    let (mint, bump) = match find_address(&program.program_id, seed.as_slice()) {
        None => return Err(NFTError::AddressUnavailable),
        Some(found) => found,
    };
    let (record, _) = match find_address(&program.program_id, mint.bytes.as_slice()) {
        None => return Err(NFTError::AddressUnavailable),
        Some(found) => found,
    };
    mint_at(program, ctx, mint, bump, record, name, symbol, uri)
}

/// Passes custody of the item of `ctx.mint` from its holder, the caller, to
/// `ctx.to`: the ledger is told to create the destination's custody account if
/// needed and to move the one unit, and the record names the new holder. On any
/// error nothing changes.
pub fn transfer_nft(program: &mut NftProgram, ctx: &TransferNFT) -> (r: Result<Vec<LedgerAction>, NFTError>)
    requires
        old(program).wf(),
    ensures
        final(program).wf(),
        final(program).program_id == old(program).program_id,
        final(program).nft_info == old(program).nft_info,
        r matches Err(NFTError::UnknownItem) <==> !old(program).has_mint(ctx.mint),
        r matches Err(NFTError::NotHolder) <==> exists|i: int|
            0 <= i < old(program).items@.len() && (#[trigger] old(program).items@[i]).mint == ctx.mint
                && old(program).items@[i].data.current_holder != ctx.signer,
        r is Err ==> (r matches Err(NFTError::UnknownItem) || r matches Err(NFTError::NotHolder))
            && *final(program) == *old(program),
        r matches Ok(actions) ==> {
            &&& actions@ == transfer_actions(ctx.mint, ctx.signer, ctx.to)
            &&& run(old(program).ledger@, actions@) == Some(final(program).ledger@)
            &&& final(program).ledger@.issuers == old(program).ledger@.issuers
            &&& balance_of(final(program).ledger@, ctx.mint, ctx.to) == 1
            &&& ctx.signer != ctx.to ==> balance_of(final(program).ledger@, ctx.mint, ctx.signer) == 0
            &&& final(program).ledger@.balances.dom() == old(program).ledger@.balances.dom().insert((ctx.mint, ctx.to))
            &&& exists|i: int|
                0 <= i < old(program).items@.len() && (#[trigger] old(program).items@[i]).mint == ctx.mint
                    && old(program).items@[i].data.current_holder == ctx.signer
                    && final(program).items@ == old(program).items@.update(
                    i,
                    (Item {
                        mint: ctx.mint,
                        record: old(program).items@[i].record,
                        data: NFTData { current_holder: ctx.to, ..old(program).items@[i].data },
                    }),
                )
        },
{
    let i = match program.find_item(&ctx.mint) {
        None => return Err(NFTError::UnknownItem),
        Some(i) => i,
    };
    proof {
        assert forall|j: int| 0 <= j < program.items@.len() && (#[trigger] program.items@[j]).mint == ctx.mint implies j == i by {
            if j < i {
                assert(program.items@[j].mint != program.items@[i as int].mint);
            } else if j > i {
                assert(program.items@[i as int].mint != program.items@[j].mint);
            }
        }
    }
    if !program.items[i].data.current_holder.same(&ctx.signer) {
        return Err(NFTError::NotHolder);
    }
    let mint = ctx.mint;
    let from = ctx.signer;
    let to = ctx.to;
    let mut actions: Vec<LedgerAction> = Vec::new();
    actions.push(LedgerAction::EnsureAccount { issuer: mint, holder: to });
    actions.push(LedgerAction::Move { issuer: mint, from, to, amount: 1, decimals: DECIMALS });
    let ghost old_items = program.items@;
    let ghost l0 = program.ledger@;
    let ghost l1 = if l0.balances.contains_key((mint, to)) {
        l0
    } else {
        Ledger { issuers: l0.issuers, balances: l0.balances.insert((mint, to), 0) }
    };
    let ghost taken = l1.balances.insert((mint, from), 0);
    let ghost l2 = Ledger { issuers: l0.issuers, balances: taken.insert((mint, to), 1) };
    proof {
        let a = actions@;
        assert(a =~= transfer_actions(mint, from, to));
        assert(settled(l0, old_items[i as int]));
        assert(step(l0, a[0]) == Some(l1));
        assert(l1.balances[(mint, to)] == 0 || to == from);
        assert(taken[(mint, to)] == 0);
        assert(step(l1, a[1]) == Some(l2));
        let s1 = a.drop_first();
        assert(s1[0] == a[1]);
        assert(s1.drop_first().len() == 0);
        assert(run(l2, s1.drop_first()) == Some(l2));
        assert(run(l1, s1) == Some(l2));
        assert(run(l0, a) == Some(l2));
    }
    let mut it = program.items.remove(i);
    it.data.current_holder = to;
    program.items.insert(i, it);
    program.ledger = Ghost(l2);
    proof {
        assert(l2.balances.dom() =~= l0.balances.dom().insert((mint, to)));
        let items = program.items@;
        assert(items =~= old_items.update(
            i as int,
            Item {
                mint,
                record: old_items[i as int].record,
                data: NFTData { current_holder: to, ..old_items[i as int].data },
            },
        ));
        assert forall|j: int| 0 <= j < items.len() implies items[j].mint == old_items[j].mint
            && items[j].record == old_items[j].record && items[j].data.minter == old_items[j].data.minter by {}
        assert forall|j: int| 0 <= j < items.len() implies settled(l2, #[trigger] items[j]) by {
            assert(settled(l0, old_items[j]));
            if j == i {
                assert forall|h: Identity| #[trigger] l2.balances.contains_key((mint, h)) implies l2.balances[(mint, h)] == (if h == to { 1nat } else { 0nat }) by {
                    if h != to && h != from {
                        assert(l0.balances.contains_key((mint, h)));
                    }
                }
            } else {
                assert(old_items[j].mint != mint);
                assert forall|h: Identity| #[trigger] l2.balances.contains_key((items[j].mint, h)) implies l2.balances[(items[j].mint, h)] == (if h == items[j].data.current_holder { 1nat } else { 0nat }) by {
                    assert(l0.balances.contains_key((old_items[j].mint, h)));
                }
            }
        }
        assert forall|k: Identity| #[trigger] l2.issuers.contains_key(k) implies program.has_mint(k) by {
            let j = choose|j: int| 0 <= j < old_items.len() && (#[trigger] old_items[j]).mint == k;
            assert(items[j].mint == k);
        }
        assert forall|k: (Identity, Identity)| #[trigger] l2.balances.contains_key(k) implies l2.issuers.contains_key(k.0) by {
            if k != (mint, to) && k != (mint, from) {
                assert(l0.balances.contains_key(k));
            }
        }
        assert(old_items[i as int].mint == ctx.mint);
    }
    Ok(actions)
}

/// In every reachable state the registry's count equals the number of records,
/// no two records share an issuer or an address, and every record names the
/// registry owner, who never changes, as its minter.
pub proof fn lemma_count_matches_records(p: NftProgram)
    requires
        p.wf(),
        p.nft_info is Some,
    ensures
        p.nft_info->0.count == p.items@.len(),
        forall|i: int, j: int|
            0 <= i < p.items@.len() && 0 <= j < p.items@.len() && i != j ==> p.items@[i].mint
                != p.items@[j].mint && p.items@[i].record != p.items@[j].record,
        forall|i: int| 0 <= i < p.items@.len() ==> p.items@[i].data.minter == p.nft_info->0.owner,
{
    assert forall|i: int, j: int|
        0 <= i < p.items@.len() && 0 <= j < p.items@.len() && i != j implies p.items@[i].mint
            != p.items@[j].mint && p.items@[i].record != p.items@[j].record by {
        if i < j {
            assert(p.items@[i].mint != p.items@[j].mint);
        } else {
            assert(p.items@[j].mint != p.items@[i].mint);
        }
    }
    assert forall|i: int| 0 <= i < p.items@.len() implies p.items@[i].data.minter == p.nft_info->0.owner by {
        assert(p.items@[i].data.minter == p.nft_info->0.owner);
    }
}

/// Every minted item has had exactly one unit issued, held by its recorded
/// holder; issuing again from its issuer aborts, whoever signs and whatever the
/// amount, and so does creating that issuer again.
pub proof fn lemma_supply_is_one(
    p: NftProgram,
    i: int,
    holder: Identity,
    amount: u64,
    signer: Identity,
    authority: Identity,
    decimals: u8,
)
    requires
        p.wf(),
        0 <= i < p.items@.len(),
    ensures
        p.ledger@.issuers[p.items@[i].mint].supply == 1,
        balance_of(p.ledger@, p.items@[i].mint, p.items@[i].data.current_holder) == 1,
        holder != p.items@[i].data.current_holder ==> balance_of(p.ledger@, p.items@[i].mint, holder) == 0,
        step(p.ledger@, LedgerAction::Issue { issuer: p.items@[i].mint, holder, amount, signer }) is None,
        step(p.ledger@, LedgerAction::CreateIssuer { issuer: p.items@[i].mint, authority, decimals }) is None,
{
    assert(settled(p.ledger@, p.items@[i]));
}

} // verus!
