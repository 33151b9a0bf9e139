use anchor_lang::prelude::Pubkey;
use owned_nft::identity::{count_seed_bytes, Identity};
use owned_nft::ledger::LedgerAction;
use owned_nft::program::{
    initialize, mint_at, mint_nft, transfer_nft, Initialize, MintNFT, NFTError, NftProgram, TransferNFT,
};

fn id(b: u8) -> Identity {
    Identity::new([b; 32])
}

fn program_id() -> Identity {
    id(7)
}

fn started(owner: Identity) -> NftProgram {
    let mut p = NftProgram::new(program_id());
    initialize(&mut p, &Initialize { signer: owner }).unwrap();
    p
}

fn mint(p: &mut NftProgram, signer: Identity, receiver: Identity, name: &str) -> Result<owned_nft::program::Minted, NFTError> {
    mint_nft(
        p,
        &MintNFT { signer, receiver },
        name.to_string(),
        format!("S{}", name),
        format!("uri://{}", name),
    )
}

fn expected_mint(count: u64) -> (Identity, u8) {
    let (k, b) = Pubkey::find_program_address(&[&count.to_le_bytes()], &Pubkey::new_from_array(program_id().bytes));
    (Identity::new(k.to_bytes()), b)
}

#[test]
fn initialize_sets_owner_and_zero_count() {
    let o = id(1);
    let p = started(o);
    let info = p.nft_info.unwrap();
    assert_eq!(info.count, 0);
    assert_eq!(info.owner.bytes, o.bytes);
    assert!(p.items.is_empty());
}

#[test]
fn initialize_twice_fails() {
    let mut p = started(id(1));
    assert_eq!(initialize(&mut p, &Initialize { signer: id(2) }), Err(NFTError::AlreadyInitialized));
    assert_eq!(p.nft_info.unwrap().owner.bytes, id(1).bytes);
}

#[test]
fn mint_before_initialize_fails() {
    let mut p = NftProgram::new(program_id());
    assert!(matches!(mint(&mut p, id(1), id(2), "Art1"), Err(NFTError::NotInitialized)));
    assert!(p.items.is_empty());
}

#[test]
fn count_seed_is_little_endian() {
    assert_eq!(count_seed_bytes(0x0102030405060708), vec![8, 7, 6, 5, 4, 3, 2, 1]);
    assert_eq!(count_seed_bytes(0), vec![0; 8]);
    assert_eq!(count_seed_bytes(u64::MAX), vec![255; 8]);
}

#[test]
fn identity_comparison() {
    let mut b = [3u8; 32];
    assert!(Identity::new(b).same(&id(3)));
    b[31] = 4;
    assert!(!Identity::new(b).same(&id(3)));
}

#[test]
fn mint_derives_issuer_from_count() {
    let o = id(1);
    let mut p = started(o);
    let m = mint(&mut p, o, id(2), "Art1").unwrap();
    let (k, b) = expected_mint(0);
    assert_eq!(m.mint.bytes, k.bytes);
    assert_eq!(m.bump, b);
    assert_eq!(m.seed_count, 0);
    let (rec, _) = Pubkey::find_program_address(&[&k.bytes], &Pubkey::new_from_array(program_id().bytes));
    assert_eq!(m.record.bytes, rec.to_bytes());
    assert_ne!(m.mint.bytes, program_id().bytes);
}

#[test]
fn mint_issues_one_unit_and_revokes() {
    let o = id(1);
    let r = id(2);
    let mut p = started(o);
    let m = mint(&mut p, o, r, "Art1").unwrap();
    assert_eq!(m.actions.len(), 4);
    match m.actions[0] {
        LedgerAction::CreateIssuer { issuer, authority, decimals } => {
            assert!(issuer.same(&m.mint) && authority.same(&m.mint));
            assert_eq!(decimals, 0);
        }
        _ => panic!("first instruction creates the issuer"),
    }
    match m.actions[1] {
        LedgerAction::EnsureAccount { issuer, holder } => assert!(issuer.same(&m.mint) && holder.same(&r)),
        _ => panic!("second instruction ensures the receiver's account"),
    }
    match m.actions[2] {
        LedgerAction::Issue { issuer, holder, amount, signer } => {
            assert!(issuer.same(&m.mint) && holder.same(&r) && signer.same(&m.mint));
            assert_eq!(amount, 1);
        }
        _ => panic!("third instruction issues one unit"),
    }
    match m.actions[3] {
        LedgerAction::RevokeIssuance { issuer, signer } => assert!(issuer.same(&m.mint) && signer.same(&m.mint)),
        _ => panic!("fourth instruction revokes issuance"),
    }
}

#[test]
fn n_mints_give_n_distinct_records() {
    let o = id(1);
    let mut p = started(o);
    for n in 0..3u8 {
        mint(&mut p, o, id(10 + n), "Art").unwrap();
    }
    assert_eq!(p.nft_info.unwrap().count, 3);
    assert_eq!(p.items.len(), 3);
    for i in 0..3 {
        assert_eq!(p.items[i].data.minter.bytes, o.bytes);
        assert_eq!(p.items[i].mint.bytes, expected_mint(i as u64).0.bytes);
        for j in 0..3 {
            if i != j {
                assert!(!p.items[i].mint.same(&p.items[j].mint));
                assert!(!p.items[i].record.same(&p.items[j].record));
            }
        }
    }
}

#[test]
fn unauthorized_mint_changes_nothing() {
    let o = id(1);
    let mut p = started(o);
    mint(&mut p, o, id(2), "Art1").unwrap();
    assert!(matches!(mint(&mut p, id(2), id(2), "Fake"), Err(NFTError::Unauthorized)));
    assert_eq!(p.nft_info.unwrap().count, 1);
    assert_eq!(p.items.len(), 1);
}

#[test]
fn transfer_moves_one_unit_and_updates_holder() {
    let o = id(1);
    let (r1, r2) = (id(2), id(3));
    let mut p = started(o);
    let m = mint(&mut p, o, r1, "Art1").unwrap();
    let actions = transfer_nft(&mut p, &TransferNFT { signer: r1, mint: m.mint, to: r2 }).unwrap();
    assert_eq!(actions.len(), 2);
    match actions[0] {
        LedgerAction::EnsureAccount { issuer, holder } => assert!(issuer.same(&m.mint) && holder.same(&r2)),
        _ => panic!("first instruction ensures the destination's account"),
    }
    match actions[1] {
        LedgerAction::Move { issuer, from, to, amount, decimals } => {
            assert!(issuer.same(&m.mint) && from.same(&r1) && to.same(&r2));
            assert_eq!((amount, decimals), (1, 0));
        }
        _ => panic!("second instruction moves the unit"),
    }
    assert!(p.items[0].data.current_holder.same(&r2));
    assert!(p.items[0].data.minter.same(&o));
    assert_eq!(p.nft_info.unwrap().count, 1);
}

#[test]
fn transfer_by_non_holder_fails() {
    let o = id(1);
    let mut p = started(o);
    let m = mint(&mut p, o, id(2), "Art1").unwrap();
    assert!(matches!(transfer_nft(&mut p, &TransferNFT { signer: o, mint: m.mint, to: o }), Err(NFTError::NotHolder)));
    assert!(p.items[0].data.current_holder.same(&id(2)));
}

#[test]
fn transfer_of_unknown_item_fails() {
    let mut p = started(id(1));
    assert!(matches!(transfer_nft(&mut p, &TransferNFT { signer: id(1), mint: id(9), to: id(2) }), Err(NFTError::UnknownItem)));
}

#[test]
fn transfers_toward_existing_accounts_succeed() {
    let o = id(1);
    let (r1, r2) = (id(2), id(3));
    let mut p = started(o);
    let m = mint(&mut p, o, r1, "Art1").unwrap();
    transfer_nft(&mut p, &TransferNFT { signer: r1, mint: m.mint, to: r2 }).unwrap();
    transfer_nft(&mut p, &TransferNFT { signer: r2, mint: m.mint, to: r1 }).unwrap();
    transfer_nft(&mut p, &TransferNFT { signer: r1, mint: m.mint, to: r2 }).unwrap();
    transfer_nft(&mut p, &TransferNFT { signer: r2, mint: m.mint, to: r2 }).unwrap();
    assert!(p.items[0].data.current_holder.same(&r2));
    mint(&mut p, o, r2, "Art2").unwrap();
    assert_eq!(p.items.len(), 2);
}

#[test]
fn end_to_end_mint_transfer_and_second_mint() {
    let o = id(1);
    let (r1, r2) = (id(2), id(3));
    let mut p = NftProgram::new(program_id());
    initialize(&mut p, &Initialize { signer: o }).unwrap();
    assert_eq!(p.nft_info.unwrap().count, 0);
    let m = mint_nft(&mut p, &MintNFT { signer: o, receiver: r1 }, "Art1".to_string(), "A1".to_string(), "uri://1".to_string()).unwrap();
    assert_eq!(p.nft_info.unwrap().count, 1);
    let rec = &p.items[0];
    assert!(rec.mint.same(&m.mint) && rec.record.same(&m.record));
    assert_eq!(rec.data.name, "Art1");
    assert_eq!(rec.data.symbol, "A1");
    assert_eq!(rec.data.uri, "uri://1");
    assert!(rec.data.minter.same(&o) && rec.data.current_holder.same(&r1));
    transfer_nft(&mut p, &TransferNFT { signer: r1, mint: m.mint, to: r2 }).unwrap();
    assert!(p.items[0].data.current_holder.same(&r2));
    assert!(matches!(transfer_nft(&mut p, &TransferNFT { signer: r1, mint: m.mint, to: r2 }), Err(NFTError::NotHolder)));
    let second = mint_nft(&mut p, &MintNFT { signer: o, receiver: r1 }, "Art2".to_string(), "A2".to_string(), "uri://2".to_string()).unwrap();
    assert!(!second.mint.same(&m.mint));
    assert_eq!(second.seed_count, 1);
    assert_eq!(p.nft_info.unwrap().count, 2);
}

#[test]
fn mint_at_places_item_at_given_addresses() {
    let o = id(1);
    let mut p = started(o);
    let m = mint_at(&mut p, &MintNFT { signer: o, receiver: id(2) }, id(20), 9, id(21), "A".to_string(), "B".to_string(), "C".to_string()).unwrap();
    assert_eq!((m.mint.bytes, m.bump, m.record.bytes, m.seed_count), (id(20).bytes, 9, id(21).bytes, 0));
    assert_eq!(p.nft_info.unwrap().count, 1);
    assert!(p.items[0].mint.same(&id(20)) && p.items[0].record.same(&id(21)));
}

#[test]
fn mint_reusing_an_issuer_fails() {
    let o = id(1);
    let mut p = started(o);
    mint_at(&mut p, &MintNFT { signer: o, receiver: id(2) }, id(20), 9, id(21), "A".to_string(), "B".to_string(), "C".to_string()).unwrap();
    let again = mint_at(&mut p, &MintNFT { signer: o, receiver: id(3) }, id(20), 9, id(22), "A".to_string(), "B".to_string(), "C".to_string());
    assert!(matches!(again, Err(NFTError::AddressUnavailable)));
    let same_record = mint_at(&mut p, &MintNFT { signer: o, receiver: id(3) }, id(23), 9, id(21), "A".to_string(), "B".to_string(), "C".to_string());
    assert!(matches!(same_record, Err(NFTError::AddressUnavailable)));
    assert_eq!(p.nft_info.unwrap().count, 1);
    assert_eq!(p.items.len(), 1);
}

#[test]
fn mint_at_checks_registry_and_owner() {
    let mut fresh = NftProgram::new(program_id());
    let r = mint_at(&mut fresh, &MintNFT { signer: id(1), receiver: id(2) }, id(20), 9, id(21), "A".to_string(), "B".to_string(), "C".to_string());
    assert!(matches!(r, Err(NFTError::NotInitialized)));
    let mut p = started(id(1));
    let r = mint_at(&mut p, &MintNFT { signer: id(2), receiver: id(2) }, id(20), 9, id(21), "A".to_string(), "B".to_string(), "C".to_string());
    assert!(matches!(r, Err(NFTError::Unauthorized)));
    assert!(p.items.is_empty());
}
