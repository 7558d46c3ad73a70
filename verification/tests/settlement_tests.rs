use matching::decimal::Decimal;
use matching::settlement::{
    get_match_fills, get_remaining_accounts, outcome_mint_of, to_u64_amount, MarketKeys,
};
use matching::types::{ShareType, Trade};

fn dec(units: i128) -> Decimal {
    Decimal::from_units(units)
}

fn trade(buyer: &str, seller: &str, price_units: i128, qty_units: i128) -> Trade {
    Trade {
        market_id: 1,
        buyer_address: buyer.to_string(),
        seller_address: seller.to_string(),
        price: dec(price_units),
        quantity: dec(qty_units),
    }
}

const BUYER: &str = "TokenkegQfeZyiNwAJbNbGKPFXCWuBvf9Ss623VQ5DA";
const SELLER: &str = "4zMMC9srt5Ri5X14GAgXhaHii3GnPAEERYPJgZJDncDU";

fn keys() -> MarketKeys {
    MarketKeys {
        collateral_mint: vec![1u8; 32],
        yes_mint: vec![2u8; 32],
        no_mint: vec![3u8; 32],
    }
}

#[test]
fn amounts_truncate_to_millionths() {
    assert_eq!(to_u64_amount(&dec(2_500_000)), Some(2_500_000));
    assert_eq!(to_u64_amount(&dec(0)), Some(0));
    assert_eq!(to_u64_amount(&dec(-1)), None);
    assert_eq!(to_u64_amount(&dec(u64::MAX as i128)), Some(u64::MAX));
    assert_eq!(to_u64_amount(&dec(u64::MAX as i128 + 1)), None);
}

#[test]
fn match_fills_mirror_trades_in_order() {
    let trades = vec![
        trade("A", "B", 550_000, 4_000_000),
        trade("A", "C", 550_000, 1_000_000),
    ];
    let fills = get_match_fills(&trades, ShareType::Yes).unwrap();
    assert_eq!(fills.len(), 2);
    assert_eq!(fills[0].shares, 4_000_000);
    assert_eq!(fills[0].price, 550_000);
    assert_eq!(fills[0].side, ShareType::Yes);
    assert_eq!(fills[1].shares, 1_000_000);
    assert_eq!(fills[1].price, 550_000);
    assert_eq!(fills[1].side, ShareType::Yes);

    let bad = vec![trade("A", "B", 550_000, -1)];
    assert!(get_match_fills(&bad, ShareType::Yes).is_none());
}

#[test]
fn remaining_accounts_layout() {
    let trades = vec![trade(BUYER, SELLER, 550_000, 4_000_000)];
    let keys = keys();
    let accounts = get_remaining_accounts(&trades, ShareType::Yes, &keys).unwrap();
    assert_eq!(accounts.len(), 6);
    for a in accounts.iter() {
        assert!(!a.is_signer);
        assert_eq!(a.address.len(), 32);
    }
    // first four writable, last two read-only
    for a in accounts[..4].iter() {
        assert!(a.is_writable);
    }
    for a in accounts[4..].iter() {
        assert!(!a.is_writable);
    }

    // the last two are the parties' own addresses
    let buyer_pk: solana_pubkey::Pubkey = BUYER.parse().unwrap();
    let seller_pk: solana_pubkey::Pubkey = SELLER.parse().unwrap();
    assert_eq!(accounts[4].address, buyer_pk.to_bytes().to_vec());
    assert_eq!(accounts[5].address, seller_pk.to_bytes().to_vec());

    // the first four are derived associated token accounts, matching an
    // independent derivation and never the raw wallet address
    let collateral = solana_pubkey::Pubkey::new_from_array([1u8; 32]);
    let yes_mint = solana_pubkey::Pubkey::new_from_array([2u8; 32]);
    let expect = |wallet: &solana_pubkey::Pubkey, mint: &solana_pubkey::Pubkey| {
        spl_associated_token_account_client::address::get_associated_token_address(wallet, mint)
            .to_bytes()
            .to_vec()
    };
    assert_eq!(accounts[0].address, expect(&buyer_pk, &collateral));
    assert_eq!(accounts[1].address, expect(&seller_pk, &collateral));
    assert_eq!(accounts[2].address, expect(&buyer_pk, &yes_mint));
    assert_eq!(accounts[3].address, expect(&seller_pk, &yes_mint));
    assert_ne!(accounts[0].address, buyer_pk.to_bytes().to_vec());
}

#[test]
fn remaining_accounts_use_no_mint_for_no_side() {
    let trades = vec![trade(BUYER, SELLER, 550_000, 4_000_000)];
    let keys = keys();
    let accounts = get_remaining_accounts(&trades, ShareType::No, &keys).unwrap();
    let buyer_pk: solana_pubkey::Pubkey = BUYER.parse().unwrap();
    let no_mint = solana_pubkey::Pubkey::new_from_array([3u8; 32]);
    let expected =
        spl_associated_token_account_client::address::get_associated_token_address(&buyer_pk, &no_mint)
            .to_bytes()
            .to_vec();
    assert_eq!(accounts[2].address, expected);
    assert_eq!(outcome_mint_of(&keys, ShareType::No), &vec![3u8; 32]);
    assert_eq!(outcome_mint_of(&keys, ShareType::Yes), &vec![2u8; 32]);
}

#[test]
fn remaining_accounts_reject_bad_input() {
    let trades = vec![trade("not-base58-0OIl", SELLER, 550_000, 4_000_000)];
    assert!(get_remaining_accounts(&trades, ShareType::Yes, &keys()).is_none());

    let trades = vec![trade(BUYER, SELLER, 550_000, 4_000_000)];
    let short_keys = MarketKeys {
        collateral_mint: vec![1u8; 31],
        yes_mint: vec![2u8; 32],
        no_mint: vec![3u8; 32],
    };
    assert!(get_remaining_accounts(&trades, ShareType::Yes, &short_keys).is_none());
}
