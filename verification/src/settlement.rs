//! Derivation of the settlement payload from executed trades.
//!
//! For every placement that produced trades the facade hands the
//! settlement collaborator two artifacts, both derived here and proved to
//! mirror the trade list one for one, in trade order: the fill records
//! (quantities and prices in millionths, truncated to 64 bits) and the
//! account list (six address references per trade, the first four
//! writable).  Token-account addresses are derived through the SPL
//! associated-token-account scheme behind trusted wrappers.

use vstd::prelude::*;

use crate::decimal::Decimal;
use crate::types::{ShareType, Trade, TradeView};

verus! {

/// One fill as the settlement program consumes it: share quantity and
/// price in millionths, truncated to 64 bits, and the outcome traded.
#[derive(Clone, Copy, Debug, PartialEq, Eq, Structural)]
pub struct FillRecord {
    pub shares: u64,
    pub price: u64,
    pub side: ShareType,
}

/// One address reference of the settlement account list.
pub struct AccountRef {
    pub address: Vec<u8>,
    pub is_signer: bool,
    pub is_writable: bool,
}

/// Mathematical view of an `AccountRef`.
#[verifier::ext_equal]
pub ghost struct AccountRefView {
    pub address: Seq<u8>,
    pub is_signer: bool,
    pub is_writable: bool,
}

impl View for AccountRef {
    type V = AccountRefView;

    open spec fn view(&self) -> AccountRefView {
        AccountRefView {
            address: self.address@,
            is_signer: self.is_signer,
            is_writable: self.is_writable,
        }
    }
}

/// The mint addresses of one market, 32 bytes each.
pub struct MarketKeys {
    pub collateral_mint: Vec<u8>,
    pub yes_mint: Vec<u8>,
    pub no_mint: Vec<u8>,
}

/// Mathematical view of a `MarketKeys`.
#[verifier::ext_equal]
pub ghost struct MarketKeysView {
    pub collateral_mint: Seq<u8>,
    pub yes_mint: Seq<u8>,
    pub no_mint: Seq<u8>,
}

impl View for MarketKeys {
    type V = MarketKeysView;

    open spec fn view(&self) -> MarketKeysView {
        MarketKeysView {
            collateral_mint: self.collateral_mint@,
            yes_mint: self.yes_mint@,
            no_mint: self.no_mint@,
        }
    }
}

/// All three mints are 32-byte addresses.
pub open spec fn keys_wf(k: MarketKeysView) -> bool {
    &&& k.collateral_mint.len() == 32
    &&& k.yes_mint.len() == 32
    &&& k.no_mint.len() == 32
}

/// What parsing a base58 wallet address yields: a function of the string
/// alone; 32 bytes on success.
pub uninterp spec fn parsed_address(s: Seq<char>) -> Option<Seq<u8>>;

/// The associated token account of a wallet for a mint: a function of the
/// two addresses alone.
pub uninterp spec fn ata_of(wallet: Seq<u8>, mint: Seq<u8>) -> Seq<u8>;

/// Parse a wallet address from its base58 form.
///
/// Relies on `solana_pubkey::Pubkey::from_str`: deterministic base58
/// decoding into exactly 32 bytes, or an error for malformed input.
#[verifier::external_body]
pub(crate) fn parse_address(s: &str) -> (r: Option<Vec<u8>>)
    ensures
        r is Some <==> parsed_address(s@) is Some,
        r is Some ==> r.unwrap()@ == parsed_address(s@).unwrap() && r.unwrap()@.len() == 32,
{
    match <solana_pubkey::Pubkey as core::str::FromStr>::from_str(s) {
        Ok(p) => Some(p.to_bytes().to_vec()),
        Err(_) => None,
    }
}

/// Derive the associated token account address of `wallet` for `mint`.
///
/// Relies on
/// `spl_associated_token_account_client::address::get_associated_token_address`:
/// a deterministic program-derived address of the two 32-byte inputs.
#[verifier::external_body]
pub(crate) fn ata_address(wallet: &Vec<u8>, mint: &Vec<u8>) -> (r: Vec<u8>)
    requires
        wallet@.len() == 32,
        mint@.len() == 32,
    ensures
        r@ == ata_of(wallet@, mint@),
        r@.len() == 32,
{
    let w: [u8; 32] = wallet.as_slice().try_into().unwrap();
    let m: [u8; 32] = mint.as_slice().try_into().unwrap();
    let pk = spl_associated_token_account_client::address::get_associated_token_address(
        &solana_pubkey::Pubkey::new_from_array(w),
        &solana_pubkey::Pubkey::new_from_array(m),
    );
    pk.to_bytes().to_vec()
}

/// A byte-for-byte copy.
fn copy_bytes(v: &Vec<u8>) -> (r: Vec<u8>)
    ensures
        r@ == v@,
{
    let mut out: Vec<u8> = Vec::new();
    let mut i: usize = 0;
    while i < v.len()
        invariant
            0 <= i <= v@.len(),
            out@ =~= v@.take(i as int),
        decreases v@.len() - i,
    {
        out.push(v[i]);
        proof {
            assert(out@ =~= v@.take(i as int + 1));
        }
        i += 1;
    }
    proof {
        assert(v@.take(v@.len() as int) =~= v@);
    }
    out
}

/// A trade's amounts fit the 64-bit fill encoding.
pub open spec fn fill_in_range(t: TradeView) -> bool {
    &&& 0 <= t.quantity <= u64::MAX
    &&& 0 <= t.price <= u64::MAX
}

/// Every trade's amounts fit the 64-bit fill encoding.
pub open spec fn fills_ok(ts: Seq<TradeView>) -> bool {
    forall|i: int| 0 <= i < ts.len() ==> fill_in_range(#[trigger] ts[i])
}

/// The fill record of one trade.
pub open spec fn fill_of(t: TradeView, side: ShareType) -> FillRecord {
    FillRecord { shares: t.quantity as u64, price: t.price as u64, side }
}

/// The fill records of a trade list, in trade order.
pub open spec fn fills_spec(ts: Seq<TradeView>, side: ShareType) -> Seq<FillRecord> {
    ts.map_values(|t: TradeView| fill_of(t, side))
}

/// A decimal amount as a 64-bit count of millionths; fails outside
/// `[0, u64::MAX]` (where the encoding would lose the value).
pub fn to_u64_amount(d: &Decimal) -> (r: Option<u64>)
    ensures
        r == if 0 <= d@ <= u64::MAX {
            Some(d@ as u64)
        } else {
            None::<u64>
        },
{
    let units = d.units();
    if units >= 0 && units <= u64::MAX as i128 {
        Some(units as u64)
    } else {
        None
    }
}

/// The fill records for `trades`, one per trade in trade order; fails
/// exactly when some amount does not fit the 64-bit encoding.
pub fn get_match_fills(trades: &Vec<Trade>, side: ShareType) -> (r: Option<Vec<FillRecord>>)
    ensures
        ({
            let tv = trades@.map_values(|t: Trade| t@);
            &&& r is Some <==> fills_ok(tv)
            &&& r is Some ==> r.unwrap()@ == fills_spec(tv, side)
        }),
{
    let ghost tv = trades@.map_values(|t: Trade| t@);
    let mut out: Vec<FillRecord> = Vec::new();
    let mut i: usize = 0;
    while i < trades.len()
        invariant
            0 <= i <= trades@.len(),
            tv == trades@.map_values(|t: Trade| t@),
            forall|j: int| 0 <= j < i ==> fill_in_range(#[trigger] tv[j]),
            out@ =~= fills_spec(tv.take(i as int), side),
        decreases trades@.len() - i,
    {
        let shares = match to_u64_amount(&trades[i].quantity) {
            None => {
                proof {
                    assert(!fill_in_range(tv[i as int]));
                }
                return None;
            },
            Some(v) => v,
        };
        let price = match to_u64_amount(&trades[i].price) {
            None => {
                proof {
                    assert(!fill_in_range(tv[i as int]));
                }
                return None;
            },
            Some(v) => v,
        };
        out.push(FillRecord { shares, price, side });
        proof {
            assert(tv.take(i as int + 1) =~= tv.take(i as int).push(tv[i as int]));
            assert(out@ =~= fills_spec(tv.take(i as int + 1), side));
        }
        i += 1;
    }
    proof {
        assert(tv.take(trades@.len() as int) =~= tv);
    }
    Some(out)
}

/// The outcome-token mint traded.
pub open spec fn outcome_mint(keys: MarketKeysView, side: ShareType) -> Seq<u8> {
    match side {
        ShareType::Yes => keys.yes_mint,
        ShareType::No => keys.no_mint,
    }
}

/// The outcome-token mint a delegation or fill for `side` touches.
pub fn outcome_mint_of(keys: &MarketKeys, side: ShareType) -> (r: &Vec<u8>)
    ensures
        r@ == outcome_mint(keys@, side),
{
    match side {
        ShareType::Yes => &keys.yes_mint,
        ShareType::No => &keys.no_mint,
    }
}

/// Both parties of a trade have parseable wallet addresses.
pub open spec fn trade_addresses_ok(t: TradeView) -> bool {
    &&& parsed_address(t.buyer_address) is Some
    &&& parsed_address(t.seller_address) is Some
}

/// Every trade has parseable wallet addresses.
pub open spec fn addresses_ok(ts: Seq<TradeView>) -> bool {
    forall|i: int| 0 <= i < ts.len() ==> trade_addresses_ok(#[trigger] ts[i])
}

/// The six address references of one trade, in the order the settlement
/// program expects: buyer collateral, seller collateral, buyer outcome
/// token, seller outcome token (all writable), then buyer and seller
/// (read-only).
pub open spec fn trade_accounts(t: TradeView, side: ShareType, keys: MarketKeysView) -> Seq<
    AccountRefView,
> {
    let buyer = parsed_address(t.buyer_address).unwrap();
    let seller = parsed_address(t.seller_address).unwrap();
    seq![
        AccountRefView {
            address: ata_of(buyer, keys.collateral_mint),
            is_signer: false,
            is_writable: true,
        },
        AccountRefView {
            address: ata_of(seller, keys.collateral_mint),
            is_signer: false,
            is_writable: true,
        },
        AccountRefView {
            address: ata_of(buyer, outcome_mint(keys, side)),
            is_signer: false,
            is_writable: true,
        },
        AccountRefView {
            address: ata_of(seller, outcome_mint(keys, side)),
            is_signer: false,
            is_writable: true,
        },
        AccountRefView { address: buyer, is_signer: false, is_writable: false },
        AccountRefView { address: seller, is_signer: false, is_writable: false },
    ]
}

/// The account list of a trade list: six references per trade, in trade
/// order.
pub open spec fn accounts_spec(ts: Seq<TradeView>, side: ShareType, keys: MarketKeysView) -> Seq<
    AccountRefView,
>
    decreases ts.len(),
{
    if ts.len() == 0 {
        Seq::empty()
    } else {
        trade_accounts(ts[0], side, keys) + accounts_spec(ts.drop_first(), side, keys)
    }
}

/// Append the account references of `trades[start..]`; true on success,
/// false exactly when some address fails to parse.
fn accounts_from(
    trades: &Vec<Trade>,
    start: usize,
    side: ShareType,
    keys: &MarketKeys,
    out: &mut Vec<AccountRef>,
) -> (ok: bool)
    requires
        start <= trades@.len(),
        keys_wf(keys@),
    ensures
        ({
            let tv = trades@.map_values(|t: Trade| t@).skip(start as int);
            &&& ok <==> addresses_ok(tv)
            &&& ok ==> final(out)@.map_values(|a: AccountRef| a@) == old(out)@.map_values(
                |a: AccountRef| a@,
            ) + accounts_spec(tv, side, keys@)
        }),
    decreases trades@.len() - start,
{
    let ghost tv = trades@.map_values(|t: Trade| t@).skip(start as int);
    let ghost out0 = out@.map_values(|a: AccountRef| a@);
    if start == trades.len() {
        proof {
            assert(tv =~= Seq::<TradeView>::empty());
            assert(final(out)@.map_values(|a: AccountRef| a@) =~= out0 + Seq::<
                AccountRefView,
            >::empty());
        }
        return true;
    }
    let t = &trades[start];
    proof {
        assert(tv[0] == trades@[start as int]@);
    }
    let buyer = match parse_address(t.buyer_address.as_str()) {
        None => {
            proof {
                assert(!trade_addresses_ok(tv[0]));
            }
            return false;
        },
        Some(v) => v,
    };
    let seller = match parse_address(t.seller_address.as_str()) {
        None => {
            proof {
                assert(!trade_addresses_ok(tv[0]));
            }
            return false;
        },
        Some(v) => v,
    };
    let outcome_mint_key = match side {
        ShareType::Yes => &keys.yes_mint,
        ShareType::No => &keys.no_mint,
    };
    let buyer_collateral = ata_address(&buyer, &keys.collateral_mint);
    let seller_collateral = ata_address(&seller, &keys.collateral_mint);
    let buyer_outcome = ata_address(&buyer, outcome_mint_key);
    let seller_outcome = ata_address(&seller, outcome_mint_key);
    out.push(AccountRef { address: buyer_collateral, is_signer: false, is_writable: true });
    out.push(AccountRef { address: seller_collateral, is_signer: false, is_writable: true });
    out.push(AccountRef { address: buyer_outcome, is_signer: false, is_writable: true });
    out.push(AccountRef { address: seller_outcome, is_signer: false, is_writable: true });
    out.push(AccountRef { address: copy_bytes(&buyer), is_signer: false, is_writable: false });
    out.push(AccountRef { address: copy_bytes(&seller), is_signer: false, is_writable: false });
    let ghost mid = out@.map_values(|a: AccountRef| a@);
    proof {
        assert(mid =~= out0 + trade_accounts(tv[0], side, keys@));
    }
    let ok = accounts_from(trades, start + 1, side, keys, out);
    proof {
        assert(tv.drop_first() =~= trades@.map_values(|t: Trade| t@).skip(start as int + 1));
        if ok {
            let rest = accounts_spec(tv.drop_first(), side, keys@);
            assert(accounts_spec(tv, side, keys@) == trade_accounts(tv[0], side, keys@) + rest);
            assert((out0 + trade_accounts(tv[0], side, keys@)) + rest =~= out0 + (trade_accounts(
                tv[0],
                side,
                keys@,
            ) + rest));
            assert forall|i: int| 0 <= i < tv.len() implies trade_addresses_ok(
                #[trigger] tv[i],
            ) by {
                if i > 0 {
                    assert(tv[i] == tv.drop_first()[i - 1]);
                    assert(trade_addresses_ok(tv.drop_first()[i - 1]));
                }
            }
        } else {
            let j = choose|j: int|
                0 <= j < tv.drop_first().len() && !trade_addresses_ok(
                    #[trigger] tv.drop_first()[j],
                );
            assert(tv[j + 1] == tv.drop_first()[j]);
            assert(!addresses_ok(tv));
        }
    }
    ok
}

/// The settlement account list for `trades`: six references per trade, in
/// trade order (see [`trade_accounts`]); fails exactly when the mint keys
/// are not 32 bytes or some trade party's address does not parse.
pub fn get_remaining_accounts(trades: &Vec<Trade>, side: ShareType, keys: &MarketKeys) -> (r:
    Option<Vec<AccountRef>>)
    ensures
        ({
            let tv = trades@.map_values(|t: Trade| t@);
            &&& r is Some <==> keys_wf(keys@) && addresses_ok(tv)
            &&& r is Some ==> r.unwrap()@.map_values(|a: AccountRef| a@) == accounts_spec(
                tv,
                side,
                keys@,
            )
        }),
{
    if keys.collateral_mint.len() != 32 || keys.yes_mint.len() != 32 || keys.no_mint.len() != 32 {
        return None;
    }
    let mut out: Vec<AccountRef> = Vec::new();
    let ok = accounts_from(trades, 0, side, keys, &mut out);
    proof {
        assert(trades@.map_values(|t: Trade| t@).skip(0) =~= trades@.map_values(|t: Trade| t@));
    }
    if ok {
        Some(out)
    } else {
        None
    }
}

} // verus!
