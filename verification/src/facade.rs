//! The pure part of the request facade: input validation.
//!
//! Inbound requests arrive as strings; before anything reaches
//! a market actor the facade parses the market id, the side and outcome
//! discriminators, and the decimal price and quantity, and enforces the
//! admission policy: non-empty owner, `0 < price < 1`, `qty > 0`.  The
//! accepted grammars are specified exactly: an unsigned integer of up to
//! twenty digits whose value fits in a `u64` for market ids, and an
//! optionally negative decimal with at most 26 integer digits and 1 to 6
//! fractional digits for amounts.  Six fractional digits is the precision
//! amounts are stored and matched at, so finer input is rejected rather
//! than silently rounded.

use vstd::prelude::*;
use vstd::string::StringSliceAdditionalSpecFns;

use crate::decimal::Decimal;
use crate::ids::{new_order_id, parse_order_id, parsed_order_id};
use crate::types::{OrderEntry, OrderId, ShareType, Side};

verus! {

/// ASCII digit.
pub open spec fn is_digit(b: u8) -> bool {
    48 <= b && b <= 57
}

/// Every byte is an ASCII digit.
pub open spec fn all_digits(s: Seq<u8>) -> bool {
    forall|i: int| 0 <= i < s.len() ==> is_digit(#[trigger] s[i])
}

/// Value of a digit string read left to right on top of `acc`.
pub open spec fn digits_value_from(s: Seq<u8>, acc: int) -> int
    decreases s.len(),
{
    if s.len() == 0 {
        acc
    } else {
        digits_value_from(s.drop_first(), acc * 10 + (s[0] - 48))
    }
}

/// Value of a digit string.
pub open spec fn digits_value(s: Seq<u8>) -> int {
    digits_value_from(s, 0)
}

/// Ten to the `k`-th power.
pub open spec fn pow10(k: int) -> int
    decreases k,
{
    if k <= 0 {
        1
    } else {
        10 * pow10(k - 1)
    }
}

/// Reading further digits never shrinks the value.
proof fn lemma_digits_value_lower(s: Seq<u8>, acc: int)
    requires
        acc >= 0,
        all_digits(s),
    ensures
        digits_value_from(s, acc) >= acc,
    decreases s.len(),
{
    if s.len() > 0 {
        let rest = s.drop_first();
        assert(forall|i: int| 0 <= i < rest.len() ==> is_digit(#[trigger] rest[i]));
        assert(is_digit(s[0]));
        lemma_digits_value_lower(rest, acc * 10 + (s[0] - 48));
    }
}

/// `pow10` is positive and monotone.
proof fn lemma_pow10_mono(a: int, b: int)
    requires
        a <= b,
    ensures
        1 <= pow10(a) <= pow10(b),
    decreases b - a,
{
    if a < b {
        lemma_pow10_mono(a, b - 1);
    } else {
        lemma_pow10_pos(a);
    }
}

/// `pow10` is at least one.
proof fn lemma_pow10_pos(a: int)
    ensures
        pow10(a) >= 1,
    decreases a,
{
    if a > 0 {
        lemma_pow10_pos(a - 1);
    }
}

/// A valid unsigned integer string: non-empty, all digits, value fits u64.
pub open spec fn valid_u64_str(s: Seq<u8>) -> bool {
    &&& s.len() > 0
    &&& all_digits(s)
    &&& digits_value(s) <= u64::MAX
}

/// Parse an unsigned integer; succeeds exactly on [`valid_u64_str`] input.
pub fn parse_u64_bytes(s: &[u8]) -> (r: Option<u64>)
    ensures
        r is Some <==> valid_u64_str(s@),
        r is Some ==> r.unwrap() as int == digits_value(s@),
{
    if s.len() == 0 {
        return None;
    }
    let mut acc: u64 = 0;
    let mut i: usize = 0;
    proof {
        assert(s@.skip(0) =~= s@);
        assert(s@.take(0) =~= Seq::<u8>::empty());
    }
    while i < s.len()
        invariant
            0 <= i <= s@.len(),
            forall|j: int| 0 <= j < i ==> is_digit(#[trigger] s@[j]),
            acc as int == digits_value(s@.take(i as int)),
            digits_value_from(s@.skip(i as int), acc as int) == digits_value(s@),
        decreases s@.len() - i,
    {
        let b = s[i];
        if b < 48 || b > 57 {
            return None;
        }
        let d = b - 48;
        if acc > (u64::MAX - d as u64) / 10 {
            proof {
                assert(s@.skip(i as int)[0] == s@[i as int]);
                assert(s@.skip(i as int).drop_first() =~= s@.skip(i as int + 1));
                let next = acc as int * 10 + d as int;
                assert(next > u64::MAX);
                if all_digits(s@) {
                    assert(forall|j: int|
                        0 <= j < s@.skip(i as int + 1).len() ==> is_digit(
                            #[trigger] s@.skip(i as int + 1)[j],
                        ));
                    lemma_digits_value_lower(s@.skip(i as int + 1), next);
                }
            }
            return None;
        }
        proof {
            assert(s@.skip(i as int)[0] == s@[i as int]);
            assert(s@.skip(i as int).drop_first() =~= s@.skip(i as int + 1));
            assert(s@.take(i as int + 1) =~= s@.take(i as int).push(s@[i as int]));
            lemma_digits_push(s@.take(i as int), s@[i as int]);
        }
        acc = acc * 10 + d as u64;
        i += 1;
    }
    proof {
        assert(s@.skip(i as int) =~= Seq::<u8>::empty());
    }
    Some(acc)
}

/// Appending one digit multiplies the folded value by ten and adds it.
proof fn lemma_digits_push(t: Seq<u8>, x: u8)
    ensures
        forall|acc: int| #[trigger] digits_value_from(t.push(x), acc) == digits_value_from(t, acc)
            * 10 + (x - 48),
    decreases t.len(),
{
    if t.len() == 0 {
        assert forall|acc: int| #[trigger]
            digits_value_from(t.push(x), acc) == digits_value_from(t, acc) * 10 + (x - 48) by {
            assert(t.push(x)[0] == x);
            assert(t.push(x).drop_first() =~= Seq::<u8>::empty());
            assert(digits_value_from(t.push(x), acc) == digits_value_from(
                Seq::<u8>::empty(),
                acc * 10 + (x - 48),
            ));
            assert(digits_value_from(Seq::<u8>::empty(), acc * 10 + (x - 48)) == acc * 10 + (x
                - 48));
            assert(digits_value_from(t, acc) == acc);
        }
    } else {
        assert(t.push(x).drop_first() =~= t.drop_first().push(x));
        lemma_digits_push(t.drop_first(), x);
        assert forall|acc: int| #[trigger]
            digits_value_from(t.push(x), acc) == digits_value_from(t, acc) * 10 + (x - 48) by {
            assert(t.push(x)[0] == t[0]);
            assert(digits_value_from(t.push(x), acc) == digits_value_from(
                t.drop_first().push(x),
                acc * 10 + (t[0] - 48),
            ));
            assert(digits_value_from(t.drop_first().push(x), acc * 10 + (t[0] - 48))
                == digits_value_from(t.drop_first(), acc * 10 + (t[0] - 48)) * 10 + (x - 48));
            assert(digits_value_from(t, acc) == digits_value_from(
                t.drop_first(),
                acc * 10 + (t[0] - 48),
            ));
        }
    }
}


/// Index of the first `.` byte, or -1 if none occurs.
pub open spec fn dot_index(s: Seq<u8>) -> int
    decreases s.len(),
{
    if s.len() == 0 {
        -1
    } else if s[0] == 46 {
        0
    } else {
        let r = dot_index(s.drop_first());
        if r < 0 {
            -1
        } else {
            r + 1
        }
    }
}

/// `dot_index` returns the first matching index.
proof fn lemma_dot_index_at(s: Seq<u8>, i: int)
    requires
        0 <= i < s.len(),
        forall|j: int| 0 <= j < i ==> s[j] != 46,
        s[i] == 46,
    ensures
        dot_index(s) == i,
    decreases i,
{
    if i > 0 {
        let rest = s.drop_first();
        assert(forall|j: int| 0 <= j < i - 1 ==> rest[j] != 46);
        lemma_dot_index_at(rest, i - 1);
    }
}

/// `dot_index` fails exactly when no byte is a `.`.
proof fn lemma_dot_index_none(s: Seq<u8>)
    requires
        forall|j: int| 0 <= j < s.len() ==> s[j] != 46,
    ensures
        dot_index(s) == -1,
    decreases s.len(),
{
    if s.len() > 0 {
        let rest = s.drop_first();
        assert(forall|j: int| 0 <= j < rest.len() ==> rest[j] != 46);
        lemma_dot_index_none(rest);
    }
}

/// The string opens with a minus sign.
pub open spec fn has_minus(s: Seq<u8>) -> bool {
    s.len() > 0 && s[0] == 45
}

/// The string with any leading minus sign removed.
pub open spec fn decimal_body(s: Seq<u8>) -> Seq<u8> {
    if has_minus(s) {
        s.drop_first()
    } else {
        s
    }
}

/// The accepted decimal grammar: an optional minus sign, one to 26 integer
/// digits, and optionally a dot followed by one to six fractional digits.
pub open spec fn valid_decimal_str(s: Seq<u8>) -> bool {
    let b = decimal_body(s);
    let di = dot_index(b);
    if di < 0 {
        1 <= b.len() <= 26 && all_digits(b)
    } else {
        let ip = b.take(di);
        let fp = b.skip(di + 1);
        &&& 1 <= ip.len() <= 26
        &&& all_digits(ip)
        &&& 1 <= fp.len() <= 6
        &&& all_digits(fp)
    }
}

/// The value of a valid decimal string, in millionths.
pub open spec fn decimal_str_units(s: Seq<u8>) -> int {
    let b = decimal_body(s);
    let di = dot_index(b);
    let mag = if di < 0 {
        digits_value(b) * 1_000_000
    } else {
        digits_value(b.take(di)) * 1_000_000 + digits_value(b.skip(di + 1)) * pow10(
            6 - b.skip(di + 1).len(),
        )
    };
    if has_minus(s) {
        -mag
    } else {
        mag
    }
}

/// A digit string's value is below ten to its length.
proof fn lemma_digits_value_upper(s: Seq<u8>)
    requires
        all_digits(s),
    ensures
        0 <= digits_value(s) < pow10(s.len() as int),
    decreases s.len(),
{
    if s.len() == 0 {
    } else {
        let t = s.drop_last();
        assert(forall|i: int| 0 <= i < t.len() ==> is_digit(#[trigger] t[i]));
        assert(s =~= t.push(s.last()));
        lemma_digits_push(t, s.last());
        lemma_digits_value_upper(t);
        assert(digits_value(s) == digits_value(t) * 10 + (s.last() - 48));
        assert(pow10(s.len() as int) == 10 * pow10(s.len() as int - 1));
    }
}

/// `pow10(26)` as a literal, for overflow bounds.
proof fn lemma_pow10_26()
    ensures
        pow10(26) == 100_000_000_000_000_000_000_000_000,
{
    reveal_with_fuel(pow10, 28);
}

/// `pow10(a) * pow10(b) == pow10(a + b)` for non-negative exponents.
proof fn lemma_pow10_add(a: int, b: int)
    requires
        a >= 0,
        b >= 0,
    ensures
        pow10(a) * pow10(b) == pow10(a + b),
    decreases a,
{
    if a == 0 {
        assert(pow10(0) == 1);
    } else {
        lemma_pow10_add(a - 1, b);
        let x = pow10(a - 1);
        let y = pow10(b);
        assert(pow10(a) == 10 * x);
        assert((10 * x) * y == 10 * (x * y)) by (nonlinear_arith);
    }
}

/// Parse the digit run `s[from..to]`; succeeds exactly when every byte in
/// the range is a digit, and then returns its value.
fn parse_digits_value(s: &[u8], from: usize, to: usize) -> (r: Option<u128>)
    requires
        from <= to <= s@.len(),
        to - from <= 26,
    ensures
        r is Some <==> all_digits(s@.subrange(from as int, to as int)),
        r is Some ==> {
            &&& r.unwrap() as int == digits_value(s@.subrange(from as int, to as int))
            &&& (r.unwrap() as int) < pow10(to - from)
        },
{
    let ghost sub = s@.subrange(from as int, to as int);
    let mut acc: u128 = 0;
    let mut i: usize = from;
    proof {
        assert(sub.take(0) =~= Seq::<u8>::empty());
        lemma_pow10_26();
    }
    while i < to
        invariant
            from <= i <= to,
            to <= s@.len(),
            to - from <= 26,
            sub == s@.subrange(from as int, to as int),
            forall|j: int| 0 <= j < i - from ==> is_digit(#[trigger] sub[j]),
            acc as int == digits_value(sub.take(i - from)),
            (acc as int) < pow10(i - from),
            pow10(26) == 100_000_000_000_000_000_000_000_000,
        decreases to - i,
    {
        let b = s[i];
        if b < 48 || b > 57 {
            proof {
                assert(sub[i - from] == s@[i as int]);
            }
            return None;
        }
        let d = b - 48;
        proof {
            assert(sub[i - from] == s@[i as int]);
            assert(sub.take(i - from + 1) =~= sub.take(i - from).push(sub[i - from]));
            lemma_digits_push(sub.take(i - from), sub[i - from]);
            lemma_pow10_mono(i - from + 1, 26);
        }
        acc = acc * 10 + d as u128;
        i += 1;
    }
    proof {
        assert(sub.take(to - from) =~= sub);
        lemma_pow10_mono(to - from, 26);
    }
    Some(acc)
}

/// Ten to the `k`-th power, for fractional scaling.
fn pow10_small(k: usize) -> (r: i128)
    requires
        k <= 6,
    ensures
        r as int == pow10(k as int),
        1 <= r <= 1_000_000,
{
    proof {
        reveal_with_fuel(pow10, 8);
    }
    match k {
        0 => 1,
        1 => 10,
        2 => 100,
        3 => 1_000,
        4 => 10_000,
        5 => 100_000,
        _ => 1_000_000,
    }
}

/// Parse a decimal amount; succeeds exactly on [`valid_decimal_str`] input
/// and returns its value in millionths.
pub fn parse_decimal_bytes(s: &[u8]) -> (r: Option<Decimal>)
    ensures
        r is Some <==> valid_decimal_str(s@),
        r is Some ==> r.unwrap()@ == decimal_str_units(s@),
{
    let (neg, start): (bool, usize) = if s.len() > 0 && s[0] == 45 {
        (true, 1)
    } else {
        (false, 0)
    };
    let ghost b = decimal_body(s@);
    proof {
        assert(b =~= s@.skip(start as int));
    }
    let mut dot: usize = 0;
    let mut dot_found = false;
    let mut i: usize = start;
    while i < s.len()
        invariant
            start <= i <= s@.len(),
            !dot_found ==> forall|j: int| start <= j < i ==> s@[j] != 46,
            dot_found ==> {
                &&& start <= dot < i
                &&& s@[dot as int] == 46
                &&& forall|j: int| start <= j < dot ==> s@[j] != 46
            },
        decreases s@.len() - i,
    {
        if !dot_found && s[i] == 46 {
            dot_found = true;
            dot = i;
        }
        i += 1;
    }
    proof {
        if dot_found {
            assert(forall|j: int| 0 <= j < dot - start ==> b[j] != 46);
            assert(b[dot - start] == 46);
            lemma_dot_index_at(b, dot - start);
        } else {
            assert(forall|j: int| 0 <= j < b.len() ==> b[j] != 46);
            lemma_dot_index_none(b);
        }
        lemma_pow10_26();
    }
    if !dot_found {
        let n = s.len() - start;
        if n == 0 || n > 26 {
            return None;
        }
        proof {
            assert(b =~= s@.subrange(start as int, s@.len() as int));
        }
        match parse_digits_value(s, start, s.len()) {
            None => None,
            Some(v) => {
                proof {
                    lemma_pow10_mono(s@.len() - start, 26);
                }
                let units = (v as i128) * 1_000_000;
                let units = if neg {
                    -units
                } else {
                    units
                };
                Some(Decimal::from_units(units))
            },
        }
    } else {
        let ip_len = dot - start;
        let fp_len = s.len() - dot - 1;
        if ip_len == 0 || ip_len > 26 || fp_len == 0 || fp_len > 6 {
            return None;
        }
        let ghost ip = b.take(dot - start);
        let ghost fp = b.skip(dot - start + 1);
        proof {
            assert(ip =~= s@.subrange(start as int, dot as int));
            assert(fp =~= s@.subrange(dot as int + 1, s@.len() as int));
        }
        let iv = match parse_digits_value(s, start, dot) {
            None => {
                return None;
            },
            Some(v) => v,
        };
        let fv = match parse_digits_value(s, dot + 1, s.len()) {
            None => {
                return None;
            },
            Some(v) => v,
        };
        let scale = pow10_small(6 - fp_len);
        proof {
            lemma_pow10_mono(fp_len as int, 6);
            let pf = pow10(fp_len as int);
            let p6f = pow10(6 - fp_len as int);
            lemma_pow10_add(fp_len as int, 6 - fp_len as int);
            assert(pf * p6f == pow10(6));
            reveal_with_fuel(pow10, 8);
            assert((fv as int) * (scale as int) < 1_000_000) by (nonlinear_arith)
                requires
                    0 <= fv as int,
                    (fv as int) <= pf - 1,
                    scale as int == p6f,
                    1 <= p6f,
                    pf * p6f == 1_000_000,
            ;
        }
        proof {
            lemma_pow10_mono(ip_len as int, 26);
        }
        let units = (iv as i128) * 1_000_000 + (fv as i128) * scale;
        let units = if neg {
            -units
        } else {
            units
        };
        Some(Decimal::from_units(units))
    }
}


/// The side keyword grammar: exactly `bid` or `ask`.
pub open spec fn parsed_side(s: Seq<u8>) -> Option<Side> {
    if s == seq![98u8, 105u8, 100u8] {
        Some(Side::Bid)
    } else if s == seq![97u8, 115u8, 107u8] {
        Some(Side::Ask)
    } else {
        None
    }
}

/// The outcome keyword grammar: exactly `yes` or `no`.
pub open spec fn parsed_outcome(s: Seq<u8>) -> Option<ShareType> {
    if s == seq![121u8, 101u8, 115u8] {
        Some(ShareType::Yes)
    } else if s == seq![110u8, 111u8] {
        Some(ShareType::No)
    } else {
        None
    }
}

/// Parse the side keyword.
pub fn parse_side_bytes(s: &[u8]) -> (r: Option<Side>)
    ensures
        r == parsed_side(s@),
{
    if s.len() == 3 && s[0] == 98 && s[1] == 105 && s[2] == 100 {
        proof {
            assert(s@ =~= seq![98u8, 105u8, 100u8]);
        }
        Some(Side::Bid)
    } else if s.len() == 3 && s[0] == 97 && s[1] == 115 && s[2] == 107 {
        proof {
            assert(s@ =~= seq![97u8, 115u8, 107u8]);
        }
        Some(Side::Ask)
    } else {
        proof {
            if s@ == seq![98u8, 105u8, 100u8] {
                assert(s@.len() == 3 && s@[0] == 98 && s@[1] == 105 && s@[2] == 100);
            }
            if s@ == seq![97u8, 115u8, 107u8] {
                assert(s@.len() == 3 && s@[0] == 97 && s@[1] == 115 && s@[2] == 107);
            }
        }
        None
    }
}

/// Parse the outcome keyword.
pub fn parse_outcome_bytes(s: &[u8]) -> (r: Option<ShareType>)
    ensures
        r == parsed_outcome(s@),
{
    if s.len() == 3 && s[0] == 121 && s[1] == 101 && s[2] == 115 {
        proof {
            assert(s@ =~= seq![121u8, 101u8, 115u8]);
        }
        Some(ShareType::Yes)
    } else if s.len() == 2 && s[0] == 110 && s[1] == 111 {
        proof {
            assert(s@ =~= seq![110u8, 111u8]);
        }
        Some(ShareType::No)
    } else {
        proof {
            if s@ == seq![121u8, 101u8, 115u8] {
                assert(s@.len() == 3 && s@[0] == 121 && s@[1] == 101 && s@[2] == 115);
            }
            if s@ == seq![110u8, 111u8] {
                assert(s@.len() == 2 && s@[0] == 110 && s@[1] == 111);
            }
        }
        None
    }
}

/// Why a request was rejected before it reached any market actor.
#[derive(Clone, Copy, Debug, PartialEq, Eq, Structural)]
pub enum ValidationError {
    EmptyOwner,
    BadMarketId,
    BadSide,
    BadOutcome,
    BadPrice,
    PriceOutOfRange,
    BadQty,
    QtyNotPositive,
    BadOrderId,
}

impl ValidationError {
    /// A stable human-readable description.
    pub fn message(&self) -> (r: String)
        ensures
            r@ == match *self {
                ValidationError::EmptyOwner => "owner must not be empty"@,
                ValidationError::BadMarketId => "invalid market id"@,
                ValidationError::BadSide => "side must be bid or ask"@,
                ValidationError::BadOutcome => "outcome must be yes or no"@,
                ValidationError::BadPrice => "invalid price"@,
                ValidationError::PriceOutOfRange => "price must be between 0 and 1"@,
                ValidationError::BadQty => "invalid quantity"@,
                ValidationError::QtyNotPositive => "quantity must be positive"@,
                ValidationError::BadOrderId => "invalid order id"@,
            },
    {
        match *self {
            ValidationError::EmptyOwner => "owner must not be empty".to_owned(),
            ValidationError::BadMarketId => "invalid market id".to_owned(),
            ValidationError::BadSide => "side must be bid or ask".to_owned(),
            ValidationError::BadOutcome => "outcome must be yes or no".to_owned(),
            ValidationError::BadPrice => "invalid price".to_owned(),
            ValidationError::PriceOutOfRange => "price must be between 0 and 1".to_owned(),
            ValidationError::BadQty => "invalid quantity".to_owned(),
            ValidationError::QtyNotPositive => "quantity must be positive".to_owned(),
            ValidationError::BadOrderId => "invalid order id".to_owned(),
        }
    }
}

/// A fully validated placement request.
#[derive(Debug)]
pub struct PlaceRequest {
    pub owner: String,
    pub market_id: u64,
    pub side: Side,
    pub outcome: ShareType,
    pub price: Decimal,
    pub qty: Decimal,
}

/// A fully validated cancel request.
#[derive(Debug)]
pub struct CancelRequest {
    pub market_id: u64,
    pub side: Side,
    pub outcome: ShareType,
    pub price: Decimal,
    pub order_id: OrderId,
}

/// Validate a placement: non-empty owner, parseable market id, side and
/// outcome keywords, a price strictly between 0 and 1, and a positive
/// quantity.  The checks run in that order and the first failure is
/// reported.
pub fn validate_place(
    owner: &str,
    market_id: &str,
    side: &str,
    outcome: &str,
    price: &str,
    qty: &str,
) -> (r: Result<PlaceRequest, ValidationError>)
    ensures
        ({
            let mid = market_id.spec_bytes();
            let sb = side.spec_bytes();
            let ob = outcome.spec_bytes();
            let pb = price.spec_bytes();
            let qb = qty.spec_bytes();
            if owner@.len() == 0 {
                r == Err::<PlaceRequest, ValidationError>(ValidationError::EmptyOwner)
            } else if !valid_u64_str(mid) {
                r == Err::<PlaceRequest, ValidationError>(ValidationError::BadMarketId)
            } else if parsed_side(sb) is None {
                r == Err::<PlaceRequest, ValidationError>(ValidationError::BadSide)
            } else if parsed_outcome(ob) is None {
                r == Err::<PlaceRequest, ValidationError>(ValidationError::BadOutcome)
            } else if !valid_decimal_str(pb) {
                r == Err::<PlaceRequest, ValidationError>(ValidationError::BadPrice)
            } else if !(0 < decimal_str_units(pb) < 1_000_000) {
                r == Err::<PlaceRequest, ValidationError>(ValidationError::PriceOutOfRange)
            } else if !valid_decimal_str(qb) {
                r == Err::<PlaceRequest, ValidationError>(ValidationError::BadQty)
            } else if decimal_str_units(qb) <= 0 {
                r == Err::<PlaceRequest, ValidationError>(ValidationError::QtyNotPositive)
            } else {
                r is Ok && {
                    let p = r.unwrap();
                    &&& p.owner@ == owner@
                    &&& p.market_id as int == digits_value(mid)
                    &&& Some(p.side) == parsed_side(sb)
                    &&& Some(p.outcome) == parsed_outcome(ob)
                    &&& p.price@ == decimal_str_units(pb)
                    &&& p.qty@ == decimal_str_units(qb)
                    &&& 0 < p.price@ < 1_000_000
                    &&& p.qty@ > 0
                }
            }
        }),
{
    if owner.is_empty() {
        return Err(ValidationError::EmptyOwner);
    }
    let market_id = match parse_u64_bytes(market_id.as_bytes()) {
        None => {
            return Err(ValidationError::BadMarketId);
        },
        Some(v) => v,
    };
    let side = match parse_side_bytes(side.as_bytes()) {
        None => {
            return Err(ValidationError::BadSide);
        },
        Some(v) => v,
    };
    let outcome = match parse_outcome_bytes(outcome.as_bytes()) {
        None => {
            return Err(ValidationError::BadOutcome);
        },
        Some(v) => v,
    };
    let price = match parse_decimal_bytes(price.as_bytes()) {
        None => {
            return Err(ValidationError::BadPrice);
        },
        Some(v) => v,
    };
    if !price.is_positive() || !price.lt(&Decimal::from_units(1_000_000)) {
        return Err(ValidationError::PriceOutOfRange);
    }
    let qty = match parse_decimal_bytes(qty.as_bytes()) {
        None => {
            return Err(ValidationError::BadQty);
        },
        Some(v) => v,
    };
    if !qty.is_positive() {
        return Err(ValidationError::QtyNotPositive);
    }
    Ok(PlaceRequest { owner: owner.to_owned(), market_id, side, outcome, price, qty })
}

/// Validate a cancel: parseable market id, side and outcome keywords, a
/// parseable price, and a well-formed order id.  The checks run in that
/// order and the first failure is reported.
pub fn validate_cancel(
    market_id: &str,
    side: &str,
    outcome: &str,
    price: &str,
    order_id: &str,
) -> (r: Result<CancelRequest, ValidationError>)
    ensures
        ({
            let mid = market_id.spec_bytes();
            let sb = side.spec_bytes();
            let ob = outcome.spec_bytes();
            let pb = price.spec_bytes();
            if !valid_u64_str(mid) {
                r == Err::<CancelRequest, ValidationError>(ValidationError::BadMarketId)
            } else if parsed_side(sb) is None {
                r == Err::<CancelRequest, ValidationError>(ValidationError::BadSide)
            } else if parsed_outcome(ob) is None {
                r == Err::<CancelRequest, ValidationError>(ValidationError::BadOutcome)
            } else if !valid_decimal_str(pb) {
                r == Err::<CancelRequest, ValidationError>(ValidationError::BadPrice)
            } else if parsed_order_id(order_id@) is None {
                r == Err::<CancelRequest, ValidationError>(ValidationError::BadOrderId)
            } else {
                r is Ok && {
                    let c = r.unwrap();
                    &&& c.market_id as int == digits_value(mid)
                    &&& Some(c.side) == parsed_side(sb)
                    &&& Some(c.outcome) == parsed_outcome(ob)
                    &&& c.price@ == decimal_str_units(pb)
                    &&& c.order_id.value == parsed_order_id(order_id@).unwrap()
                }
            }
        }),
{
    let market_id = match parse_u64_bytes(market_id.as_bytes()) {
        None => {
            return Err(ValidationError::BadMarketId);
        },
        Some(v) => v,
    };
    let side = match parse_side_bytes(side.as_bytes()) {
        None => {
            return Err(ValidationError::BadSide);
        },
        Some(v) => v,
    };
    let outcome = match parse_outcome_bytes(outcome.as_bytes()) {
        None => {
            return Err(ValidationError::BadOutcome);
        },
        Some(v) => v,
    };
    let price = match parse_decimal_bytes(price.as_bytes()) {
        None => {
            return Err(ValidationError::BadPrice);
        },
        Some(v) => v,
    };
    let order_id = match parse_order_id(order_id) {
        None => {
            return Err(ValidationError::BadOrderId);
        },
        Some(v) => v,
    };
    Ok(CancelRequest { market_id, side, outcome, price, order_id })
}

/// Admit a validated placement: assign a fresh identifier and build the
/// book entry the market actor will match.
pub fn admit_order(req: &PlaceRequest) -> (e: OrderEntry)
    ensures
        e@.user_address == req.owner@,
        e@.market_id == req.market_id,
        e@.side == req.side,
        e@.price == req.price@,
        e@.qty == req.qty@,
{
    OrderEntry {
        id: new_order_id(),
        user_address: req.owner.clone(),
        market_id: req.market_id,
        side: req.side,
        price: req.price,
        qty: req.qty,
    }
}

} // verus!
