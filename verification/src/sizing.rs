//! Order sizing: from a notional amount and a price to an order size that the
//! venue accepts.

use vstd::prelude::*;
use crate::fixed::{SCALE, div_floor, floor_div, wide_mul};
use crate::instrument::InstrumentInfo;

verus! {

/// Why no order size could be computed.
#[derive(Clone, Copy, Debug, PartialEq, Eq, Structural)]
pub enum SizingError {
    /// The venue sizes in contracts and the instrument has no contract value.
    MissingContractValue,
    /// The contract value is zero or negative.
    InvalidContractValue,
    /// The price is zero or negative, so no finite quantity exists.
    InvalidPrice,
    /// The lot size is zero or negative.
    InvalidLotSize,
    /// The smallest accepted size lies above the largest.
    InvalidBounds,
    /// The rounded size cannot be stored.
    OutOfRange,
}

/// Direction of an order.
#[derive(Clone, Copy, Debug, PartialEq, Eq, Structural)]
pub enum OrderSide {
    Buy,
    Sell,
}

/// `q` moved to the nearest point of `[lo, hi]`.
pub open spec fn clamp(q: int, lo: int, hi: int) -> int {
    if q < lo {
        lo
    } else if q > hi {
        hi
    } else {
        q
    }
}

/// The largest multiple of `lot` that does not exceed `q`.
pub open spec fn round_down_to_lot(q: int, lot: int) -> int
    recommends
        lot > 0,
{
    floor_div(q, lot) * lot
}

/// Stored quantity bought by `notional` at `price`, rounded down.
pub open spec fn linear_quantity(notional: int, price: int) -> int
    recommends
        price > 0,
{
    floor_div(notional * SCALE, price)
}

/// Stored number of contracts bought by `notional` at `price` when one
/// contract stands for `contract_value` units, rounded down.
pub open spec fn contract_quantity(notional: int, price: int, contract_value: int) -> int
    recommends
        price > 0,
        contract_value > 0,
{
    floor_div(notional * SCALE * SCALE, price * contract_value)
}

/// The size ordered for a quantity before bounds: clamped into the
/// instrument's bounds, then rounded down to a whole number of lots.
pub open spec fn bounded_size(raw: int, info: InstrumentInfo) -> Result<i64, SizingError> {
    if info.lot_size <= 0 {
        Err(SizingError::InvalidLotSize)
    } else if info.lower_bound() > info.upper_bound() {
        Err(SizingError::InvalidBounds)
    } else {
        let size = round_down_to_lot(
            clamp(raw, info.lower_bound(), info.upper_bound()),
            info.lot_size as int,
        );
        if size < i64::MIN {
            Err(SizingError::OutOfRange)
        } else {
            Ok(size as i64)
        }
    }
}

/// Order size on a contract-multiplier venue.
pub open spec fn okx_order_size(price: int, notional: int, info: InstrumentInfo) -> Result<
    i64,
    SizingError,
> {
    match info.contract_value {
        None => Err(SizingError::MissingContractValue),
        Some(cv) => if cv <= 0 {
            Err(SizingError::InvalidContractValue)
        } else if price <= 0 {
            Err(SizingError::InvalidPrice)
        } else {
            bounded_size(contract_quantity(notional, price, cv as int), info)
        },
    }
}

/// Order size on a linear venue.
pub open spec fn binance_order_size(price: int, notional: int, info: InstrumentInfo) -> Result<
    i64,
    SizingError,
> {
    if price <= 0 {
        Err(SizingError::InvalidPrice)
    } else {
        bounded_size(linear_quantity(notional, price), info)
    }
}

/// Clamps a quantity into the instrument's bounds and rounds it down to a
/// whole number of lots.
pub fn apply_bounds(raw: i128, info: &InstrumentInfo) -> (r: Result<i64, SizingError>)
    ensures
        r == bounded_size(raw as int, *info),
{
    if info.lot_size <= 0 {
        return Err(SizingError::InvalidLotSize);
    }
    let lo: i64 = info.min_size();
    let hi: i64 = info.max_size();
    if lo > hi {
        return Err(SizingError::InvalidBounds);
    }
    let clamped: i64 = if raw < lo as i128 {
        lo
    } else if raw > hi as i128 {
        hi
    } else {
        raw as i64
    };
    let lot: i128 = info.lot_size as i128;
    let lots: i128 = div_floor(clamped as i128, lot);
    proof {
        assert(clamped - lot < lots * lot <= clamped) by (nonlinear_arith)
            requires
                lots * lot <= clamped < lots * lot + lot,
        ;
    }
    let size: i128 = lots * lot;
    if size < i64::MIN as i128 {
        Err(SizingError::OutOfRange)
    } else {
        Ok(size as i64)
    }
}

/// Order size for `notional` at `price` on a contract-multiplier venue.
pub fn calc_okx_order_size(price: i64, notional: i64, info: &InstrumentInfo) -> (r: Result<
    i64,
    SizingError,
>)
    ensures
        r == okx_order_size(price as int, notional as int, *info),
{
    let cv: i64 = match info.contract_value {
        Some(cv) => cv,
        None => {
            return Err(SizingError::MissingContractValue);
        },
    };
    if cv <= 0 {
        return Err(SizingError::InvalidContractValue);
    }
    if price <= 0 {
        return Err(SizingError::InvalidPrice);
    }
    let scaled: i128 = wide_mul(notional, SCALE);
    proof {
        assert(-0x20_0000_0000_0000_0000_0000_0000_0000 <= scaled * 100_000_000
            <= 0x20_0000_0000_0000_0000_0000_0000_0000) by (nonlinear_arith)
            requires
                scaled == notional * 100_000_000,
                -0x8000_0000_0000_0000 <= notional <= 0x7fff_ffff_ffff_ffff,
        ;
        assert(notional * SCALE * SCALE == scaled * 100_000_000);
        assert(price * cv > 0) by (nonlinear_arith)
            requires
                price > 0,
                cv > 0,
        ;
    }
    let numerator: i128 = scaled * (SCALE as i128);
    let denominator: i128 = wide_mul(price, cv);
    let raw: i128 = div_floor(numerator, denominator);
    apply_bounds(raw, info)
}

/// Order size for `notional` at `price` on a linear venue.
pub fn calc_binance_order_size(price: i64, notional: i64, info: &InstrumentInfo) -> (r: Result<
    i64,
    SizingError,
>)
    ensures
        r == binance_order_size(price as int, notional as int, *info),
{
    if price <= 0 {
        return Err(SizingError::InvalidPrice);
    }
    let numerator: i128 = wide_mul(notional, SCALE);
    let raw: i128 = div_floor(numerator, price as i128);
    apply_bounds(raw, info)
}

/// A computed size is a whole number of lots, does not exceed the upper
/// bound, and lies less than one lot below the lower bound.
pub proof fn lemma_bounded_size_in_bounds(raw: int, info: InstrumentInfo)
    requires
        bounded_size(raw, info) is Ok,
    ensures
        (bounded_size(raw, info)->Ok_0 as int) % (info.lot_size as int) == 0,
        bounded_size(raw, info)->Ok_0 <= info.upper_bound(),
        bounded_size(raw, info)->Ok_0 > info.lower_bound() - info.lot_size,
        info.lot_size > 0,
        info.lower_bound() % (info.lot_size as int) == 0 ==> bounded_size(raw, info)->Ok_0
            >= info.lower_bound(),
{
    let lot = info.lot_size as int;
    let c = clamp(raw, info.lower_bound(), info.upper_bound());
    let lo = info.lower_bound();
    vstd::arithmetic::div_mod::lemma_fundamental_div_mod(c, lot);
    vstd::arithmetic::div_mod::lemma_mod_bound(c, lot);
    assert(lot * (c / lot) == (c / lot) * lot) by (nonlinear_arith);
    vstd::arithmetic::div_mod::lemma_mod_multiples_basic(c / lot, lot);
    if lo % lot == 0 {
        // lo is itself a multiple of lot and lo <= c, so the floor multiple is
        // at least lo
        vstd::arithmetic::div_mod::lemma_fundamental_div_mod(lo, lot);
        assert(lot * (lo / lot) == (lo / lot) * lot) by (nonlinear_arith);
        vstd::arithmetic::div_mod::lemma_div_is_ordered(lo, c, lot);
        assert((lo / lot) * lot <= (c / lot) * lot) by (nonlinear_arith)
            requires
                lo / lot <= c / lot,
                lot > 0,
        ;
    }
}

/// A quantity that already lies within the bounds is only rounded: the size
/// is the largest whole number of lots not above it.
pub proof fn lemma_bounded_size_inside(raw: int, info: InstrumentInfo)
    requires
        info.lot_size > 0,
        info.lower_bound() <= raw <= info.upper_bound(),
    ensures
        bounded_size(raw, info) is Ok ==> raw - info.lot_size < bounded_size(raw, info)->Ok_0
            <= raw,
{
    let lot = info.lot_size as int;
    vstd::arithmetic::div_mod::lemma_fundamental_div_mod(raw, lot);
    vstd::arithmetic::div_mod::lemma_mod_bound(raw, lot);
    assert(lot * (raw / lot) == (raw / lot) * lot) by (nonlinear_arith);
}

/// A size is owed wherever the lot size is positive, the bounds do not cross
/// and the rounded quantity can be stored. It is then a whole number of lots,
/// not above the clamped quantity, less than one lot below it, and so not
/// above the upper bound: rounding never goes up to the next lot.
pub proof fn lemma_bounded_size_owed(raw: int, info: InstrumentInfo)
    requires
        info.lot_size > 0,
        info.lower_bound() <= info.upper_bound(),
        round_down_to_lot(
            clamp(raw, info.lower_bound(), info.upper_bound()),
            info.lot_size as int,
        ) >= i64::MIN,
    ensures
        bounded_size(raw, info) is Ok,
        (bounded_size(raw, info)->Ok_0 as int) % (info.lot_size as int) == 0,
        bounded_size(raw, info)->Ok_0 <= clamp(raw, info.lower_bound(), info.upper_bound()),
        clamp(raw, info.lower_bound(), info.upper_bound()) - bounded_size(raw, info)->Ok_0
            < info.lot_size,
        bounded_size(raw, info)->Ok_0 <= info.upper_bound(),
{
    let lot = info.lot_size as int;
    let c = clamp(raw, info.lower_bound(), info.upper_bound());
    vstd::arithmetic::div_mod::lemma_fundamental_div_mod(c, lot);
    vstd::arithmetic::div_mod::lemma_mod_bound(c, lot);
    assert(lot * (c / lot) == (c / lot) * lot) by (nonlinear_arith);
    vstd::arithmetic::div_mod::lemma_mod_multiples_basic(c / lot, lot);
}

/// The rounded quantity can be stored wherever the quantity before bounds and
/// the upper bound are not negative: the size is then not negative either.
pub proof fn lemma_nonnegative_size_is_storable(raw: int, info: InstrumentInfo)
    requires
        info.lot_size > 0,
        info.lower_bound() <= info.upper_bound(),
        raw >= 0,
        info.upper_bound() >= 0,
    ensures
        round_down_to_lot(
            clamp(raw, info.lower_bound(), info.upper_bound()),
            info.lot_size as int,
        ) >= 0,
{
    let lot = info.lot_size as int;
    let c = clamp(raw, info.lower_bound(), info.upper_bound());
    vstd::arithmetic::div_mod::lemma_div_pos_is_pos(c, lot);
    assert((c / lot) * lot >= 0) by (nonlinear_arith)
        requires
            c / lot >= 0,
            lot > 0,
    ;
}

/// The sizing law of the linear venue: with a positive price, a positive lot
/// size and bounds that do not cross, a size is returned wherever it can be
/// stored, and it is the clamped quantity rounded down to a whole number of
/// lots.
pub proof fn lemma_binance_size_law(price: int, notional: int, info: InstrumentInfo)
    requires
        price > 0,
        info.lot_size > 0,
        info.lower_bound() <= info.upper_bound(),
        round_down_to_lot(
            clamp(linear_quantity(notional, price), info.lower_bound(), info.upper_bound()),
            info.lot_size as int,
        ) >= i64::MIN,
    ensures
        binance_order_size(price, notional, info) is Ok,
        (binance_order_size(price, notional, info)->Ok_0 as int) % (info.lot_size as int) == 0,
        binance_order_size(price, notional, info)->Ok_0 <= clamp(
            linear_quantity(notional, price),
            info.lower_bound(),
            info.upper_bound(),
        ),
        clamp(linear_quantity(notional, price), info.lower_bound(), info.upper_bound())
            - binance_order_size(price, notional, info)->Ok_0 < info.lot_size,
        binance_order_size(price, notional, info)->Ok_0 <= info.upper_bound(),
{
    lemma_bounded_size_owed(linear_quantity(notional, price), info);
}

/// On the linear venue an order for a notional that is not negative, under
/// an upper bound that is not negative, always gets a size.
pub proof fn lemma_binance_size_owed(price: int, notional: int, info: InstrumentInfo)
    requires
        price > 0,
        notional >= 0,
        info.lot_size > 0,
        info.lower_bound() <= info.upper_bound(),
        info.upper_bound() >= 0,
    ensures
        binance_order_size(price, notional, info) is Ok,
{
    assert(notional * SCALE >= 0) by (nonlinear_arith)
        requires
            notional >= 0,
    ;
    vstd::arithmetic::div_mod::lemma_div_pos_is_pos(notional * SCALE, price);
    lemma_nonnegative_size_is_storable(linear_quantity(notional, price), info);
}

/// The sizing law of the contract venue: with a positive price, a positive
/// contract value, a positive lot size and bounds that do not cross, a size
/// is returned wherever it can be stored, and it is the clamped number of
/// contracts rounded down to a whole number of lots.
pub proof fn lemma_okx_size_law(price: int, notional: int, info: InstrumentInfo)
    requires
        price > 0,
        info.contract_value is Some,
        info.contract_value->Some_0 > 0,
        info.lot_size > 0,
        info.lower_bound() <= info.upper_bound(),
        round_down_to_lot(
            clamp(
                contract_quantity(notional, price, info.contract_value->Some_0 as int),
                info.lower_bound(),
                info.upper_bound(),
            ),
            info.lot_size as int,
        ) >= i64::MIN,
    ensures
        okx_order_size(price, notional, info) is Ok,
        (okx_order_size(price, notional, info)->Ok_0 as int) % (info.lot_size as int) == 0,
        okx_order_size(price, notional, info)->Ok_0 <= clamp(
            contract_quantity(notional, price, info.contract_value->Some_0 as int),
            info.lower_bound(),
            info.upper_bound(),
        ),
        clamp(
            contract_quantity(notional, price, info.contract_value->Some_0 as int),
            info.lower_bound(),
            info.upper_bound(),
        ) - okx_order_size(price, notional, info)->Ok_0 < info.lot_size,
        okx_order_size(price, notional, info)->Ok_0 <= info.upper_bound(),
{
    lemma_bounded_size_owed(
        contract_quantity(notional, price, info.contract_value->Some_0 as int),
        info,
    );
}

} // verus!
