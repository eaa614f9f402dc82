use vstd::prelude::*;

verus! {

/// AP spent per movement leg.
pub const MOVE_AP_COST: i32 = 1;

/// Integer division by a positive divisor rounding toward zero, as `i32` division does.
pub open spec fn div_toward_zero(a: int, b: int) -> int {
    if a >= 0 {
        a / b
    } else {
        -((-a) / b)
    }
}

/// Tiles per AP for a speed: `speed / 8` (rounded toward zero), at least 1.
pub open spec fn spec_move_range_per_ap(speed: i32) -> int {
    if div_toward_zero(speed as int, 8) > 1 {
        div_toward_zero(speed as int, 8)
    } else {
        1
    }
}

/// Tiles a combatant with the given speed stat can traverse per AP spent:
/// `speed / 8`, at least 1 (speeds below 16 give 1 tile/AP, 16-23 give 2,
/// 24-31 give 3, and so on).
pub fn move_range_per_ap(speed: i32) -> (r: i32)
    ensures
        r == spec_move_range_per_ap(speed),
        r >= 1,
{
    let q = speed / 8;
    if q > 1 {
        q
    } else {
        1
    }
}

/// AP to cross `steps` tiles: one AP per started group of `range` tiles, that is
/// `(steps + range - 1) / range` rounded toward zero.
pub open spec fn spec_move_ap_cost(steps: i32, speed: i32) -> int {
    let range = spec_move_range_per_ap(speed);
    MOVE_AP_COST * div_toward_zero(steps + range - 1, range)
}

/// AP cost to traverse `steps` path tiles for an actor with the given speed stat.
pub fn move_ap_cost(steps: i32, speed: i32) -> (c: i32)
    requires
        steps + spec_move_range_per_ap(speed) <= i32::MAX,
    ensures
        c == spec_move_ap_cost(steps, speed),
{
    let range = move_range_per_ap(speed);
    MOVE_AP_COST * ((steps + range - 1) / range)
}

} // verus!
