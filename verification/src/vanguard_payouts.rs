//! Eve Uni Vanguard site payout presets (ISK and LP per character).

use vstd::prelude::*;

verus! {

#[derive(Debug, Clone, Copy, PartialEq, Eq, Structural)]
pub enum SpaceBand {
    Highsec,
    LowNull,
}

#[derive(Debug, Clone, Copy, PartialEq, Eq, Structural)]
pub struct PayoutTicket {
    pub isk: i64,
    pub lp_per_char: i64,
}

/// The preset ticket for a space band and fleet size (sizes below 1 count as 1).
pub open spec fn payout_for(space: SpaceBand, fleet_size: u32) -> PayoutTicket {
    let size = if fleet_size < 1 {
        1
    } else {
        fleet_size
    };
    match space {
        SpaceBand::LowNull => if size <= 15 {
            PayoutTicket { isk: 15_000_000, lp_per_char: 2_000 }
        } else if size == 16 {
            PayoutTicket { isk: 13_875_000, lp_per_char: 1_850 }
        } else {
            PayoutTicket { isk: 12_674_000, lp_per_char: 1_690 }
        },
        SpaceBand::Highsec => if size <= 10 {
            PayoutTicket { isk: 10_395_000, lp_per_char: 1_400 }
        } else if size == 11 {
            PayoutTicket { isk: 9_615_375, lp_per_char: 1_295 }
        } else if size == 12 {
            PayoutTicket { isk: 8_783_775, lp_per_char: 1_183 }
        } else {
            PayoutTicket { isk: 7_900_200, lp_per_char: 1_064 }
        },
    }
}

/// Look up the expected per-character ticket for a space band and fleet size.
/// Fleets below the soft cap still receive the maximum individual payout.
pub fn lookup_payout(space: SpaceBand, fleet_size: u32) -> (t: PayoutTicket)
    ensures
        t == payout_for(space, fleet_size),
{
    let size = if fleet_size < 1 {
        1
    } else {
        fleet_size
    };
    match space {
        SpaceBand::LowNull => if size <= 15 {
            PayoutTicket { isk: 15_000_000, lp_per_char: 2_000 }
        } else if size == 16 {
            PayoutTicket { isk: 13_875_000, lp_per_char: 1_850 }
        } else {
            PayoutTicket { isk: 12_674_000, lp_per_char: 1_690 }
        },
        SpaceBand::Highsec => if size <= 10 {
            PayoutTicket { isk: 10_395_000, lp_per_char: 1_400 }
        } else if size == 11 {
            PayoutTicket { isk: 9_615_375, lp_per_char: 1_295 }
        } else if size == 12 {
            PayoutTicket { isk: 8_783_775, lp_per_char: 1_183 }
        } else {
            PayoutTicket { isk: 7_900_200, lp_per_char: 1_064 }
        },
    }
}

/// The payout never grows with fleet size: a larger fleet gets at most the
/// ISK and LP of a smaller one.
pub proof fn payout_non_increasing(space: SpaceBand, a: u32, b: u32)
    requires
        a <= b,
    ensures
        payout_for(space, b).isk <= payout_for(space, a).isk,
        payout_for(space, b).lp_per_char <= payout_for(space, a).lp_per_char,
{
}


/// Past the soft cap each added pilot lowers the ticket until the table
/// ends: in highsec every size from 10 to 13, in low/null every size from 15
/// to 17, pays strictly less ISK and LP than any smaller size in that range;
/// below the cap and past the end the ticket stays the same.
pub proof fn law_each_pilot_past_cap_lowers_the_ticket(space: SpaceBand, a: u32, b: u32)
    requires
        a < b,
    ensures
        ({
            let (cap, end) = match space {
                SpaceBand::Highsec => (10u32, 13u32),
                SpaceBand::LowNull => (15u32, 17u32),
            };
            &&& cap <= a && b <= end ==> payout_for(space, b).isk < payout_for(space, a).isk
                && payout_for(space, b).lp_per_char < payout_for(space, a).lp_per_char
            &&& b <= cap ==> payout_for(space, a) == payout_for(space, b)
            &&& end <= a ==> payout_for(space, a) == payout_for(space, b)
        }),
{
}

/// Every highsec ticket pays the same 7,425 ISK per LP.
pub proof fn law_highsec_isk_per_lp(fleet_size: u32)
    ensures
        payout_for(SpaceBand::Highsec, fleet_size).isk == 7_425 * payout_for(SpaceBand::Highsec, fleet_size).lp_per_char,
{
}

/// The first pilot past the soft cap cuts the ticket to 92.5% in both
/// bands, in ISK and in LP.
pub proof fn law_first_pilot_past_cap(space: SpaceBand)
    ensures
        ({
            let cap: u32 = match space {
                SpaceBand::Highsec => 10,
                SpaceBand::LowNull => 15,
            };
            &&& 40 * payout_for(space, (cap + 1) as u32).isk == 37 * payout_for(space, cap).isk
            &&& 40 * payout_for(space, (cap + 1) as u32).lp_per_char == 37 * payout_for(space, cap).lp_per_char
        }),
{
}

} // verus!
