use vstd::prelude::*;

verus! {

/// A digest meets fine difficulty `fine` when its first `fine` bytes exist
/// and are all zero.
pub open spec fn meets_difficulty(hash: Seq<u8>, fine: int) -> bool {
    &&& fine <= hash.len()
    &&& forall|i: int| 0 <= i < fine ==> hash[i] == 0
}

/// Tells whether the first `fine_difficulty` bytes of the digest are all
/// zero. Leading bytes, not bits.
pub fn check_difficulty(hash: &[u8; 64], fine_difficulty: u8) -> (ok: bool)
    ensures
        ok == meets_difficulty(hash@, fine_difficulty as int),
{
    let mut leading_zeros: usize = 0;
    while leading_zeros < 64 && hash[leading_zeros] == 0
        invariant
            leading_zeros <= 64,
            forall|i: int| 0 <= i < leading_zeros ==> hash[i] == 0,
        decreases 64 - leading_zeros,
    {
        leading_zeros += 1;
    }
    leading_zeros >= fine_difficulty as usize
}

/// The difficulty after one adjustment step: a block time under half the
/// target raises the fine level, carrying into the tier at 255; one over
/// twice the target lowers it, borrowing from the tier at 0; the tier
/// saturates at both ends.
pub open spec fn adjusted_difficulty(tier: u8, fine: u8, actual_time: u64, target_time: u64) -> (
    u8,
    u8,
) {
    if actual_time < target_time / 2 {
        if fine < 255 {
            (tier, (fine + 1) as u8)
        } else {
            (if tier < 255 { (tier + 1) as u8 } else { 255u8 }, 0u8)
        }
    } else if actual_time > target_time * 2 {
        if fine > 0 {
            (tier, (fine - 1) as u8)
        } else {
            (if tier > 0 { (tier - 1) as u8 } else { 0u8 }, 255u8)
        }
    } else {
        (tier, fine)
    }
}

/// One adjustment step from the time the latest block took.
pub fn adjust_difficulty(current_tier: u8, current_fine: u8, actual_time: u64, target_time: u64) -> (next: (
    u8,
    u8,
))
    ensures
        next == adjusted_difficulty(current_tier, current_fine, actual_time, target_time),
{
    if actual_time < target_time / 2 {
        if current_fine < 255 {
            (current_tier, current_fine + 1)
        } else {
            (current_tier.saturating_add(1), 0)
        }
    } else if (actual_time as u128) > (target_time as u128) * 2 {
        if current_fine > 0 {
            (current_tier, current_fine - 1)
        } else {
            (current_tier.saturating_sub(1), 255)
        }
    } else {
        (current_tier, current_fine)
    }
}

} // verus!
