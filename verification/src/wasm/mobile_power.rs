//! Mobile power states and the privacy tier each one affords.
use vstd::prelude::*;

verus! {

pub struct MobileDeviceState {
    pub is_charging: bool,
    pub wifi_connected: bool,
    pub cellular_5g_active: bool,
    pub battery_pct: u8,
}

/// Which privacy tier a device state affords.
#[derive(Debug, Clone, Copy, PartialEq, Eq, Structural)]
pub enum PrivacyTierKind {
    /// Constant-rate padding (on wall power and Wi-Fi).
    ConstantRate,
    /// Coalesced bursts per epoch (on 5G with battery above 30%).
    CoalescedBurst,
    /// Asynchronous storage relays, no standby cover.
    AsyncStorageRelay,
}

/// The tier a device state affords.
pub open spec fn tier_for(state: MobileDeviceState) -> PrivacyTierKind {
    if state.is_charging && state.wifi_connected {
        PrivacyTierKind::ConstantRate
    } else if state.battery_pct > 30 && state.cellular_5g_active {
        PrivacyTierKind::CoalescedBurst
    } else {
        PrivacyTierKind::AsyncStorageRelay
    }
}

/// The guidance shown to the user for each tier.
pub open spec fn tier_message(k: PrivacyTierKind) -> Seq<char> {
    match k {
        PrivacyTierKind::ConstantRate => "🟢 GREEN (Tier 2 Active): Full Global Passive Adversary (GPA) Protection Active. Wire traffic is 100% constant-rate padded."@,
        PrivacyTierKind::CoalescedBurst => "🟡 YELLOW (Tier 1.5 Active): Regional Tier-1 Protection Active. Coalesced epoch pacing engaged to conserve battery (<1.4%/hr)."@,
        PrivacyTierKind::AsyncStorageRelay => "🔴 ORANGE (Tier 1 Async Active): Local Defense Only. Standby cover traffic disabled for battery preservation. Note: Extended communication over weeks in Tier 1 without cover traffic may expose communication metadata to a Global Passive wiretap performing intersection analysis."@,
    }
}

/// The tier a device state affords, with the guidance shown to the user.
pub fn choose_privacy_tier(state: &MobileDeviceState) -> (r: (PrivacyTierKind, &'static str))
    ensures
        r.0 == tier_for(*state),
        r.1@ == tier_message(r.0),
{
    if state.is_charging && state.wifi_connected {
        (
            PrivacyTierKind::ConstantRate,
            "🟢 GREEN (Tier 2 Active): Full Global Passive Adversary (GPA) Protection Active. Wire traffic is 100% constant-rate padded.",
        )
    } else if state.battery_pct > 30 && state.cellular_5g_active {
        (
            PrivacyTierKind::CoalescedBurst,
            "🟡 YELLOW (Tier 1.5 Active): Regional Tier-1 Protection Active. Coalesced epoch pacing engaged to conserve battery (<1.4%/hr).",
        )
    } else {
        (
            PrivacyTierKind::AsyncStorageRelay,
            "🔴 ORANGE (Tier 1 Async Active): Local Defense Only. Standby cover traffic disabled for battery preservation. Note: Extended communication over weeks in Tier 1 without cover traffic may expose communication metadata to a Global Passive wiretap performing intersection analysis.",
        )
    }
}

} // verus!
