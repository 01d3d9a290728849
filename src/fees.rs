use vstd::prelude::*;

verus! {

/// The lowest fee rate, in satoshi per 1000 weight units, that the protocol accepts.
pub const MIN_FEE_SAT_PER_1000_WEIGHT: u64 = 253;

/// Satoshi per kilobyte divided by this gives satoshi per 1000 weight units.
pub const WEIGHT_DIVISOR: u64 = 250;

/// Added to every converted estimate as a safety margin.
pub const FEE_MARGIN: u64 = 3;

/// How soon a transaction should confirm.
#[derive(Clone, Copy, Debug, PartialEq, Eq, Structural)]
pub enum ConfirmationTarget {
    Background,
    Normal,
    HighPriority,
}

/// The parameters of one `estimatesmartfee` query.
#[derive(Clone, Copy, Debug, PartialEq, Eq, Structural)]
pub struct FeeQuery {
    pub tier: ConfirmationTarget,
    /// Number of blocks within which confirmation is wanted.
    pub blocks: u32,
    /// The `CONSERVATIVE` estimate mode rather than `ECONOMICAL`.
    pub conservative: bool,
}

/// Converts a rate in satoshi per kilobyte into satoshi per 1000 weight units,
/// margin included.
pub open spec fn converted_rate(sat_per_kb: u64) -> int {
    sat_per_kb as int / WEIGHT_DIVISOR as int + FEE_MARGIN as int
}

pub open spec fn floored(v: u64) -> u64 {
    if v < MIN_FEE_SAT_PER_1000_WEIGHT {
        MIN_FEE_SAT_PER_1000_WEIGHT
    } else {
        v
    }
}

/// Three fee-rate estimates, each replaced on its own.
pub struct FeeEstimator {
    background_est: u64,
    normal_est: u64,
    high_prio_est: u64,
}

impl FeeEstimator {
    /// The stored estimate of one tier, before the floor is applied.
    pub closed spec fn stored(&self, tier: ConfirmationTarget) -> u64 {
        match tier {
            ConfirmationTarget::Background => self.background_est,
            ConfirmationTarget::Normal => self.normal_est,
            ConfirmationTarget::HighPriority => self.high_prio_est,
        }
    }

    /// An estimator before any refresh: every tier holds zero.
    pub fn new() -> (r: Self)
        ensures
            forall|t: ConfirmationTarget| #[trigger] r.stored(t) == 0,
    {
        FeeEstimator { background_est: 0, normal_est: 0, high_prio_est: 0 }
    }

    /// The three queries a refresh issues, one per tier.
    pub fn queries() -> (r: Vec<FeeQuery>)
        ensures
            r@ == seq![
                FeeQuery { tier: ConfirmationTarget::HighPriority, blocks: 6, conservative: true },
                FeeQuery { tier: ConfirmationTarget::Normal, blocks: 18, conservative: false },
                FeeQuery { tier: ConfirmationTarget::Background, blocks: 144, conservative: false },
            ],
    {
        let mut r: Vec<FeeQuery> = Vec::new();
        r.push(FeeQuery { tier: ConfirmationTarget::HighPriority, blocks: 6, conservative: true });
        r.push(FeeQuery { tier: ConfirmationTarget::Normal, blocks: 18, conservative: false });
        r.push(FeeQuery { tier: ConfirmationTarget::Background, blocks: 144, conservative: false });
        r
    }

    /// Records the answer to one tier's query. `sat_per_kb` is the reported rate
    /// in satoshi per kilobyte, or `None` where the query failed or reported no
    /// rate; then nothing changes.
    pub fn update_value(&mut self, tier: ConfirmationTarget, sat_per_kb: Option<u64>)
        ensures
            forall|t: ConfirmationTarget|
                t != tier ==> #[trigger] final(self).stored(t) == old(self).stored(t),
            final(self).stored(tier) == match sat_per_kb {
                Some(rate) => converted_rate(rate) as u64,
                None => old(self).stored(tier),
            },
    {
        if let Some(rate) = sat_per_kb {
            let v: u64 = rate / WEIGHT_DIVISOR + FEE_MARGIN;
            match tier {
                ConfirmationTarget::Background => self.background_est = v,
                ConfirmationTarget::Normal => self.normal_est = v,
                ConfirmationTarget::HighPriority => self.high_prio_est = v,
            }
        }
    }

    /// Records the answers to a refresh: the reported rates, in satoshi per
    /// kilobyte, of the high-priority, normal and background queries. A tier
    /// whose query failed keeps its value.
    pub fn update_values(
        &mut self,
        high_prio: Option<u64>,
        normal: Option<u64>,
        background: Option<u64>,
    )
        ensures
            forall|t: ConfirmationTarget| #[trigger]
                final(self).stored(t) == match (match t {
                    ConfirmationTarget::HighPriority => high_prio,
                    ConfirmationTarget::Normal => normal,
                    ConfirmationTarget::Background => background,
                }) {
                    Some(rate) => converted_rate(rate) as u64,
                    None => old(self).stored(t),
                },
    {
        self.update_value(ConfirmationTarget::HighPriority, high_prio);
        self.update_value(ConfirmationTarget::Normal, normal);
        self.update_value(ConfirmationTarget::Background, background);
    }

    /// The estimate of one tier, never below the protocol minimum.
    pub fn get_est_sat_per_1000_weight(&self, tier: ConfirmationTarget) -> (r: u64)
        ensures
            r == floored(self.stored(tier)),
            r >= MIN_FEE_SAT_PER_1000_WEIGHT,
    {
        let v: u64 = match tier {
            ConfirmationTarget::Background => self.background_est,
            ConfirmationTarget::Normal => self.normal_est,
            ConfirmationTarget::HighPriority => self.high_prio_est,
        };
        if v < MIN_FEE_SAT_PER_1000_WEIGHT {
            MIN_FEE_SAT_PER_1000_WEIGHT
        } else {
            v
        }
    }
}

} // verus!
