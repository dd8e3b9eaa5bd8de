//! Membership tiers: balance thresholds decide a user's tier, each tier
//! carries a benefits multiplier, and every tier change is recorded in a
//! capped per-user history.
//!
//! Caller identities are plain integers; the host adapter authenticates them
//! and reads the clock before calling in.

use vstd::prelude::*;

use crate::store::IdListStore;
use crate::store::IdValueStore;

verus! {

/// The failure kinds of the membership-tier contract.
#[derive(Copy, Clone, Debug, Eq, PartialEq, Structural)]
pub enum MembershipError {
    AlreadyInitialized,
    Unauthorized,
    InvalidThresholds,
    UserNotFound,
    InvalidTier,
}

/// A membership tier, ordered from none to gold.
#[derive(Copy, Clone, Debug, Eq, PartialEq, Structural)]
pub enum Tier {
    Unranked,
    Bronze,
    Silver,
    Gold,
}

/// The balance a user must hold to reach each tier.
#[derive(Copy, Clone, Debug, Eq, PartialEq, Structural)]
pub struct TierThresholds {
    pub bronze: i128,
    pub silver: i128,
    pub gold: i128,
}

/// The benefits of a tier: a multiplier in basis points (10000 is 1.0x).
#[derive(Copy, Clone, Debug, Eq, PartialEq, Structural)]
pub struct TierBenefits {
    pub multiplier: u32,
}

/// One recorded tier change.
#[derive(Copy, Clone, Debug, Eq, PartialEq, Structural)]
pub struct TierHistoryEntry {
    pub tier: Tier,
    pub timestamp: u64,
    pub token_balance: i128,
}

/// A user's current tier and when it last changed.
#[derive(Copy, Clone, Debug, Eq, PartialEq, Structural)]
pub struct UserTierInfo {
    pub current_tier: Tier,
    pub last_updated: u64,
}

/// How many history entries are kept per user.
pub const MAX_TIER_HISTORY: usize = 50;

/// The tier a balance earns under the given thresholds.
pub open spec fn tier_for(t: TierThresholds, token_balance: i128) -> Tier {
    if token_balance >= t.gold {
        Tier::Gold
    } else if token_balance >= t.silver {
        Tier::Silver
    } else if token_balance >= t.bronze {
        Tier::Bronze
    } else {
        Tier::Unranked
    }
}

/// A history after one more entry: the entry is appended, and the oldest
/// entry is dropped once the cap is passed.
pub open spec fn history_after(h: Seq<TierHistoryEntry>, e: TierHistoryEntry) -> Seq<
    TierHistoryEntry,
> {
    let h2 = h.push(e);
    if h2.len() > MAX_TIER_HISTORY {
        h2.subrange(1, h2.len() as int)
    } else {
        h2
    }
}

/// The membership-tier contract: the admin, the thresholds, the per-tier
/// benefits, and the per-user tier records and histories.
pub struct MembershipTiersContract {
    admin: Option<u64>,
    thresholds: TierThresholds,
    benefits_none: TierBenefits,
    benefits_bronze: TierBenefits,
    benefits_silver: TierBenefits,
    benefits_gold: TierBenefits,
    user_tiers: IdValueStore<UserTierInfo>,
    histories: IdListStore<TierHistoryEntry>,
}

impl MembershipTiersContract {
    /// Both per-user stores are well formed.
    pub closed spec fn wf(&self) -> bool {
        &&& self.user_tiers.wf()
        &&& self.histories.wf()
    }

    /// The admin, once initialized.
    pub closed spec fn spec_admin(&self) -> Option<u64> {
        self.admin
    }

    /// The current thresholds.
    pub closed spec fn spec_thresholds(&self) -> TierThresholds {
        self.thresholds
    }

    /// The benefits of a tier.
    pub closed spec fn spec_benefits(&self, tier: Tier) -> TierBenefits {
        match tier {
            Tier::Unranked => self.benefits_none,
            Tier::Bronze => self.benefits_bronze,
            Tier::Silver => self.benefits_silver,
            Tier::Gold => self.benefits_gold,
        }
    }

    /// A user's stored tier record, if any.
    pub closed spec fn spec_user_info(&self, user: u64) -> Option<UserTierInfo> {
        self.user_tiers.spec_get(user)
    }

    /// A user's current tier; `Tier::Unranked` when no record exists.
    pub open spec fn spec_user_tier(&self, user: u64) -> Tier {
        match self.spec_user_info(user) {
            Some(info) => info.current_tier,
            None => Tier::Unranked,
        }
    }

    /// A user's recorded tier history.
    pub closed spec fn spec_history(&self, user: u64) -> Seq<TierHistoryEntry> {
        self.histories.spec_get(user)
    }

    /// All per-user records agree between two states.
    pub open spec fn same_users(pre: &Self, post: &Self) -> bool {
        &&& forall|u: u64| #[trigger] post.spec_user_info(u) == pre.spec_user_info(u)
        &&& forall|u: u64| #[trigger] post.spec_history(u) == pre.spec_history(u)
    }

    /// Admin, thresholds and benefits agree between two states.
    pub open spec fn same_config(pre: &Self, post: &Self) -> bool {
        &&& post.spec_admin() == pre.spec_admin()
        &&& post.spec_thresholds() == pre.spec_thresholds()
        &&& forall|t: Tier| #[trigger] post.spec_benefits(t) == pre.spec_benefits(t)
    }

    /// A fresh contract: no admin, the default thresholds, every multiplier
    /// at 1.0x, and no user records.
    pub fn new() -> (r: Self)
        ensures
            r.wf(),
            r.spec_admin() is None,
            r.spec_thresholds() == (TierThresholds { bronze: 1000, silver: 5000, gold: 10000 }),
            forall|t: Tier| #[trigger] r.spec_benefits(t) == (TierBenefits { multiplier: 10000 }),
            forall|u: u64| #[trigger] r.spec_user_info(u) is None,
            forall|u: u64| #[trigger] r.spec_history(u) == Seq::<TierHistoryEntry>::empty(),
    {
        MembershipTiersContract {
            admin: None,
            thresholds: TierThresholds { bronze: 1000, silver: 5000, gold: 10000 },
            benefits_none: TierBenefits { multiplier: 10000 },
            benefits_bronze: TierBenefits { multiplier: 10000 },
            benefits_silver: TierBenefits { multiplier: 10000 },
            benefits_gold: TierBenefits { multiplier: 10000 },
            user_tiers: IdValueStore::new(),
            histories: IdListStore::new(),
        }
    }

    /// Installs `admin` and the default thresholds and benefits. Fails when
    /// an admin is already installed; an error changes nothing.
    pub fn initialize(&mut self, admin: u64) -> (r: Result<(), MembershipError>)
        requires
            old(self).wf(),
        ensures
            final(self).wf(),
            old(self).spec_admin() is Some ==> r == Err::<(), MembershipError>(
                MembershipError::AlreadyInitialized,
            ) && *final(self) == *old(self),
            old(self).spec_admin() is None ==> {
                &&& r == Ok::<(), MembershipError>(())
                &&& final(self).spec_admin() == Some(admin)
                &&& final(self).spec_thresholds() == (TierThresholds {
                    bronze: 1000,
                    silver: 5000,
                    gold: 10000,
                })
                &&& final(self).spec_benefits(Tier::Bronze) == (TierBenefits { multiplier: 10000 })
                &&& final(self).spec_benefits(Tier::Silver) == (TierBenefits { multiplier: 12000 })
                &&& final(self).spec_benefits(Tier::Gold) == (TierBenefits { multiplier: 15000 })
                &&& final(self).spec_benefits(Tier::Unranked) == old(self).spec_benefits(Tier::Unranked)
                &&& Self::same_users(old(self), final(self))
            },
    {
        if self.admin.is_some() {
            return Err(MembershipError::AlreadyInitialized);
        }
        self.admin = Some(admin);
        self.thresholds = TierThresholds { bronze: 1000, silver: 5000, gold: 10000 };
        self.benefits_bronze = TierBenefits { multiplier: 10000 };
        self.benefits_silver = TierBenefits { multiplier: 12000 };
        self.benefits_gold = TierBenefits { multiplier: 15000 };
        Ok(())
    }

    /// Whether `caller` is the installed admin.
    pub fn is_admin(&self, caller: u64) -> (r: bool)
        ensures
            r == (self.spec_admin() == Some(caller)),
    {
        match self.admin {
            Some(a) => a == caller,
            None => false,
        }
    }

    /// Replaces the thresholds. Only the admin may call; the thresholds must
    /// be strictly increasing from bronze to gold. An error changes nothing.
    pub fn set_tier_thresholds(
        &mut self,
        admin: u64,
        bronze: i128,
        silver: i128,
        gold: i128,
    ) -> (r: Result<(), MembershipError>)
        requires
            old(self).wf(),
        ensures
            final(self).wf(),
            old(self).spec_admin() != Some(admin) ==> r == Err::<(), MembershipError>(
                MembershipError::Unauthorized,
            ) && *final(self) == *old(self),
            old(self).spec_admin() == Some(admin) && (bronze >= silver || silver >= gold) ==> r
                == Err::<(), MembershipError>(MembershipError::InvalidThresholds) && *final(self)
                == *old(self),
            old(self).spec_admin() == Some(admin) && bronze < silver && silver < gold ==> {
                &&& r == Ok::<(), MembershipError>(())
                &&& final(self).spec_thresholds() == (TierThresholds { bronze, silver, gold })
                &&& final(self).spec_admin() == old(self).spec_admin()
                &&& forall|t: Tier| #[trigger] final(self).spec_benefits(t) == old(
                    self,
                ).spec_benefits(t)
                &&& Self::same_users(old(self), final(self))
            },
    {
        if !self.is_admin(admin) {
            return Err(MembershipError::Unauthorized);
        }
        if bronze >= silver || silver >= gold {
            return Err(MembershipError::InvalidThresholds);
        }
        self.thresholds = TierThresholds { bronze, silver, gold };
        Ok(())
    }

    /// Replaces one tier's benefits. Only the admin may call; an error
    /// changes nothing.
    pub fn set_tier_benefits(&mut self, admin: u64, tier: Tier, benefits: TierBenefits) -> (r:
        Result<(), MembershipError>)
        requires
            old(self).wf(),
        ensures
            final(self).wf(),
            old(self).spec_admin() != Some(admin) ==> r == Err::<(), MembershipError>(
                MembershipError::Unauthorized,
            ) && *final(self) == *old(self),
            old(self).spec_admin() == Some(admin) ==> {
                &&& r == Ok::<(), MembershipError>(())
                &&& final(self).spec_benefits(tier) == benefits
                &&& forall|t: Tier|
                    t != tier ==> #[trigger] final(self).spec_benefits(t) == old(
                        self,
                    ).spec_benefits(t)
                &&& final(self).spec_admin() == old(self).spec_admin()
                &&& final(self).spec_thresholds() == old(self).spec_thresholds()
                &&& Self::same_users(old(self), final(self))
            },
    {
        if !self.is_admin(admin) {
            return Err(MembershipError::Unauthorized);
        }
        match tier {
            Tier::Unranked => {
                self.benefits_none = benefits;
            },
            Tier::Bronze => {
                self.benefits_bronze = benefits;
            },
            Tier::Silver => {
                self.benefits_silver = benefits;
            },
            Tier::Gold => {
                self.benefits_gold = benefits;
            },
        }
        Ok(())
    }

    /// The tier a balance earns under the current thresholds. A pure read.
    pub fn get_user_tier(&self, _user: u64, token_balance: i128) -> (r: Tier)
        ensures
            r == tier_for(self.spec_thresholds(), token_balance),
    {
        if token_balance >= self.thresholds.gold {
            Tier::Gold
        } else if token_balance >= self.thresholds.silver {
            Tier::Silver
        } else if token_balance >= self.thresholds.bronze {
            Tier::Bronze
        } else {
            Tier::Unranked
        }
    }

    /// Recomputes a user's tier from `token_balance` and, when it changed,
    /// records the new tier (stamped `now`) and appends a history entry,
    /// dropping the oldest entry over the cap. Returns the computed tier.
    pub fn update_tier(&mut self, user: u64, token_balance: i128, now: u64) -> (r: Result<
        Tier,
        MembershipError,
    >)
        requires
            old(self).wf(),
        ensures
            final(self).wf(),
            r == Ok::<Tier, MembershipError>(tier_for(old(self).spec_thresholds(), token_balance)),
            tier_for(old(self).spec_thresholds(), token_balance) == old(self).spec_user_tier(user)
                ==> *final(self) == *old(self),
            tier_for(old(self).spec_thresholds(), token_balance) != old(self).spec_user_tier(user)
                ==> {
                let nt = tier_for(old(self).spec_thresholds(), token_balance);
                &&& final(self).spec_user_info(user) == Some(
                    (UserTierInfo { current_tier: nt, last_updated: now }),
                )
                &&& final(self).spec_history(user) == history_after(
                    old(self).spec_history(user),
                    (TierHistoryEntry { tier: nt, timestamp: now, token_balance }),
                )
                &&& forall|u: u64|
                    u != user ==> #[trigger] final(self).spec_user_info(u) == old(
                        self,
                    ).spec_user_info(u)
                &&& forall|u: u64|
                    u != user ==> #[trigger] final(self).spec_history(u) == old(self).spec_history(
                        u,
                    )
                &&& Self::same_config(old(self), final(self))
            },
    {
        let new_tier = self.get_user_tier(user, token_balance);
        let current_tier = self.get_current_user_tier(user);
        if new_tier != current_tier {
            self.user_tiers.set(user, UserTierInfo { current_tier: new_tier, last_updated: now });
            let mut history = self.histories.get(user);
            history.push(TierHistoryEntry { tier: new_tier, timestamp: now, token_balance });
            if history.len() > MAX_TIER_HISTORY {
                history.remove(0);
                proof {
                    assert(history@ =~= history_after(
                        old(self).spec_history(user),
                        (TierHistoryEntry { tier: new_tier, timestamp: now, token_balance }),
                    ));
                }
            }
            self.histories.set(user, history);
        }
        Ok(new_tier)
    }

    /// The benefits of a tier. A pure read.
    pub fn get_tier_benefits(&self, tier: Tier) -> (r: TierBenefits)
        ensures
            r == self.spec_benefits(tier),
    {
        match tier {
            Tier::Unranked => self.benefits_none,
            Tier::Bronze => self.benefits_bronze,
            Tier::Silver => self.benefits_silver,
            Tier::Gold => self.benefits_gold,
        }
    }

    /// The current thresholds. A pure read.
    pub fn get_tier_thresholds(&self) -> (r: TierThresholds)
        ensures
            r == self.spec_thresholds(),
    {
        self.thresholds
    }

    /// A user's recorded tier history. A pure read.
    pub fn get_tier_history(&self, user: u64) -> (r: Vec<TierHistoryEntry>)
        requires
            self.wf(),
        ensures
            r@ == self.spec_history(user),
    {
        self.histories.get(user)
    }

    /// A user's current tier; `Tier::Unranked` when no record exists. A pure
    /// read.
    pub fn get_current_user_tier(&self, user: u64) -> (r: Tier)
        requires
            self.wf(),
        ensures
            r == self.spec_user_tier(user),
    {
        match self.user_tiers.get(user) {
            Some(info) => info.current_tier,
            None => Tier::Unranked,
        }
    }
}

} // verus!
