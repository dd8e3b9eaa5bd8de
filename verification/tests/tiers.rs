use loyalty_dex::tiers::{
    MembershipError, MembershipTiersContract, Tier, TierBenefits,
};

#[test]
fn test_initialize() {
    let mut contract = MembershipTiersContract::new();
    let admin: u64 = 10;

    contract.initialize(admin).unwrap();

    // Check default thresholds
    let thresholds = contract.get_tier_thresholds();
    assert_eq!(thresholds.bronze, 1000);
    assert_eq!(thresholds.silver, 5000);
    assert_eq!(thresholds.gold, 10000);

    // Check default benefits
    let bronze_benefits = contract.get_tier_benefits(Tier::Bronze);
    let silver_benefits = contract.get_tier_benefits(Tier::Silver);
    let gold_benefits = contract.get_tier_benefits(Tier::Gold);

    assert_eq!(bronze_benefits.multiplier, 10000); // 1.0x
    assert_eq!(silver_benefits.multiplier, 12000); // 1.2x
    assert_eq!(gold_benefits.multiplier, 15000); // 1.5x
}

#[test]
fn test_tier_calculation() {
    let mut contract = MembershipTiersContract::new();
    let admin: u64 = 10;
    let user: u64 = 20;

    contract.initialize(admin).unwrap();

    // Test tier calculations
    assert_eq!(contract.get_user_tier(user, 500), Tier::Unranked);
    assert_eq!(contract.get_user_tier(user, 1000), Tier::Bronze);
    assert_eq!(contract.get_user_tier(user, 3000), Tier::Bronze);
    assert_eq!(contract.get_user_tier(user, 5000), Tier::Silver);
    assert_eq!(contract.get_user_tier(user, 7500), Tier::Silver);
    assert_eq!(contract.get_user_tier(user, 10000), Tier::Gold);
    assert_eq!(contract.get_user_tier(user, 15000), Tier::Gold);
}

#[test]
fn test_update_tier() {
    let mut contract = MembershipTiersContract::new();
    let admin: u64 = 10;
    let user: u64 = 20;
    let now: u64 = 1700000000;

    contract.initialize(admin).unwrap();

    // Initial tier should be none
    assert_eq!(contract.get_current_user_tier(user), Tier::Unranked);

    // Update to Bronze
    let tier = contract.update_tier(user, 1500, now).unwrap();
    assert_eq!(tier, Tier::Bronze);
    assert_eq!(contract.get_current_user_tier(user), Tier::Bronze);

    // Update to Silver
    let tier = contract.update_tier(user, 6000, now).unwrap();
    assert_eq!(tier, Tier::Silver);
    assert_eq!(contract.get_current_user_tier(user), Tier::Silver);

    // Update to Gold
    let tier = contract.update_tier(user, 12000, now).unwrap();
    assert_eq!(tier, Tier::Gold);
    assert_eq!(contract.get_current_user_tier(user), Tier::Gold);

    // Check history
    let history = contract.get_tier_history(user);
    assert_eq!(history.len(), 3);
}

#[test]
fn test_set_tier_thresholds() {
    let mut contract = MembershipTiersContract::new();
    let admin: u64 = 10;
    let non_admin: u64 = 11;

    contract.initialize(admin).unwrap();

    // Admin can set thresholds
    contract.set_tier_thresholds(admin, 2000, 8000, 15000).unwrap();

    let thresholds = contract.get_tier_thresholds();
    assert_eq!(thresholds.bronze, 2000);
    assert_eq!(thresholds.silver, 8000);
    assert_eq!(thresholds.gold, 15000);

    // Non-admin cannot set thresholds
    let result = contract.set_tier_thresholds(non_admin, 1000, 5000, 10000);
    assert!(result.is_err());
}

#[test]
fn test_set_tier_benefits() {
    let mut contract = MembershipTiersContract::new();
    let admin: u64 = 10;

    contract.initialize(admin).unwrap();

    // Set custom benefits
    let custom_benefits = TierBenefits { multiplier: 13000 }; // 1.3x
    contract.set_tier_benefits(admin, Tier::Silver, custom_benefits).unwrap();

    let benefits = contract.get_tier_benefits(Tier::Silver);
    assert_eq!(benefits.multiplier, 13000);
}

#[test]
fn test_invalid_thresholds() {
    let mut contract = MembershipTiersContract::new();
    let admin: u64 = 10;

    contract.initialize(admin).unwrap();

    // Invalid thresholds (bronze >= silver) should return error
    let result = contract.set_tier_thresholds(admin, 5000, 3000, 10000);
    assert!(result.is_err());
}

#[test]
fn test_double_initialization() {
    let mut contract = MembershipTiersContract::new();
    let admin: u64 = 10;

    contract.initialize(admin).unwrap();

    // Second initialization should fail
    let result = contract.initialize(admin);
    assert!(result.is_err());
}

#[test]
fn tier_errors_are_precise() {
    let mut contract = MembershipTiersContract::new();
    let admin: u64 = 10;
    // Before initialization nobody is the admin.
    assert_eq!(
        contract.set_tier_thresholds(admin, 1, 2, 3),
        Err(MembershipError::Unauthorized)
    );
    contract.initialize(admin).unwrap();
    assert_eq!(contract.initialize(admin), Err(MembershipError::AlreadyInitialized));
    assert_eq!(
        contract.set_tier_thresholds(admin, 5000, 5000, 10000),
        Err(MembershipError::InvalidThresholds)
    );
    assert_eq!(
        contract.set_tier_benefits(11, Tier::Gold, TierBenefits { multiplier: 1 }),
        Err(MembershipError::Unauthorized)
    );
}

#[test]
fn unchanged_balance_keeps_tier_and_history() {
    let mut contract = MembershipTiersContract::new();
    contract.initialize(10).unwrap();
    contract.update_tier(20, 1500, 5).unwrap();
    // The same tier again records nothing new.
    contract.update_tier(20, 2000, 6).unwrap();
    assert_eq!(contract.get_tier_history(20).len(), 1);
}

#[test]
fn tier_history_is_capped_at_fifty() {
    let mut contract = MembershipTiersContract::new();
    contract.initialize(10).unwrap();
    let user: u64 = 20;
    // Alternate between Bronze and Silver sixty times: each flip records one
    // entry, and only the newest fifty stay.
    for i in 0..60u64 {
        let balance: i128 = if i % 2 == 0 { 1500 } else { 6000 };
        contract.update_tier(user, balance, i).unwrap();
    }
    let history = contract.get_tier_history(user);
    assert_eq!(history.len(), 50);
    // The oldest ten entries were dropped: the first kept entry is the
    // eleventh recorded one.
    assert_eq!(history[0].timestamp, 10);
    assert_eq!(history[49].timestamp, 59);
}
