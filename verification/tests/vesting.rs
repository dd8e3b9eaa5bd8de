use loyalty_dex::vesting::{TokenVestingContract, VestingError};

#[test]
fn test_test_initialize() {
    let mut contract = TokenVestingContract::new();
    let admin: u64 = 10;
    let token_address: u64 = 30;

    // Initialize contract
    contract.initialize(admin, token_address).unwrap();

    // Should not be able to initialize twice
    let result = contract.initialize(admin, token_address);
    assert!(result.is_err());
}

#[test]
fn test_create_vesting_schedule() {
    let mut contract = TokenVestingContract::new();
    let admin: u64 = 10;
    let token_address: u64 = 30;
    let recipient: u64 = 20;
    let now: u64 = 0;

    contract.initialize(admin, token_address).unwrap();

    let total_amount = 1000i128;
    let start_time = now + 100; // Future start time
    let duration = 365 * 24 * 3600; // 1 year in seconds
    let cliff = 90 * 24 * 3600; // 90 days cliff

    let schedule_id = contract
        .create_vesting(admin, recipient, total_amount, start_time, duration, cliff, now)
        .unwrap();

    assert_eq!(schedule_id, 1);

    // Verify schedule was created
    let schedule = contract.get_vesting_schedule(schedule_id).unwrap();
    assert_eq!(schedule.recipient, recipient);
    assert_eq!(schedule.total_amount, total_amount);
    assert_eq!(schedule.start_time, start_time);
    assert_eq!(schedule.duration, duration);
    assert_eq!(schedule.cliff, cliff);
    assert_eq!(schedule.claimed_amount, 0);
    assert_eq!(schedule.cancelled, false);
}

#[test]
fn test_invalid_vesting_parameters() {
    let mut contract = TokenVestingContract::new();
    let admin: u64 = 10;
    let token_address: u64 = 30;
    let recipient: u64 = 20;
    let now: u64 = 0;

    contract.initialize(admin, token_address).unwrap();

    let start_time = now + 100;

    // Test invalid amount
    let result = contract.create_vesting(admin, recipient, 0, start_time, 1000, 100, now);
    assert!(result.is_err());

    // Test invalid duration
    let result = contract.create_vesting(admin, recipient, 1000, start_time, 0, 100, now);
    assert!(result.is_err());

    // Test invalid cliff (longer than duration)
    let result = contract.create_vesting(admin, recipient, 1000, start_time, 100, 200, now);
    assert!(result.is_err());

    // Test past start time
    if now > 100 {
        let past_time = now - 100;
        let result = contract.create_vesting(admin, recipient, 1000, past_time, 1000, 100, now);
        assert!(result.is_err());
    }
}

#[test]
fn test_vesting_calculation() {
    let mut contract = TokenVestingContract::new();
    let admin: u64 = 10;
    let token_address: u64 = 30;
    let recipient: u64 = 20;
    let now: u64 = 0;

    contract.initialize(admin, token_address).unwrap();

    let total_amount = 1000i128;
    let start_time = now;
    let duration = 1000u64; // 1000 seconds for easy calculation
    let cliff = 100u64; // 100 seconds cliff

    contract
        .create_vesting(admin, recipient, total_amount, start_time, duration, cliff, now)
        .unwrap();

    // Before cliff - should be 0 vested
    assert_eq!(contract.get_vested_amount(recipient, now), 0);
    assert_eq!(contract.get_claimable_amount(recipient, now), 0);

    // Jump to after cliff but before full vesting (50% through)
    let vested = contract.get_vested_amount(recipient, start_time + 500);
    assert_eq!(vested, 500); // 50% of 1000

    // Jump to full vesting
    let vested = contract.get_vested_amount(recipient, start_time + duration);
    assert_eq!(vested, total_amount); // 100% vested
}

#[test]
fn test_claim_vested_tokens() {
    let mut contract = TokenVestingContract::new();
    let admin: u64 = 10;
    let token_id: u64 = 31;
    let recipient: u64 = 20;
    let now: u64 = 0;

    contract.initialize(admin, token_id).unwrap();

    let total_amount = 1000i128;
    let start_time = now;
    let duration = 1000u64;
    let cliff = 100u64;

    contract
        .create_vesting(admin, recipient, total_amount, start_time, duration, cliff, now)
        .unwrap();

    // Jump to 50% vesting and claim vested tokens
    let claimed = contract.claim_vested(recipient, start_time + 500).unwrap();
    assert_eq!(claimed, 500);

    // Should not be able to claim again immediately
    let claimed_again = contract.claim_vested(recipient, start_time + 500).unwrap();
    assert_eq!(claimed_again, 0);

    // Jump to 75% vesting: should be able to claim additional 25%
    let claimed_additional = contract.claim_vested(recipient, start_time + 750).unwrap();
    assert_eq!(claimed_additional, 250);
}

#[test]
fn test_cancel_vesting() {
    let mut contract = TokenVestingContract::new();
    let admin: u64 = 10;
    let token_address: u64 = 30;
    let recipient: u64 = 20;
    let now: u64 = 0;

    contract.initialize(admin, token_address).unwrap();

    let total_amount = 1000i128;
    let start_time = now;
    let duration = 1000u64;
    let cliff = 100u64;

    let schedule_id = contract
        .create_vesting(admin, recipient, total_amount, start_time, duration, cliff, now)
        .unwrap();

    // Cancel at 50% vesting - should return 50% unvested
    let unvested = contract.cancel_vesting(admin, schedule_id, start_time + 500).unwrap();
    assert_eq!(unvested, 500);

    // Verify schedule is cancelled
    let schedule = contract.get_vesting_schedule(schedule_id).unwrap();
    assert_eq!(schedule.cancelled, true);

    // Should not be able to cancel again
    let result = contract.cancel_vesting(admin, schedule_id, start_time + 500);
    assert!(result.is_err());

    // Vested amount should now be 0 for cancelled schedule
    assert_eq!(contract.get_vested_amount(recipient, start_time + 500), 0);
}

#[test]
fn test_multiple_vesting_schedules() {
    let mut contract = TokenVestingContract::new();
    let admin: u64 = 10;
    let token_address: u64 = 30;
    let recipient: u64 = 20;
    let now: u64 = 0;

    contract.initialize(admin, token_address).unwrap();

    let start_time = now;

    // Create multiple vesting schedules
    let schedule1 = contract
        .create_vesting(admin, recipient, 1000, start_time, 1000, 100, now)
        .unwrap();
    let schedule2 = contract
        .create_vesting(admin, recipient, 2000, start_time, 2000, 200, now)
        .unwrap();

    assert_eq!(schedule1, 1);
    assert_eq!(schedule2, 2);

    // Jump to 50% through first schedule, 25% through second:
    // total vested should be sum of both schedules
    let total_vested = contract.get_vested_amount(recipient, start_time + 500);
    assert_eq!(total_vested, 500 + 500); // 50% of 1000 + 25% of 2000

    // Get user vesting info
    let vesting_info = contract.get_user_vesting_info(recipient, start_time + 500);
    assert_eq!(vesting_info.len(), 2);
}

#[test]
fn test_unauthorized_access() {
    let mut contract = TokenVestingContract::new();
    let admin: u64 = 10;
    let non_admin: u64 = 11;
    let token_address: u64 = 30;
    let recipient: u64 = 20;
    let now: u64 = 0;

    contract.initialize(admin, token_address).unwrap();

    // Non-admin should not be able to create vesting
    let result = contract.create_vesting(non_admin, recipient, 1000, now + 100, 1000, 100, now);
    assert!(result.is_err());

    // Create a schedule as admin
    let schedule_id = contract
        .create_vesting(admin, recipient, 1000, now + 100, 1000, 100, now)
        .unwrap();

    // Non-admin should not be able to cancel vesting
    let result = contract.cancel_vesting(non_admin, schedule_id, now);
    assert!(result.is_err());
}

#[test]
fn vesting_errors_are_precise() {
    let mut contract = TokenVestingContract::new();
    contract.initialize(10, 30).unwrap();
    assert_eq!(
        contract.create_vesting(11, 20, 1000, 100, 1000, 100, 0),
        Err(VestingError::Unauthorized)
    );
    assert_eq!(
        contract.create_vesting(10, 20, -5, 100, 1000, 100, 0),
        Err(VestingError::InvalidAmount)
    );
    assert_eq!(
        contract.create_vesting(10, 20, 1000, 100, 0, 0, 0),
        Err(VestingError::InvalidDuration)
    );
    assert_eq!(
        contract.create_vesting(10, 20, 1000, 100, 100, 101, 0),
        Err(VestingError::InvalidCliff)
    );
    assert_eq!(
        contract.create_vesting(10, 20, 1000, 99, 1000, 100, 100),
        Err(VestingError::InvalidStartTime)
    );
    assert_eq!(contract.get_vesting_schedule(1), Err(VestingError::ScheduleNotFound));
    assert_eq!(contract.cancel_vesting(10, 1, 0), Err(VestingError::ScheduleNotFound));
    contract.create_vesting(10, 20, 1000, 100, 1000, 100, 0).unwrap();
    contract.cancel_vesting(10, 1, 0).unwrap();
    assert_eq!(contract.cancel_vesting(10, 1, 0), Err(VestingError::AlreadyCancelled));
    assert_eq!(contract.initialize(10, 30), Err(VestingError::AlreadyInitialized));
}

#[test]
fn vesting_info_reports_per_schedule_amounts() {
    let mut contract = TokenVestingContract::new();
    contract.initialize(10, 30).unwrap();
    contract.create_vesting(10, 20, 1000, 0, 1000, 0, 0).unwrap();
    contract.claim_vested(20, 250).unwrap();
    let infos = contract.get_user_vesting_info(20, 500);
    assert_eq!(infos.len(), 1);
    assert_eq!(infos[0].schedule_id, 1);
    assert_eq!(infos[0].vested_amount, 500);
    assert_eq!(infos[0].claimable_amount, 250); // 500 vested, 250 already claimed
    assert_eq!(infos[0].schedule.claimed_amount, 250);
}
