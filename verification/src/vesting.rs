//! Linear token vesting: the admin creates per-recipient schedules with a
//! cliff; tokens vest linearly over the schedule's duration and recipients
//! claim what has vested and was not claimed before. Cancelling a schedule
//! stops it and reports the unvested remainder.
//!
//! Caller identities and the clock are plain values; authenticating callers,
//! reading the ledger time, and moving the claimed tokens are the host
//! adapter's work.

use vstd::prelude::*;

use crate::store::IdListStore;

verus! {

/// The failure kinds of the vesting contract.
#[derive(Copy, Clone, Debug, Eq, PartialEq, Structural)]
pub enum VestingError {
    AlreadyInitialized,
    Unauthorized,
    InvalidAmount,
    InvalidDuration,
    InvalidCliff,
    InvalidStartTime,
    ScheduleNotFound,
    AlreadyCancelled,
    NoTokensToClaim,
}

/// One vesting schedule: who receives, how much, over which window, behind
/// which cliff, and how much was already claimed.
#[derive(Copy, Clone, Debug, Eq, PartialEq, Structural)]
pub struct VestingSchedule {
    pub recipient: u64,
    pub total_amount: i128,
    pub start_time: u64,
    pub duration: u64,
    pub cliff: u64,
    pub claimed_amount: i128,
    pub cancelled: bool,
}

/// A schedule with its identifier and its current vested and claimable
/// amounts.
#[derive(Copy, Clone, Debug, Eq, PartialEq, Structural)]
pub struct VestingInfo {
    pub schedule_id: u32,
    pub schedule: VestingSchedule,
    pub vested_amount: i128,
    pub claimable_amount: i128,
}

/// A stored schedule in a consistent state, with its arithmetic in range.
pub open spec fn schedule_valid(s: VestingSchedule) -> bool {
    &&& 1 <= s.total_amount
    &&& 1 <= s.duration
    &&& s.cliff <= s.duration
    &&& 0 <= s.claimed_amount <= s.total_amount
    &&& s.start_time + s.duration <= u64::MAX
    &&& s.total_amount * s.duration <= i128::MAX
}

/// The amount vested at `now`: nothing before the cliff, everything after
/// the full duration, and the linear share in between.
pub open spec fn vested_amount_spec(s: VestingSchedule, now: u64) -> int {
    if now < s.start_time + s.cliff {
        0
    } else if now >= s.start_time + s.duration {
        s.total_amount as int
    } else {
        s.total_amount * (now - s.start_time) / (s.duration as int)
    }
}

/// The amount claimable at `now`: what has vested and was not claimed yet.
pub open spec fn claimable_amount_spec(s: VestingSchedule, now: u64) -> int {
    let c = vested_amount_spec(s, now) - s.claimed_amount;
    if c > 0 {
        c
    } else {
        0
    }
}

/// The vested amount lies between zero and the schedule's total.
pub proof fn lemma_vested_bounds(s: VestingSchedule, now: u64)
    requires
        schedule_valid(s),
    ensures
        0 <= vested_amount_spec(s, now) <= s.total_amount,
{
    if now >= s.start_time + s.cliff && now < s.start_time + s.duration {
        let elapsed = now - s.start_time;
        let x = s.total_amount * elapsed;
        vstd::arithmetic::div_mod::lemma_fundamental_div_mod(x, s.duration as int);
        assert(0 <= x / (s.duration as int) <= s.total_amount) by (nonlinear_arith)
            requires
                0 <= elapsed < s.duration,
                1 <= s.total_amount,
                x == s.total_amount * elapsed,
                x == (s.duration as int) * (x / (s.duration as int)) + x % (s.duration as int),
                0 <= x % (s.duration as int) < s.duration as int,
        ;
    }
}

/// The total claimable at `now` over a list of schedule identifiers,
/// cancelled schedules contributing nothing.
pub open spec fn claimable_sum(ss: Seq<VestingSchedule>, ids: Seq<u32>, now: u64) -> int
    decreases ids.len(),
{
    if ids.len() == 0 {
        0
    } else {
        claimable_sum(ss, ids.drop_last(), now) + ({
            let s = ss[ids.last() - 1];
            if s.cancelled {
                0
            } else {
                claimable_amount_spec(s, now)
            }
        })
    }
}

/// The total vested at `now` over a list of schedule identifiers, cancelled
/// schedules contributing nothing.
pub open spec fn vested_sum(ss: Seq<VestingSchedule>, ids: Seq<u32>, now: u64) -> int
    decreases ids.len(),
{
    if ids.len() == 0 {
        0
    } else {
        vested_sum(ss, ids.drop_last(), now) + ({
            let s = ss[ids.last() - 1];
            if s.cancelled {
                0
            } else {
                vested_amount_spec(s, now)
            }
        })
    }
}

/// The schedules after the claims of `ids` are booked, first to last: each
/// non-cancelled schedule with something claimable has it added to its
/// claimed amount.
pub open spec fn apply_claims(ss: Seq<VestingSchedule>, ids: Seq<u32>, now: u64) -> Seq<
    VestingSchedule,
>
    decreases ids.len(),
{
    if ids.len() == 0 {
        ss
    } else {
        let prev = apply_claims(ss, ids.drop_last(), now);
        let i = ids.last() - 1;
        let s = prev[i];
        if s.cancelled || claimable_amount_spec(s, now) <= 0 {
            prev
        } else {
            prev.update(
                i,
                VestingSchedule {
                    claimed_amount: (s.claimed_amount + claimable_amount_spec(s, now)) as i128,
                    ..s
                },
            )
        }
    }
}

/// Booking claims keeps the schedule count and touches only the listed
/// schedules.
pub proof fn lemma_apply_claims_frame(ss: Seq<VestingSchedule>, ids: Seq<u32>, now: u64)
    requires
        forall|k: int| 0 <= k < ids.len() ==> 1 <= #[trigger] ids[k] <= ss.len(),
    ensures
        apply_claims(ss, ids, now).len() == ss.len(),
        forall|j: int|
            0 <= j < ss.len() && (forall|k: int| 0 <= k < ids.len() ==> #[trigger] ids[k] - 1 != j)
                ==> #[trigger] apply_claims(ss, ids, now)[j] == ss[j],
    decreases ids.len(),
{
    if ids.len() > 0 {
        assert(forall|k: int| 0 <= k < ids.drop_last().len() ==> #[trigger] ids.drop_last()[k]
            == ids[k]);
        lemma_apply_claims_frame(ss, ids.drop_last(), now);
    }
}

/// A prefix of a claim list never exceeds the whole list's claimable total.
pub proof fn lemma_claimable_sum_prefix_le(
    ss: Seq<VestingSchedule>,
    ids: Seq<u32>,
    i: int,
    now: u64,
)
    requires
        0 <= i <= ids.len(),
    ensures
        claimable_sum(ss, ids.subrange(0, i), now) <= claimable_sum(ss, ids, now),
    decreases ids.len() - i,
{
    if i == ids.len() {
        assert(ids.subrange(0, i) =~= ids);
    } else {
        let p1 = ids.subrange(0, i + 1);
        assert(p1.drop_last() =~= ids.subrange(0, i));
        assert(p1.last() == ids[i]);
        lemma_claimable_sum_prefix_le(ss, ids, i + 1, now);
    }
}

/// A prefix of a schedule list never exceeds the whole list's vested total.
pub proof fn lemma_vested_sum_prefix_le(ss: Seq<VestingSchedule>, ids: Seq<u32>, i: int, now: u64)
    requires
        0 <= i <= ids.len(),
        forall|k: int| 0 <= k < ids.len() ==> 1 <= #[trigger] ids[k] <= ss.len(),
        forall|j: int| 0 <= j < ss.len() ==> schedule_valid(#[trigger] ss[j]),
    ensures
        vested_sum(ss, ids.subrange(0, i), now) <= vested_sum(ss, ids, now),
    decreases ids.len() - i,
{
    if i == ids.len() {
        assert(ids.subrange(0, i) =~= ids);
    } else {
        let p1 = ids.subrange(0, i + 1);
        assert(p1.drop_last() =~= ids.subrange(0, i));
        assert(p1.last() == ids[i]);
        lemma_vested_bounds(ss[ids[i] - 1], now);
        lemma_vested_sum_prefix_le(ss, ids, i + 1, now);
    }
}

/// A schedule's data, vested amount and claimable amount, as one record.
pub open spec fn info_for(ss: Seq<VestingSchedule>, id: u32, now: u64) -> VestingInfo {
    let s = ss[id - 1];
    VestingInfo {
        schedule_id: id,
        schedule: s,
        vested_amount: vested_amount_spec(s, now) as i128,
        claimable_amount: claimable_amount_spec(s, now) as i128,
    }
}

/// The vesting contract: the admin, the vested token's identity, the
/// schedules (schedule `i + 1` lives at index `i`), and each recipient's
/// schedule list.
pub struct TokenVestingContract {
    admin: Option<u64>,
    token_address: Option<u64>,
    schedules: Vec<VestingSchedule>,
    user_schedules: IdListStore<u32>,
}

impl TokenVestingContract {
    /// Every stored schedule is consistent, the schedule count stays
    /// addressable by 32-bit identifiers, and every recipient's list names
    /// existing schedules in strictly increasing order.
    pub closed spec fn wf(&self) -> bool {
        &&& self.schedules@.len() <= u32::MAX
        &&& forall|i: int|
            0 <= i < self.schedules@.len() ==> schedule_valid(#[trigger] self.schedules@[i])
        &&& self.user_schedules.wf()
        &&& forall|u: u64| #[trigger] self.ids_ok(u)
    }

    /// A recipient's schedule list names existing schedules, in strictly
    /// increasing order.
    pub closed spec fn ids_ok(&self, user: u64) -> bool {
        let ids = self.spec_user_ids(user);
        &&& forall|k: int, l: int| 0 <= k < l < ids.len() ==> #[trigger] ids[k] < #[trigger] ids[l]
        &&& forall|k: int| 0 <= k < ids.len() ==> 1 <= #[trigger] ids[k] <= self.schedules@.len()
    }

    /// The admin, once initialized.
    pub closed spec fn spec_admin(&self) -> Option<u64> {
        self.admin
    }

    /// The vested token's identity, once initialized.
    pub closed spec fn spec_token_address(&self) -> Option<u64> {
        self.token_address
    }

    /// All stored schedules; schedule `i + 1` is at index `i`.
    pub closed spec fn spec_schedules(&self) -> Seq<VestingSchedule> {
        self.schedules@
    }

    /// A recipient's schedule identifiers, oldest first.
    pub closed spec fn spec_user_ids(&self, user: u64) -> Seq<u32> {
        self.user_schedules.spec_get(user)
    }

    /// A fresh contract: no admin, no token, no schedules.
    pub fn new() -> (r: Self)
        ensures
            r.wf(),
            r.spec_admin() is None,
            r.spec_token_address() is None,
            r.spec_schedules() == Seq::<VestingSchedule>::empty(),
            forall|u: u64| #[trigger] r.spec_user_ids(u) == Seq::<u32>::empty(),
    {
        TokenVestingContract {
            admin: None,
            token_address: None,
            schedules: Vec::new(),
            user_schedules: IdListStore::new(),
        }
    }

    /// Installs the admin and the vested token. Fails when an admin is
    /// already installed; an error changes nothing.
    pub fn initialize(&mut self, admin: u64, token_address: u64) -> (r: Result<(), VestingError>)
        requires
            old(self).wf(),
        ensures
            final(self).wf(),
            old(self).spec_admin() is Some ==> r == Err::<(), VestingError>(
                VestingError::AlreadyInitialized,
            ) && *final(self) == *old(self),
            old(self).spec_admin() is None ==> {
                &&& r == Ok::<(), VestingError>(())
                &&& final(self).spec_admin() == Some(admin)
                &&& final(self).spec_token_address() == Some(token_address)
                &&& final(self).spec_schedules() == old(self).spec_schedules()
                &&& forall|u: u64| #[trigger] final(self).spec_user_ids(u) == old(
                    self,
                ).spec_user_ids(u)
            },
    {
        if self.admin.is_some() {
            return Err(VestingError::AlreadyInitialized);
        }
        self.admin = Some(admin);
        self.token_address = Some(token_address);
        proof {
            assert forall|u: u64| #[trigger] self.ids_ok(u) by {
                assert(old(self).ids_ok(u));
                assert(self.spec_user_ids(u) == old(self).spec_user_ids(u));
            }
        }
        Ok(())
    }

    /// Whether `caller` is the installed admin.
    pub fn is_admin(&self, caller: u64) -> (r: bool)
        ensures
            r == (self.spec_admin() == Some(caller)),
    {
        match self.admin {
            Some(a) => a == caller,
            None => false,
        }
    }

    /// Creates a schedule for `recipient`: `total_amount` tokens vesting
    /// linearly over `duration` seconds from `start_time`, claimable only
    /// after the cliff. Returns the new schedule's identifier. Only the admin
    /// may call; the amount must be positive, the duration non-zero, the
    /// cliff within the duration, and the start not in the past. An error
    /// changes nothing.
    pub fn create_vesting(
        &mut self,
        admin: u64,
        recipient: u64,
        total_amount: i128,
        start_time: u64,
        duration: u64,
        cliff: u64,
        now: u64,
    ) -> (r: Result<u32, VestingError>)
        requires
            old(self).wf(),
            old(self).spec_schedules().len() < u32::MAX,
            total_amount > 0 && duration >= 1 ==> total_amount * duration <= i128::MAX
                && start_time + duration <= u64::MAX,
        ensures
            final(self).wf(),
            old(self).spec_admin() != Some(admin) ==> r == Err::<u32, VestingError>(
                VestingError::Unauthorized,
            ) && *final(self) == *old(self),
            old(self).spec_admin() == Some(admin) && total_amount <= 0 ==> r == Err::<
                u32,
                VestingError,
            >(VestingError::InvalidAmount) && *final(self) == *old(self),
            old(self).spec_admin() == Some(admin) && total_amount > 0 && duration == 0 ==> r
                == Err::<u32, VestingError>(VestingError::InvalidDuration) && *final(self) == *old(
                self,
            ),
            old(self).spec_admin() == Some(admin) && total_amount > 0 && duration > 0 && cliff
                > duration ==> r == Err::<u32, VestingError>(VestingError::InvalidCliff) && *final(self) == *old(self),
            old(self).spec_admin() == Some(admin) && total_amount > 0 && duration > 0 && cliff
                <= duration && start_time < now ==> r == Err::<u32, VestingError>(
                VestingError::InvalidStartTime,
            ) && *final(self) == *old(self),
            old(self).spec_admin() == Some(admin) && total_amount > 0 && duration > 0 && cliff
                <= duration && start_time >= now ==> {
                let sched = (VestingSchedule {
                    recipient,
                    total_amount,
                    start_time,
                    duration,
                    cliff,
                    claimed_amount: 0,
                    cancelled: false,
                });
                &&& r == Ok::<u32, VestingError>((old(self).spec_schedules().len() + 1) as u32)
                &&& final(self).spec_schedules() == old(self).spec_schedules().push(sched)
                &&& final(self).spec_user_ids(recipient) == old(self).spec_user_ids(
                    recipient,
                ).push((old(self).spec_schedules().len() + 1) as u32)
                &&& forall|u: u64|
                    u != recipient ==> #[trigger] final(self).spec_user_ids(u) == old(
                        self,
                    ).spec_user_ids(u)
                &&& final(self).spec_admin() == old(self).spec_admin()
                &&& final(self).spec_token_address() == old(self).spec_token_address()
            },
    {
        if !self.is_admin(admin) {
            return Err(VestingError::Unauthorized);
        }
        if total_amount <= 0 {
            return Err(VestingError::InvalidAmount);
        }
        if duration == 0 {
            return Err(VestingError::InvalidDuration);
        }
        if cliff > duration {
            return Err(VestingError::InvalidCliff);
        }
        if start_time < now {
            return Err(VestingError::InvalidStartTime);
        }
        let schedule = VestingSchedule {
            recipient,
            total_amount,
            start_time,
            duration,
            cliff,
            claimed_amount: 0,
            cancelled: false,
        };
        let schedule_id: u32 = (self.schedules.len() as u32) + 1;
        self.schedules.push(schedule);
        let mut ids = self.user_schedules.get(recipient);
        ids.push(schedule_id);
        self.user_schedules.set(recipient, ids);
        proof {
            assert forall|u: u64| #[trigger] self.ids_ok(u) by {
                assert(old(self).ids_ok(u));
                if u != recipient {
                    assert(self.spec_user_ids(u) == old(self).spec_user_ids(u));
                } else {
                    let pre = old(self).spec_user_ids(u);
                    let post = self.spec_user_ids(u);
                    assert(post == pre.push(schedule_id));
                    assert(forall|k: int| 0 <= k < pre.len() ==> #[trigger] post[k] == pre[k]);
                    assert(post[post.len() - 1] == schedule_id);
                }
            }
        }
        Ok(schedule_id)
    }

    /// Claims every vested-but-unclaimed token across the recipient's
    /// schedules, cancelled ones excepted: each such schedule's claimed
    /// amount catches up to its vested amount, and the total claimed is
    /// returned (zero when nothing was claimable). Paying the claimed tokens
    /// out is the external transfer collaborator's work, after this call.
    #[verifier::loop_isolation(false)]
    pub fn claim_vested(&mut self, recipient: u64, now: u64) -> (r: Result<i128, VestingError>)
        requires
            old(self).wf(),
            claimable_sum(
                old(self).spec_schedules(),
                old(self).spec_user_ids(recipient),
                now,
            ) <= i128::MAX,
        ensures
            final(self).wf(),
            r == Ok::<i128, VestingError>(
                claimable_sum(
                    old(self).spec_schedules(),
                    old(self).spec_user_ids(recipient),
                    now,
                ) as i128,
            ),
            final(self).spec_schedules() == apply_claims(
                old(self).spec_schedules(),
                old(self).spec_user_ids(recipient),
                now,
            ),
            forall|u: u64| #[trigger] final(self).spec_user_ids(u) == old(self).spec_user_ids(u),
            final(self).spec_admin() == old(self).spec_admin(),
            final(self).spec_token_address() == old(self).spec_token_address(),
    {
        let ids = self.user_schedules.get(recipient);
        let ghost pre = self.schedules@;
        let ghost all_ids = ids@;
        let n = ids.len();
        let mut total_claimable: i128 = 0;
        let mut i: usize = 0;
        proof {
            assert(all_ids.subrange(0, 0) =~= Seq::<u32>::empty());
            assert(old(self).ids_ok(recipient));
        }
        while i < n
            invariant
                0 <= i <= n,
                n == all_ids.len(),
                ids@ == all_ids,
                self.admin == old(self).admin,
                self.token_address == old(self).token_address,
                self.user_schedules == old(self).user_schedules,
                self.schedules@ == apply_claims(pre, all_ids.subrange(0, i as int), now),
                self.schedules@.len() == pre.len(),
                forall|j: int|
                    0 <= j < self.schedules@.len() ==> schedule_valid(
                        #[trigger] self.schedules@[j],
                    ),
                total_claimable == claimable_sum(pre, all_ids.subrange(0, i as int), now),
            decreases n - i,
        {
            let id = ids[i];
            let idx = (id as usize) - 1;
            proof {
                lemma_apply_claims_frame(pre, all_ids.subrange(0, i as int), now);
                assert forall|k: int| 0 <= k < i implies #[trigger] all_ids.subrange(
                    0,
                    i as int,
                )[k] - 1 != id - 1 by {
                    assert(all_ids.subrange(0, i as int)[k] == all_ids[k]);
                    assert(all_ids[k] < all_ids[i as int]);
                }
                assert(self.schedules@[idx as int] == pre[idx as int]);
                assert(all_ids.subrange(0, i as int + 1).drop_last() =~= all_ids.subrange(
                    0,
                    i as int,
                ));
                assert(all_ids.subrange(0, i as int + 1).last() == all_ids[i as int]);
                lemma_claimable_sum_prefix_le(pre, all_ids, i as int + 1, now);
            }
            let schedule = self.schedules[idx];
            if !schedule.cancelled {
                let claimable = get_claimable_amount_for_schedule(&schedule, now);
                if claimable > 0 {
                    let updated = VestingSchedule {
                        claimed_amount: schedule.claimed_amount + claimable,
                        ..schedule
                    };
                    self.schedules[idx] = updated;
                    total_claimable = total_claimable + claimable;
                    proof {
                        assert forall|j: int| 0 <= j < self.schedules@.len() implies schedule_valid(
                            #[trigger] self.schedules@[j],
                        ) by {
                            if j != idx {
                                assert(self.schedules@[j] == apply_claims(
                                    pre,
                                    all_ids.subrange(0, i as int),
                                    now,
                                )[j]);
                            }
                        }
                    }
                }
            }
            i += 1;
        }
        proof {
            assert(all_ids.subrange(0, n as int) =~= all_ids);
            assert forall|u: u64| #[trigger] self.ids_ok(u) by {
                assert(old(self).ids_ok(u));
                assert(self.spec_user_ids(u) == old(self).spec_user_ids(u));
            }
        }
        Ok(total_claimable)
    }

    /// The total vested at `now` across a user's schedules, cancelled ones
    /// excepted. A pure read.
    #[verifier::loop_isolation(false)]
    pub fn get_vested_amount(&self, user: u64, now: u64) -> (r: i128)
        requires
            self.wf(),
            vested_sum(self.spec_schedules(), self.spec_user_ids(user), now) <= i128::MAX,
        ensures
            r == vested_sum(self.spec_schedules(), self.spec_user_ids(user), now),
    {
        let ids = self.user_schedules.get(user);
        let ghost all_ids = ids@;
        let n = ids.len();
        let mut total_vested: i128 = 0;
        let mut i: usize = 0;
        proof {
            assert(all_ids.subrange(0, 0) =~= Seq::<u32>::empty());
            assert(self.ids_ok(user));
        }
        while i < n
            invariant
                0 <= i <= n,
                total_vested == vested_sum(self.spec_schedules(), all_ids.subrange(0, i as int), now),
            decreases n - i,
        {
            let id = ids[i];
            let idx = (id as usize) - 1;
            proof {
                assert(all_ids.subrange(0, i as int + 1).drop_last() =~= all_ids.subrange(
                    0,
                    i as int,
                ));
                assert(all_ids.subrange(0, i as int + 1).last() == all_ids[i as int]);
                lemma_vested_sum_prefix_le(self.spec_schedules(), all_ids, i as int + 1, now);
            }
            let schedule = self.schedules[idx];
            if !schedule.cancelled {
                let vested = calculate_vested_amount(&schedule, now);
                total_vested = total_vested + vested;
            }
            i += 1;
        }
        proof {
            assert(all_ids.subrange(0, n as int) =~= all_ids);
        }
        total_vested
    }

    /// The total claimable at `now` across a user's schedules, cancelled
    /// ones excepted. A pure read.
    #[verifier::loop_isolation(false)]
    pub fn get_claimable_amount(&self, user: u64, now: u64) -> (r: i128)
        requires
            self.wf(),
            claimable_sum(self.spec_schedules(), self.spec_user_ids(user), now) <= i128::MAX,
        ensures
            r == claimable_sum(self.spec_schedules(), self.spec_user_ids(user), now),
    {
        let ids = self.user_schedules.get(user);
        let ghost all_ids = ids@;
        let n = ids.len();
        let mut total_claimable: i128 = 0;
        let mut i: usize = 0;
        proof {
            assert(all_ids.subrange(0, 0) =~= Seq::<u32>::empty());
            assert(self.ids_ok(user));
        }
        while i < n
            invariant
                0 <= i <= n,
                total_claimable == claimable_sum(
                    self.spec_schedules(),
                    all_ids.subrange(0, i as int),
                    now,
                ),
            decreases n - i,
        {
            let id = ids[i];
            let idx = (id as usize) - 1;
            proof {
                assert(all_ids.subrange(0, i as int + 1).drop_last() =~= all_ids.subrange(
                    0,
                    i as int,
                ));
                assert(all_ids.subrange(0, i as int + 1).last() == all_ids[i as int]);
                lemma_claimable_sum_prefix_le(self.spec_schedules(), all_ids, i as int + 1, now);
            }
            let schedule = self.schedules[idx];
            if !schedule.cancelled {
                let claimable = get_claimable_amount_for_schedule(&schedule, now);
                total_claimable = total_claimable + claimable;
            }
            i += 1;
        }
        proof {
            assert(all_ids.subrange(0, n as int) =~= all_ids);
        }
        total_claimable
    }

    /// Every schedule of a user with its identifier and its vested and
    /// claimable amounts at `now`, cancelled schedules included. A pure read.
    #[verifier::loop_isolation(false)]
    pub fn get_user_vesting_info(&self, user: u64, now: u64) -> (r: Vec<VestingInfo>)
        requires
            self.wf(),
        ensures
            r@.len() == self.spec_user_ids(user).len(),
            forall|k: int|
                0 <= k < r@.len() ==> #[trigger] r@[k] == info_for(
                    self.spec_schedules(),
                    self.spec_user_ids(user)[k],
                    now,
                ),
    {
        let ids = self.user_schedules.get(user);
        let ghost all_ids = ids@;
        let n = ids.len();
        let mut infos: Vec<VestingInfo> = Vec::new();
        let mut i: usize = 0;
        proof {
            assert(self.ids_ok(user));
        }
        while i < n
            invariant
                0 <= i <= n,
                infos@.len() == i,
                forall|k: int|
                    0 <= k < i ==> #[trigger] infos@[k] == info_for(
                        self.spec_schedules(),
                        all_ids[k],
                        now,
                    ),
            decreases n - i,
        {
            let id = ids[i];
            let idx = (id as usize) - 1;
            let schedule = self.schedules[idx];
            let vested_amount = calculate_vested_amount(&schedule, now);
            let claimable_amount = get_claimable_amount_for_schedule(&schedule, now);
            infos.push(
                VestingInfo { schedule_id: id, schedule, vested_amount, claimable_amount },
            );
            i += 1;
        }
        infos
    }

    /// The schedule with the given identifier.
    pub fn get_vesting_schedule(&self, schedule_id: u32) -> (r: Result<
        VestingSchedule,
        VestingError,
    >)
        requires
            self.wf(),
        ensures
            1 <= schedule_id <= self.spec_schedules().len() ==> r == Ok::<
                VestingSchedule,
                VestingError,
            >(self.spec_schedules()[schedule_id - 1]),
            !(1 <= schedule_id <= self.spec_schedules().len()) ==> r == Err::<
                VestingSchedule,
                VestingError,
            >(VestingError::ScheduleNotFound),
    {
        if schedule_id >= 1 && (schedule_id as usize) <= self.schedules.len() {
            Ok(self.schedules[(schedule_id as usize) - 1])
        } else {
            Err(VestingError::ScheduleNotFound)
        }
    }

    /// Cancels a schedule and reports how much had not vested yet. Only the
    /// admin may call; a missing or already-cancelled schedule is an error,
    /// and an error changes nothing.
    pub fn cancel_vesting(&mut self, admin: u64, schedule_id: u32, now: u64) -> (r: Result<
        i128,
        VestingError,
    >)
        requires
            old(self).wf(),
        ensures
            final(self).wf(),
            old(self).spec_admin() != Some(admin) ==> r == Err::<i128, VestingError>(
                VestingError::Unauthorized,
            ) && *final(self) == *old(self),
            old(self).spec_admin() == Some(admin) && !(1 <= schedule_id <= old(
                self,
            ).spec_schedules().len()) ==> r == Err::<i128, VestingError>(
                VestingError::ScheduleNotFound,
            ) && *final(self) == *old(self),
            old(self).spec_admin() == Some(admin) && 1 <= schedule_id <= old(
                self,
            ).spec_schedules().len() && old(self).spec_schedules()[schedule_id - 1].cancelled ==> r
                == Err::<i128, VestingError>(VestingError::AlreadyCancelled) && *final(self)
                == *old(self),
            old(self).spec_admin() == Some(admin) && 1 <= schedule_id <= old(
                self,
            ).spec_schedules().len() && !old(self).spec_schedules()[schedule_id - 1].cancelled
                ==> {
                let s = old(self).spec_schedules()[schedule_id - 1];
                &&& r == Ok::<i128, VestingError>(
                    (s.total_amount - vested_amount_spec(s, now)) as i128,
                )
                &&& final(self).spec_schedules() == old(self).spec_schedules().update(
                    schedule_id - 1,
                    (VestingSchedule { cancelled: true, ..s }),
                )
                &&& forall|u: u64| #[trigger] final(self).spec_user_ids(u) == old(
                    self,
                ).spec_user_ids(u)
                &&& final(self).spec_admin() == old(self).spec_admin()
                &&& final(self).spec_token_address() == old(self).spec_token_address()
            },
    {
        if !self.is_admin(admin) {
            return Err(VestingError::Unauthorized);
        }
        if !(schedule_id >= 1 && (schedule_id as usize) <= self.schedules.len()) {
            return Err(VestingError::ScheduleNotFound);
        }
        let idx = (schedule_id as usize) - 1;
        let mut schedule = self.schedules[idx];
        if schedule.cancelled {
            return Err(VestingError::AlreadyCancelled);
        }
        proof {
            lemma_vested_bounds(schedule, now);
        }
        let vested_amount = calculate_vested_amount(&schedule, now);
        let unvested_amount = schedule.total_amount - vested_amount;
        schedule.cancelled = true;
        self.schedules[idx] = schedule;
        proof {
            assert forall|i: int| 0 <= i < self.schedules@.len() implies schedule_valid(
                #[trigger] self.schedules@[i],
            ) by {
                if i != idx {
                    assert(self.schedules@[i] == old(self).schedules@[i]);
                }
            }
            assert forall|u: u64| #[trigger] self.ids_ok(u) by {
                assert(old(self).ids_ok(u));
                assert(self.spec_user_ids(u) == old(self).spec_user_ids(u));
            }
        }
        Ok(unvested_amount)
    }
}

/// The amount of a schedule vested at `now`: nothing before the cliff,
/// everything once the duration has passed, and the linear share in between.
pub fn calculate_vested_amount(schedule: &VestingSchedule, now: u64) -> (r: i128)
    requires
        schedule_valid(*schedule),
    ensures
        r == vested_amount_spec(*schedule, now),
        0 <= r <= schedule.total_amount,
{
    proof {
        lemma_vested_bounds(*schedule, now);
    }
    if now < schedule.start_time + schedule.cliff {
        return 0;
    }
    if now >= schedule.start_time + schedule.duration {
        return schedule.total_amount;
    }
    let elapsed = now - schedule.start_time;
    proof {
        assert(schedule.total_amount * (elapsed as i128) <= schedule.total_amount
            * (schedule.duration as i128)) by (nonlinear_arith)
            requires
                0 <= elapsed <= schedule.duration,
                schedule.total_amount >= 1,
        ;
        assert(schedule.total_amount * (elapsed as i128) >= 0) by (nonlinear_arith)
            requires
                elapsed >= 0,
                schedule.total_amount >= 1,
        ;
    }
    (schedule.total_amount * (elapsed as i128)) / (schedule.duration as i128)
}

/// The amount of a schedule claimable at `now`: the vested amount less what
/// was already claimed, never negative.
pub fn get_claimable_amount_for_schedule(schedule: &VestingSchedule, now: u64) -> (r: i128)
    requires
        schedule_valid(*schedule),
    ensures
        r == claimable_amount_spec(*schedule, now),
        0 <= r <= schedule.total_amount - schedule.claimed_amount,
{
    proof {
        lemma_vested_bounds(*schedule, now);
    }
    let vested_amount = calculate_vested_amount(schedule, now);
    let claimable = vested_amount - schedule.claimed_amount;
    if claimable > 0 {
        claimable
    } else {
        0
    }
}

} // verus!
