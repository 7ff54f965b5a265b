use vstd::prelude::*;
use crate::accounts::{AddStakeArg, AgreeEventAttendeesArg, BetOnEventArg, ClaimEventRewardArg,
    CreateAccountArg, CreateEventArg, DeclareEventAttendeesArg, Event, EventGuest, EventItem,
    EventItemView, EventList, EventView, MyError, Profile, ProfileView, Staker, StakerList, guest_keys};
use crate::model::{add_stake_fits, add_stake_list, agree_fits, agree_spec, all_betted, bet_fits,
    bet_pot_seeds, bet_spec, betted, betted_count, claim_fits, claim_spec, covers, create_event_spec,
    declare_fits, declare_spec, agreed, all_agreed, guest_index, invited, new_guest, reward, staker_keys, with_rent};
use crate::keys::{Pubkey, contains_key, dedup_keys, first_index, is_first, lemma_first_index,
    lemma_first_unique};
use crate::system::{BASIC_RENT, Instruction, is_transfer, system_transfer};

verus! {

// ---------------------------------------------------------------------------
// The accounts each instruction reads, as plain values.
// ---------------------------------------------------------------------------

/// An account owned by the system program: its address and its balance.
#[derive(Clone, Copy, Debug, Default, PartialEq, Eq)]
pub struct SystemAccount {
    pub key: Pubkey,
    pub lamports: u64,
}

/// The accounts of `create_account`: the new profile.
#[derive(Clone, Debug, Default, PartialEq, Eq)]
pub struct CreateAccount {
    pub profile: Profile,
}

/// The accounts of `add_stake`: the target's stake account, the target's
/// list of stakers, and the signer who stakes.
#[derive(Clone, Debug, Default, PartialEq, Eq)]
pub struct AddStake {
    pub stake_account: SystemAccount,
    pub stake_list: StakerList,
    pub signer: Pubkey,
}

/// The accounts of `create_event`: the new event, the host's list of events,
/// and the host, who signs.
#[derive(Clone, Debug, Default, PartialEq, Eq)]
pub struct CreateEvent {
    pub event: Event,
    pub event_list: EventList,
    pub signer: Pubkey,
}

/// The accounts of `bet_on_event`: the host, the event, the host's bet pot,
/// and the guest who bets and signs.
#[derive(Clone, Debug, Default, PartialEq, Eq)]
pub struct BetOnEvent {
    pub host: Pubkey,
    pub event: Event,
    pub bet_pot: SystemAccount,
    pub signer: Pubkey,
}

/// The accounts of `declare_event_attendees`: the event and its host, who
/// signs.
#[derive(Clone, Debug, Default, PartialEq, Eq)]
pub struct DeclareEventAttendees {
    pub event: Event,
    pub signer: Pubkey,
}

/// The accounts of `agree_event_attendees`: the host, the event, and the
/// attendee who agrees and signs.
#[derive(Clone, Debug, Default, PartialEq, Eq)]
pub struct AgreeEventAttendees {
    pub host: Pubkey,
    pub event: Event,
    pub signer: Pubkey,
}

/// The accounts of `claim_event_reward`: the host, the event, the host's bet
/// pot with the bump of its program-derived address, and the attendee who
/// claims and signs.
#[derive(Clone, Debug, Default, PartialEq, Eq)]
pub struct ClaimEventReward {
    pub host: Pubkey,
    pub event: Event,
    pub bet_pot: SystemAccount,
    pub bet_pot_bump: u8,
    pub signer: Pubkey,
}

/// An instruction to invoke with the signature of the program-derived
/// address made from `signer_seeds`.
#[derive(Clone, Debug, PartialEq, Eq)]
pub struct SignedInstruction {
    pub instruction: Instruction,
    pub signer_seeds: Vec<Vec<u8>>,
}

// ---------------------------------------------------------------------------
// Lookups.
// ---------------------------------------------------------------------------

fn find_staker(list: &Vec<Staker>, key: &Pubkey) -> (i: usize)
    ensures
        i == first_index(staker_keys(list@), *key),
{
    let ghost keys = staker_keys(list@);
    let mut i: usize = 0;
    while i < list.len()
        invariant
            0 <= i <= list.len(),
            keys == staker_keys(list@),
            forall|j: int| 0 <= j < i ==> keys[j] != *key,
        decreases list.len() - i,
    {
        if list[i].staker.same(key) {
            assert(is_first(keys, *key, i as int));
            proof { lemma_first_unique(keys, *key, i as int); }
            return i;
        }
        i = i + 1;
    }
    assert(!exists|k: int| is_first(keys, *key, k));
    i
}

fn find_guest(guests: &Vec<EventGuest>, key: &Pubkey) -> (i: usize)
    ensures
        i == first_index(guest_keys(guests@), *key),
{
    let ghost keys = guest_keys(guests@);
    let mut i: usize = 0;
    while i < guests.len()
        invariant
            0 <= i <= guests.len(),
            keys == guest_keys(guests@),
            forall|j: int| 0 <= j < i ==> keys[j] != *key,
        decreases guests.len() - i,
    {
        if guests[i].key.same(key) {
            assert(is_first(keys, *key, i as int));
            proof { lemma_first_unique(keys, *key, i as int); }
            return i;
        }
        i = i + 1;
    }
    assert(!exists|k: int| is_first(keys, *key, k));
    i
}

fn is_betted_guest(guests: &Vec<EventGuest>, key: &Pubkey) -> (r: bool)
    ensures
        r == betted(guests@, *key),
{
    let mut i: usize = 0;
    while i < guests.len()
        invariant
            0 <= i <= guests.len(),
            forall|j: int| 0 <= j < i ==> !(guests@[j].key == *key && guests@[j].is_betted),
        decreases guests.len() - i,
    {
        if guests[i].is_betted && guests[i].key.same(key) {
            return true;
        }
        i = i + 1;
    }
    false
}


fn all_betted_exec(guests: &Vec<EventGuest>, attendees: &Vec<Pubkey>) -> (r: bool)
    ensures
        r == all_betted(guests@, attendees@),
{
    let mut j: usize = 0;
    while j < attendees.len()
        invariant
            0 <= j <= attendees.len(),
            forall|k: int| 0 <= k < j ==> betted(guests@, #[trigger] attendees@[k]),
        decreases attendees.len() - j,
    {
        if !is_betted_guest(guests, &attendees[j]) {
            return false;
        }
        j = j + 1;
    }
    true
}

fn covers_exec(attendees: &Vec<Pubkey>, declared: &Vec<Pubkey>) -> (r: bool)
    ensures
        r == covers(attendees@, declared@),
{
    let mut j: usize = 0;
    while j < declared.len()
        invariant
            0 <= j <= declared.len(),
            forall|k: int| 0 <= k < j ==> attendees@.contains(#[trigger] declared@[k]),
        decreases declared.len() - j,
    {
        if !contains_key(attendees, &declared[j]) {
            return false;
        }
        j = j + 1;
    }
    true
}

fn has_agreed(guests: &Vec<EventGuest>, key: &Pubkey) -> (r: bool)
    ensures
        r == agreed(guests@, *key),
{
    let mut i: usize = 0;
    while i < guests.len()
        invariant
            0 <= i <= guests.len(),
            forall|j: int| 0 <= j < i ==> !(guests@[j].key == *key && guests@[j].agree_vote),
        decreases guests.len() - i,
    {
        if guests[i].agree_vote && guests[i].key.same(key) {
            return true;
        }
        i = i + 1;
    }
    false
}

fn all_agreed_exec(guests: &Vec<EventGuest>, attendees: &Vec<Pubkey>) -> (r: bool)
    ensures
        r == all_agreed(guests@, attendees@),
{
    if attendees.len() == 0 {
        return false;
    }
    let mut j: usize = 0;
    while j < attendees.len()
        invariant
            0 <= j <= attendees.len(),
            forall|k: int| 0 <= k < j ==> agreed(guests@, #[trigger] attendees@[k]),
        decreases attendees.len() - j,
    {
        if !has_agreed(guests, &attendees[j]) {
            return false;
        }
        j = j + 1;
    }
    true
}

proof fn lemma_betted_count_prefix(s: Seq<EventGuest>, i: int)
    requires
        0 <= i <= s.len(),
    ensures
        betted_count(s.take(i)) <= betted_count(s),
    decreases s.len(),
{
    if i == s.len() {
        assert(s.take(i) =~= s);
    } else {
        lemma_betted_count_prefix(s.drop_last(), i);
        assert(s.drop_last().take(i) =~= s.take(i));
    }
}

/// The lamports in the pot, or `None` when they overflow.
fn pot_checked(guests: &Vec<EventGuest>, bet: u64) -> (t: Option<u64>)
    ensures
        match t {
            Some(t) => t == bet * betted_count(guests@),
            None => bet * betted_count(guests@) > u64::MAX,
        },
{
    let mut t: u64 = 0;
    let mut i: usize = 0;
    assert(guests@.take(0) =~= Seq::<EventGuest>::empty());
    assert(betted_count(guests@.take(0)) == 0);
    assert(bet * 0 == 0) by (nonlinear_arith);
    while i < guests.len()
        invariant
            0 <= i <= guests.len(),
            t == bet * betted_count(guests@.take(i as int)),
        decreases guests.len() - i,
    {
        let ghost prev = betted_count(guests@.take(i as int));
        let ghost next = betted_count(guests@.take(i + 1));
        let ghost all = betted_count(guests@);
        assert(guests@.take(i + 1).drop_last() =~= guests@.take(i as int));
        assert(guests@.take(i + 1).last() == guests@[i as int]);
        proof {
            lemma_betted_count_prefix(guests@, i + 1);
            assert(bet * next == bet * prev + (if guests@[i as int].is_betted { bet as int } else { 0 })
                && bet * next <= bet * all)
                by (nonlinear_arith)
                requires
                    next == prev + (if guests@[i as int].is_betted { 1nat } else { 0nat }),
                    next <= all,
            ;
        }
        if guests[i].is_betted {
            if t > u64::MAX - bet {
                return None;
            }
            t = t + bet;
        }
        i = i + 1;
    }
    assert(guests@.take(guests.len() as int) =~= guests@);
    Some(t)
}

fn key_bytes(key: &Pubkey) -> (r: Vec<u8>)
    ensures
        r@ == key@,
{
    let mut r: Vec<u8> = Vec::new();
    let mut i: usize = 0;
    while i < 32
        invariant
            0 <= i <= 32,
            r@ == key@.take(i as int),
        decreases 32 - i,
    {
        r.push(key.0[i]);
        i = i + 1;
        assert(r@ =~= key@.take(i as int));
    }
    assert(key@.take(32) =~= key@);
    r
}

// ---------------------------------------------------------------------------
// The instructions.
// ---------------------------------------------------------------------------

/// Fills in a new profile: its name, and `now` as the time it was created and
/// last updated.
pub fn create_account(ctx: &mut CreateAccount, data: CreateAccountArg, now: i64)
    ensures
        final(ctx).profile@ == (ProfileView { name: data.name@, time_created: now, time_updated: now }),
{
    ctx.profile.name = data.name;
    ctx.profile.time_created = now;
    ctx.profile.time_updated = now;
}

/// Whether `add_stake`'s arithmetic stays in range.
pub fn add_stake_in_range(ctx: &AddStake, data: &AddStakeArg) -> (r: bool)
    ensures
        r == add_stake_fits(ctx.stake_list@, ctx.signer, ctx.stake_account.lamports, data.lamports),
{
    let rent: u64 = if ctx.stake_account.lamports == 0 { BASIC_RENT } else { 0 };
    if data.lamports > u64::MAX - rent {
        return false;
    }
    let i = find_staker(&ctx.stake_list.list, &ctx.signer);
    proof { lemma_first_index(staker_keys(ctx.stake_list.list@), ctx.signer); }
    i >= ctx.stake_list.list.len() || ctx.stake_list.list[i].lamports <= u64::MAX - data.lamports
}

/// Stakes `data.lamports` on the target: returns the transfer from the signer
/// to the target's stake account (with the basic rent besides while that
/// account is empty), and adds the amount to the signer's entry in the
/// target's list of stakers, or appends a new entry.
pub fn add_stake(ctx: &mut AddStake, data: AddStakeArg) -> (ix: Instruction)
    requires
        add_stake_fits(old(ctx).stake_list@, old(ctx).signer, old(ctx).stake_account.lamports, data.lamports),
    ensures
        is_transfer(
            ix@,
            old(ctx).signer,
            old(ctx).stake_account.key,
            with_rent(old(ctx).stake_account.lamports, data.lamports) as u64,
        ),
        final(ctx).stake_list@ == add_stake_list(old(ctx).stake_list@, old(ctx).signer, data.lamports),
        final(ctx).stake_account == old(ctx).stake_account,
        final(ctx).signer == old(ctx).signer,
{
    let mut stake_amount: u64 = data.lamports;
    // the first payment into the stake account also pays its rent
    if ctx.stake_account.lamports == 0 {
        stake_amount = stake_amount + BASIC_RENT;
    }
    let ix = system_transfer(&ctx.signer, &ctx.stake_account.key, stake_amount);
    let i = find_staker(&ctx.stake_list.list, &ctx.signer);
    proof { lemma_first_index(staker_keys(ctx.stake_list.list@), ctx.signer); }
    if i < ctx.stake_list.list.len() {
        let s = ctx.stake_list.list[i];
        ctx.stake_list.list.set(i, Staker { lamports: s.lamports + data.lamports, ..s });
    } else {
        ctx.stake_list.list.push(Staker { staker: ctx.signer, lamports: data.lamports });
    }
    ix
}

/// Sets up a new event hosted by the signer: its guests are the invited keys
/// and the host, each once, all counted as betted when the event takes no
/// bet; and appends the event's name with `now` to the host's list of events.
pub fn create_event(ctx: &mut CreateEvent, data: CreateEventArg, now: i64)
    ensures
        final(ctx).event@ == create_event_spec(old(ctx).event@, old(ctx).signer, data),
        final(ctx).event_list@ == old(ctx).event_list@.push(
            EventItemView { event_name: data.event_name@, event_create_time: now },
        ),
        final(ctx).signer == old(ctx).signer,
{
    let ghost data0 = data;
    let ghost old_guests = ctx.event.guests@;
    let ghost old_events = ctx.event_list.events@;
    let CreateEventArg {
        event_name,
        event_description,
        event_start_time,
        event_end_time,
        bet_lamports,
        guests,
    } = data;
    // with no bet, every guest counts as betted already
    let (is_betted, bet_lamports) = if bet_lamports > 0 {
        (false, bet_lamports)
    } else {
        (true, 0)
    };
    let mut all = guests;
    all.push(ctx.signer);
    let keys = dedup_keys(&all);
    let ghost added = keys@.map_values(|k: Pubkey| new_guest(k, data0.bet_lamports));
    let mut j: usize = 0;
    while j < keys.len()
        invariant
            0 <= j <= keys.len(),
            is_betted == (data0.bet_lamports == 0),
            keys@ == invited(data0.guests@, ctx.signer),
            ctx.signer == old(ctx).signer,
            ctx.event_list.events@ == old_events,
            ctx.event@ == (EventView { guests: ctx.event.guests@, ..old(ctx).event@ }),
            added == keys@.map_values(|k: Pubkey| new_guest(k, data0.bet_lamports)),
            ctx.event.guests@ == old_guests + added.take(j as int),
        decreases keys.len() - j,
    {
        ctx.event.guests.push(
            EventGuest { key: keys[j], is_betted, agree_vote: false, is_claimed: false },
        );
        j = j + 1;
        assert(ctx.event.guests@ =~= old_guests + added.take(j as int));
    }
    assert(added.take(keys.len() as int) =~= added);
    assert(ctx.event.guests@ =~= create_event_spec(old(ctx).event@, ctx.signer, data0).guests);
    let item = EventItem { event_name: event_name.clone(), event_create_time: now };
    ctx.event.event_name = event_name;
    ctx.event.event_description = event_description;
    ctx.event.event_start_time = event_start_time;
    ctx.event.event_end_time = event_end_time;
    ctx.event.host = ctx.signer;
    ctx.event.attendees = Vec::new();
    ctx.event.signed = 0;
    ctx.event.bet_lamports = bet_lamports;
    ctx.event.success = false;
    ctx.event_list.events.push(item);
    assert(ctx.event_list@ =~= old_events.map_values(|e: EventItem| e@).push(item@));
}

/// The checks of `bet_on_event`: where the signer stands among the guests.
fn bet_check(ctx: &BetOnEvent) -> (r: Result<usize, MyError>)
    ensures
        match r {
            Ok(i) => bet_spec(ctx.event@, ctx.signer) is Ok && i == guest_index(ctx.event@, ctx.signer),
            Err(e) => bet_spec(ctx.event@, ctx.signer) == Err::<EventView, MyError>(e),
        },
{
    let i = find_guest(&ctx.event.guests, &ctx.signer);
    proof { lemma_first_index(guest_keys(ctx.event.guests@), ctx.signer); }
    if i >= ctx.event.guests.len() {
        return Err(MyError::BetOnEventNotAGuest);
    }
    if ctx.event.guests[i].is_betted {
        return Err(MyError::BetOnEventAlreadyBetted);
    }
    Ok(i)
}

/// Whether `bet_on_event`'s arithmetic stays in range.
pub fn bet_on_event_in_range(ctx: &BetOnEvent) -> (r: bool)
    ensures
        r == bet_fits(ctx.event@, ctx.signer, ctx.bet_pot.lamports),
{
    let rent: u64 = if ctx.bet_pot.lamports == 0 { BASIC_RENT } else { 0 };
    match bet_check(ctx) {
        Ok(_) => ctx.event.bet_lamports <= u64::MAX - rent,
        Err(_) => true,
    }
}

/// A guest bets on the event: returns the transfer of the bet (with the
/// basic rent besides while the pot is empty) from the guest to the bet pot,
/// and marks the guest as betted.
pub fn bet_on_event(ctx: &mut BetOnEvent, data: BetOnEventArg) -> (r: Result<Instruction, MyError>)
    requires
        bet_fits(old(ctx).event@, old(ctx).signer, old(ctx).bet_pot.lamports),
    ensures
        match r {
            Ok(ix) => {
                &&& bet_spec(old(ctx).event@, old(ctx).signer) == Ok::<EventView, MyError>(final(ctx).event@)
                &&& is_transfer(
                    ix@,
                    old(ctx).signer,
                    old(ctx).bet_pot.key,
                    with_rent(old(ctx).bet_pot.lamports, old(ctx).event.bet_lamports) as u64,
                )
                &&& final(ctx).host == old(ctx).host
                &&& final(ctx).bet_pot == old(ctx).bet_pot
                &&& final(ctx).signer == old(ctx).signer
            },
            Err(e) => {
                &&& bet_spec(old(ctx).event@, old(ctx).signer) == Err::<EventView, MyError>(e)
                &&& *final(ctx) == *old(ctx)
            },
        },
{
    let i = match bet_check(ctx) {
        Ok(i) => i,
        Err(e) => return Err(e),
    };
    let g = ctx.event.guests[i];
    let mut bet_amount: u64 = ctx.event.bet_lamports;
    // the first bet into the pot also pays its rent
    if ctx.bet_pot.lamports == 0 {
        bet_amount = bet_amount + BASIC_RENT;
    }
    let ix = system_transfer(&ctx.signer, &ctx.bet_pot.key, bet_amount);
    ctx.event.guests.set(i, EventGuest { is_betted: true, ..g });
    Ok(ix)
}

/// The checks of `declare_event_attendees`: where the host stands among the
/// guests.
fn declare_check(ctx: &DeclareEventAttendees, attendees: &Vec<Pubkey>) -> (r: Result<usize, MyError>)
    ensures
        match r {
            Ok(i) => declare_spec(ctx.event@, ctx.signer, attendees@) is Ok && i == guest_index(
                ctx.event@,
                ctx.signer,
            ),
            Err(e) => declare_spec(ctx.event@, ctx.signer, attendees@) == Err::<EventView, MyError>(e),
        },
{
    if !ctx.signer.same(&ctx.event.host) {
        return Err(MyError::AccountNotMatch);
    }
    if ctx.event.attendees.len() != 0 {
        return Err(MyError::AttendeesAlreadyDeclared);
    }
    // the attendees must be guests who have bet
    if !all_betted_exec(&ctx.event.guests, attendees) {
        return Err(MyError::AccountNotMatch);
    }
    let i = find_guest(&ctx.event.guests, &ctx.signer);
    Ok(i)
}

/// Whether `declare_event_attendees`'s arithmetic stays in range.
pub fn declare_event_attendees_in_range(ctx: &DeclareEventAttendees, data: &DeclareEventAttendeesArg) -> (r:
    bool)
    ensures
        r == declare_fits(ctx.event@, ctx.signer, data.attendees@),
{
    match declare_check(ctx, &data.attendees) {
        Ok(i) => i >= ctx.event.guests.len() || ctx.event.guests[i].agree_vote || ctx.event.signed
            < u8::MAX,
        Err(_) => true,
    }
}

/// The host declares who attended: only guests who have bet, each once, and
/// only once per event; the host, when a guest who has not voted yet, votes
/// for the declaration, and the event succeeds if every declared attendee
/// has then voted.
pub fn declare_event_attendees(ctx: &mut DeclareEventAttendees, data: DeclareEventAttendeesArg) -> (r:
    Result<(), MyError>)
    requires
        declare_fits(old(ctx).event@, old(ctx).signer, data.attendees@),
    ensures
        final(ctx).signer == old(ctx).signer,
        match r {
            Ok(()) => declare_spec(old(ctx).event@, old(ctx).signer, data.attendees@) == Ok::<
                EventView,
                MyError,
            >(final(ctx).event@),
            Err(e) => {
                &&& declare_spec(old(ctx).event@, old(ctx).signer, data.attendees@) == Err::<
                    EventView,
                    MyError,
                >(e)
                &&& *final(ctx) == *old(ctx)
            },
        },
{
    let i = match declare_check(ctx, &data.attendees) {
        Ok(i) => i,
        Err(e) => return Err(e),
    };
    ctx.event.attendees = dedup_keys(&data.attendees);
    // the host votes for the declaration, once
    if i < ctx.event.guests.len() && !ctx.event.guests[i].agree_vote {
        let g = ctx.event.guests[i];
        ctx.event.guests.set(i, EventGuest { agree_vote: true, ..g });
        ctx.event.signed = ctx.event.signed + 1;
    }
    ctx.event.success = all_agreed_exec(&ctx.event.guests, &ctx.event.attendees);
    Ok(())
}

/// The checks of `agree_event_attendees`: where the signer stands among the
/// guests.
fn agree_check(ctx: &AgreeEventAttendees, attendees: &Vec<Pubkey>, now: i64) -> (r: Result<usize, MyError>)
    ensures
        match r {
            Ok(i) => agree_spec(ctx.event@, ctx.host, ctx.signer, attendees@, now) is Ok && i
                == guest_index(ctx.event@, ctx.signer),
            Err(e) => agree_spec(ctx.event@, ctx.host, ctx.signer, attendees@, now) == Err::<
                EventView,
                MyError,
            >(e),
        },
{
    if ctx.event.success {
        return Err(MyError::EventCompleted);
    }
    if now > ctx.event.event_end_time {
        return Err(MyError::EventCompleted);
    }
    if now < ctx.event.event_start_time {
        return Err(MyError::EventNotStarted);
    }
    if !ctx.host.same(&ctx.event.host) {
        return Err(MyError::AccountNotMatch);
    }
    if ctx.event.attendees.len() == 0 {
        return Err(MyError::AttendeesNotDeclared);
    }
    if !contains_key(&ctx.event.attendees, &ctx.signer) {
        return Err(MyError::NotAttendee);
    }
    // the signer must name exactly the declared attendees
    if !(covers_exec(attendees, &ctx.event.attendees) && covers_exec(&ctx.event.attendees, attendees)) {
        return Err(MyError::AttendeesNotMatch);
    }
    let i = find_guest(&ctx.event.guests, &ctx.signer);
    proof { lemma_first_index(guest_keys(ctx.event.guests@), ctx.signer); }
    if i >= ctx.event.guests.len() {
        return Err(MyError::AttendeesNotMatch);
    }
    if ctx.event.guests[i].agree_vote {
        return Err(MyError::AttendeesAlreadyVoted);
    }
    Ok(i)
}

/// Whether `agree_event_attendees`'s arithmetic stays in range.
pub fn agree_event_attendees_in_range(ctx: &AgreeEventAttendees, data: &AgreeEventAttendeesArg, now: i64) -> (r:
    bool)
    ensures
        r == agree_fits(ctx.event@, ctx.host, ctx.signer, data.attendees@, now),
{
    match agree_check(ctx, &data.attendees, now) {
        Ok(_) => ctx.event.signed < u8::MAX,
        Err(_) => true,
    }
}

/// A declared attendee agrees to the declared attendance, between the
/// event's start and end: `data.attendees` must name exactly the declared
/// attendees. The event succeeds once every declared attendee has voted.
pub fn agree_event_attendees(ctx: &mut AgreeEventAttendees, data: AgreeEventAttendeesArg, now: i64) -> (r:
    Result<(), MyError>)
    requires
        agree_fits(old(ctx).event@, old(ctx).host, old(ctx).signer, data.attendees@, now),
    ensures
        final(ctx).host == old(ctx).host,
        final(ctx).signer == old(ctx).signer,
        match r {
            Ok(()) => agree_spec(old(ctx).event@, old(ctx).host, old(ctx).signer, data.attendees@, now)
                == Ok::<EventView, MyError>(final(ctx).event@),
            Err(e) => {
                &&& agree_spec(old(ctx).event@, old(ctx).host, old(ctx).signer, data.attendees@, now)
                    == Err::<EventView, MyError>(e)
                &&& *final(ctx) == *old(ctx)
            },
        },
{
    let i = match agree_check(ctx, &data.attendees, now) {
        Ok(i) => i,
        Err(e) => return Err(e),
    };
    let g = ctx.event.guests[i];
    ctx.event.guests.set(i, EventGuest { agree_vote: true, ..g });
    ctx.event.signed = ctx.event.signed + 1;
    // the event succeeds once every declared attendee has agreed
    ctx.event.success = all_agreed_exec(&ctx.event.guests, &ctx.event.attendees);
    Ok(())
}

/// The checks of `claim_event_reward`: where the signer stands among the
/// guests.
fn claim_check(ctx: &ClaimEventReward) -> (r: Result<usize, MyError>)
    ensures
        match r {
            Ok(i) => claim_spec(ctx.event@, ctx.host, ctx.signer) is Ok && i == guest_index(
                ctx.event@,
                ctx.signer,
            ),
            Err(e) => claim_spec(ctx.event@, ctx.host, ctx.signer) == Err::<EventView, MyError>(e),
        },
{
    if !ctx.event.success {
        return Err(MyError::EventCompleted);
    }
    if !ctx.host.same(&ctx.event.host) {
        return Err(MyError::AccountNotMatch);
    }
    if !contains_key(&ctx.event.attendees, &ctx.signer) {
        return Err(MyError::AccountNotMatch);
    }
    let i = find_guest(&ctx.event.guests, &ctx.signer);
    proof { lemma_first_index(guest_keys(ctx.event.guests@), ctx.signer); }
    if i >= ctx.event.guests.len() {
        return Err(MyError::AttendeesNotMatch);
    }
    if ctx.event.guests[i].is_claimed {
        return Err(MyError::AttendeesAlreadyClaimed);
    }
    Ok(i)
}

/// Whether `claim_event_reward`'s arithmetic stays in range.
pub fn claim_event_reward_in_range(ctx: &ClaimEventReward) -> (r: bool)
    ensures
        r == claim_fits(ctx.event@, ctx.host, ctx.signer),
{
    if !(ctx.event.success && ctx.host.same(&ctx.event.host) && contains_key(&ctx.event.attendees, &ctx.signer)) {
        return true;
    }
    pot_checked(&ctx.event.guests, ctx.event.bet_lamports).is_some()
}

/// An attendee of a successful event claims a share of the pot: returns the
/// transfer of the share from the bet pot to the attendee, to be signed with
/// the bet pot's seeds, and marks the attendee as paid.
pub fn claim_event_reward(ctx: &mut ClaimEventReward, data: ClaimEventRewardArg) -> (r: Result<
    SignedInstruction,
    MyError,
>)
    requires
        claim_fits(old(ctx).event@, old(ctx).host, old(ctx).signer),
    ensures
        match r {
            Ok(s) => {
                &&& claim_spec(old(ctx).event@, old(ctx).host, old(ctx).signer) == Ok::<EventView, MyError>(
                    final(ctx).event@,
                )
                &&& is_transfer(
                    s.instruction@,
                    old(ctx).bet_pot.key,
                    old(ctx).signer,
                    reward(old(ctx).event@) as u64,
                )
                &&& s.signer_seeds@.map_values(|v: Vec<u8>| v@) == bet_pot_seeds(
                    old(ctx).host,
                    old(ctx).bet_pot_bump,
                )
                &&& s.signer_seeds@.len() == 3
                &&& s.signer_seeds@[0]@ == seq![98u8, 101u8, 116u8, 95u8, 112u8, 111u8, 116u8]
                &&& s.signer_seeds@[1]@ == old(ctx).host@
                &&& s.signer_seeds@[2]@ == seq![old(ctx).bet_pot_bump]
                &&& final(ctx).host == old(ctx).host
                &&& final(ctx).bet_pot == old(ctx).bet_pot
                &&& final(ctx).bet_pot_bump == old(ctx).bet_pot_bump
                &&& final(ctx).signer == old(ctx).signer
            },
            Err(e) => {
                &&& claim_spec(old(ctx).event@, old(ctx).host, old(ctx).signer) == Err::<EventView, MyError>(e)
                &&& *final(ctx) == *old(ctx)
            },
        },
{
    let i = match claim_check(ctx) {
        Ok(i) => i,
        Err(e) => return Err(e),
    };
    let seeds: Vec<Vec<u8>> = vec![
        vec![98u8, 101u8, 116u8, 95u8, 112u8, 111u8, 116u8],
        key_bytes(&ctx.host),
        vec![ctx.bet_pot_bump],
    ];
    assert(seeds@.map_values(|v: Vec<u8>| v@) =~= bet_pot_seeds(ctx.host, ctx.bet_pot_bump)) by {
        assert(seeds@[0]@ =~= seq![98u8, 101u8, 116u8, 95u8, 112u8, 111u8, 116u8]);
        assert(seeds@[2]@ =~= seq![ctx.bet_pot_bump]);
    }
    let bet_total = pot_checked(&ctx.event.guests, ctx.event.bet_lamports).unwrap();
    let reward_per_attendee = bet_total / (ctx.event.attendees.len() as u64);
    let g = ctx.event.guests[i];
    let ix = system_transfer(&ctx.bet_pot.key, &ctx.signer, reward_per_attendee);
    ctx.event.guests.set(i, EventGuest { is_claimed: true, ..g });
    Ok(SignedInstruction { instruction: ix, signer_seeds: seeds })
}

} // verus!
