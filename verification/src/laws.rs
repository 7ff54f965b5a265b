use vstd::prelude::*;
use crate::accounts::{CreateEventArg, EventGuest, EventView, MyError, Staker, guest_keys};
use crate::keys::{Pubkey, dedup, first_index, is_first, lemma_dedup, lemma_first_index,
    lemma_first_unique};
use crate::model::{add_stake_fits, bet_fits, claim_fits, add_stake_list, agree_fits, all_betted, bet_pot_seeds, covers, agree_spec, agreed, all_agreed, bet_spec, betted,
    betted_count, claim_spec, create_event_spec, declare_fits, declare_spec, guest_index, invited,
    new_guest, pot_total, reward, staker_keys, with_rent};
use crate::system::BASIC_RENT;

verus! {

// ---------------------------------------------------------------------------
// Counting.
// ---------------------------------------------------------------------------

/// How many guests have voted for the declared attendance.
pub open spec fn voted_count(guests: Seq<EventGuest>) -> nat
    decreases guests.len(),
{
    if guests.len() == 0 {
        0
    } else {
        voted_count(guests.drop_last()) + if guests.last().agree_vote { 1nat } else { 0nat }
    }
}

proof fn lemma_betted_count_update(g: Seq<EventGuest>, i: int, x: EventGuest)
    requires
        0 <= i < g.len(),
    ensures
        betted_count(g.update(i, x)) + (if g[i].is_betted { 1int } else { 0 }) == betted_count(g)
            + (if x.is_betted { 1int } else { 0 }),
    decreases g.len(),
{
    let u = g.update(i, x);
    if i == g.len() - 1 {
        assert(u.drop_last() =~= g.drop_last());
    } else {
        lemma_betted_count_update(g.drop_last(), i, x);
        assert(u.drop_last() =~= g.drop_last().update(i, x));
    }
}

proof fn lemma_voted_count_update(g: Seq<EventGuest>, i: int, x: EventGuest)
    requires
        0 <= i < g.len(),
    ensures
        voted_count(g.update(i, x)) + (if g[i].agree_vote { 1int } else { 0 }) == voted_count(g)
            + (if x.agree_vote { 1int } else { 0 }),
    decreases g.len(),
{
    let u = g.update(i, x);
    if i == g.len() - 1 {
        assert(u.drop_last() =~= g.drop_last());
    } else {
        lemma_voted_count_update(g.drop_last(), i, x);
        assert(u.drop_last() =~= g.drop_last().update(i, x));
    }
}

proof fn lemma_voted_count_append_fresh(g: Seq<EventGuest>, h: Seq<EventGuest>)
    requires
        forall|j: int| 0 <= j < h.len() ==> !(#[trigger] h[j]).agree_vote,
    ensures
        voted_count(g + h) == voted_count(g),
    decreases h.len(),
{
    if h.len() == 0 {
        assert(g + h =~= g);
    } else {
        lemma_voted_count_append_fresh(g, h.drop_last());
        assert((g + h).drop_last() =~= g + h.drop_last());
        assert((g + h).last() == h[h.len() - 1]);
    }
}

/// Changing a guest's flags leaves every guest where it stands.
proof fn lemma_guest_keys_update(g: Seq<EventGuest>, i: int, x: EventGuest)
    requires
        0 <= i < g.len(),
        x.key == g[i].key,
    ensures
        guest_keys(g.update(i, x)) == guest_keys(g),
{
    assert(guest_keys(g.update(i, x)) =~= guest_keys(g));
}

// ---------------------------------------------------------------------------
// Laws.
// ---------------------------------------------------------------------------

/// A new event's guests are the invited keys and the host, each exactly once,
/// none of them has voted or claimed, and all of them count as betted
/// exactly when the event takes no bet.
pub proof fn law_new_event_guests(e: EventView, signer: Pubkey, data: CreateEventArg)
    requires
        e.guests.len() == 0,
    ensures
        ({
            let guests = create_event_spec(e, signer, data).guests;
            &&& guest_keys(guests).no_duplicates()
            &&& guest_keys(guests).to_set() == data.guests@.to_set().insert(signer)
            &&& forall|j: int|
                0 <= j < guests.len() ==> {
                    &&& (#[trigger] guests[j]).is_betted == (data.bet_lamports == 0)
                    &&& !guests[j].agree_vote
                    &&& !guests[j].is_claimed
                }
        }),
{
    let all = data.guests@.push(signer);
    lemma_dedup(all);
    let guests = create_event_spec(e, signer, data).guests;
    assert(guests =~= invited(data.guests@, signer).map_values(
        |k: Pubkey| new_guest(k, data.bet_lamports),
    ));
    assert(guest_keys(guests) =~= dedup(all));
    assert(all.to_set() =~= data.guests@.to_set().insert(signer)) by {
        assert forall|k: Pubkey| all.contains(k) <==> (data.guests@.contains(k) || k == signer) by {
            if all.contains(k) {
                let i = choose|i: int| 0 <= i < all.len() && all[i] == k;
                if i < data.guests@.len() {
                    assert(data.guests@[i] == k);
                }
            }
            if data.guests@.contains(k) {
                let i = choose|i: int| 0 <= i < data.guests@.len() && data.guests@[i] == k;
                assert(all[i] == k);
            }
            if k == signer {
                assert(all[all.len() - 1] == k);
            }
        }
    }
}

/// A guest bets at most once: once a bet is taken, the same guest's next bet
/// on the event is refused as already betted.
pub proof fn law_bet_once(e: EventView, signer: Pubkey)
    requires
        bet_spec(e, signer) is Ok,
    ensures
        bet_spec(bet_spec(e, signer)->Ok_0, signer) == Err::<EventView, MyError>(
            MyError::BetOnEventAlreadyBetted,
        ),
{
    let i = guest_index(e, signer);
    lemma_first_index(guest_keys(e.guests), signer);
    let n = bet_spec(e, signer)->Ok_0;
    lemma_guest_keys_update(e.guests, i, EventGuest { is_betted: true, ..e.guests[i] });
    assert(guest_index(n, signer) == i);
}

/// The declared attendees are guests who have bet, each named once, exactly
/// the keys the host declared.
pub proof fn law_declared_attendees(e: EventView, signer: Pubkey, attendees: Seq<Pubkey>)
    requires
        declare_spec(e, signer, attendees) is Ok,
    ensures
        ({
            let n = declare_spec(e, signer, attendees)->Ok_0;
            &&& n.attendees.no_duplicates()
            &&& n.attendees.to_set() == attendees.to_set()
            &&& forall|j: int| 0 <= j < n.attendees.len() ==> betted(n.guests, #[trigger] n.attendees[j])
        }),
{
    let n = declare_spec(e, signer, attendees)->Ok_0;
    lemma_dedup(attendees);
    let i = guest_index(e, signer);
    lemma_first_index(guest_keys(e.guests), signer);
    assert forall|j: int| 0 <= j < n.attendees.len() implies betted(n.guests, #[trigger] n.attendees[j]) by {
        let a = n.attendees[j];
        assert(dedup(attendees).contains(a));
        assert(attendees.contains(a));
        let k = choose|k: int| 0 <= k < attendees.len() && attendees[k] == a;
        assert(betted(e.guests, attendees[k]));
        let m = choose|m: int| 0 <= m < e.guests.len() && e.guests[m].key == a && e.guests[m].is_betted;
        assert(n.guests[m].key == a && n.guests[m].is_betted);
    }
}

/// An attendee votes at most once: after a vote is taken, the same vote again
/// is refused, as completed when the vote made the event succeed, else as
/// already voted.
pub proof fn law_vote_once(e: EventView, host: Pubkey, signer: Pubkey, attendees: Seq<Pubkey>, now: i64)
    requires
        agree_spec(e, host, signer, attendees, now) is Ok,
    ensures
        ({
            let n = agree_spec(e, host, signer, attendees, now)->Ok_0;
            agree_spec(n, host, signer, attendees, now) == Err::<EventView, MyError>(
                if n.success {
                    MyError::EventCompleted
                } else {
                    MyError::AttendeesAlreadyVoted
                },
            )
        }),
{
    let i = guest_index(e, signer);
    lemma_first_index(guest_keys(e.guests), signer);
    let n = agree_spec(e, host, signer, attendees, now)->Ok_0;
    lemma_guest_keys_update(e.guests, i, EventGuest { agree_vote: true, ..e.guests[i] });
    assert(guest_index(n, signer) == i);
}

/// An attendee is paid at most once: after a claim is paid, the same claim
/// again is refused as already claimed.
pub proof fn law_claim_once(e: EventView, host: Pubkey, signer: Pubkey)
    requires
        claim_spec(e, host, signer) is Ok,
    ensures
        claim_spec(claim_spec(e, host, signer)->Ok_0, host, signer) == Err::<EventView, MyError>(
            MyError::AttendeesAlreadyClaimed,
        ),
{
    let i = guest_index(e, signer);
    lemma_first_index(guest_keys(e.guests), signer);
    let n = claim_spec(e, host, signer)->Ok_0;
    lemma_guest_keys_update(e.guests, i, EventGuest { is_claimed: true, ..e.guests[i] });
    assert(guest_index(n, signer) == i);
}

/// Paying a claim leaves the pot and each attendee's share as they were, and
/// the shares of all the declared attendees together never exceed the pot.
pub proof fn law_shares_within_pot(e: EventView, host: Pubkey, signer: Pubkey)
    requires
        claim_spec(e, host, signer) is Ok,
    ensures
        pot_total(claim_spec(e, host, signer)->Ok_0) == pot_total(e),
        reward(claim_spec(e, host, signer)->Ok_0) == reward(e),
        0 <= reward(e),
        reward(e) * e.attendees.len() <= pot_total(e),
{
    let i = guest_index(e, signer);
    lemma_first_index(guest_keys(e.guests), signer);
    let n = claim_spec(e, host, signer)->Ok_0;
    lemma_betted_count_update(e.guests, i, EventGuest { is_claimed: true, ..e.guests[i] });
    assert(e.attendees.len() > 0);
    let p = pot_total(e);
    let m = e.attendees.len() as int;
    assert(p >= 0) by (nonlinear_arith)
        requires
            p == e.bet_lamports * betted_count(e.guests),
    ;
    assert((p / m) * m <= p && 0 <= p / m) by (nonlinear_arith)
        requires
            p >= 0,
            m > 0,
    ;
}

/// Votes are counted: `signed` is the number of guests who have voted. A new
/// event starts so, and every instruction keeps it so (wherever its count
/// stays in range).
pub proof fn law_votes_counted(
    e: EventView,
    host: Pubkey,
    signer: Pubkey,
    attendees: Seq<Pubkey>,
    now: i64,
    data: CreateEventArg,
)
    ensures
        e.guests.len() == 0 ==> create_event_spec(e, signer, data).signed == voted_count(
            create_event_spec(e, signer, data).guests,
        ),
        e.signed == voted_count(e.guests) && bet_spec(e, signer) is Ok ==> bet_spec(e, signer)->Ok_0.signed
            == voted_count(bet_spec(e, signer)->Ok_0.guests),
        e.signed == voted_count(e.guests) && claim_spec(e, host, signer) is Ok ==> claim_spec(
            e,
            host,
            signer,
        )->Ok_0.signed == voted_count(claim_spec(e, host, signer)->Ok_0.guests),
        e.signed == voted_count(e.guests) && agree_fits(e, host, signer, attendees, now) && agree_spec(
            e,
            host,
            signer,
            attendees,
            now,
        ) is Ok ==> agree_spec(e, host, signer, attendees, now)->Ok_0.signed == voted_count(
            agree_spec(e, host, signer, attendees, now)->Ok_0.guests,
        ),
        e.signed == voted_count(e.guests) && declare_fits(e, signer, attendees) && declare_spec(
            e,
            signer,
            attendees,
        ) is Ok ==> declare_spec(e, signer, attendees)->Ok_0.signed == voted_count(
            declare_spec(e, signer, attendees)->Ok_0.guests,
        ),
{
    let i = guest_index(e, signer);
    lemma_first_index(guest_keys(e.guests), signer);
    if e.guests.len() == 0 {
        let added = invited(data.guests@, signer).map_values(|k: Pubkey| new_guest(k, data.bet_lamports));
        lemma_voted_count_append_fresh(e.guests, added);
        assert(e.guests =~= Seq::<EventGuest>::empty());
        assert(voted_count(e.guests) == 0);
    }
    if i < e.guests.len() {
        lemma_voted_count_update(e.guests, i, EventGuest { is_betted: true, ..e.guests[i] });
        lemma_voted_count_update(e.guests, i, EventGuest { is_claimed: true, ..e.guests[i] });
        lemma_voted_count_update(e.guests, i, EventGuest { agree_vote: true, ..e.guests[i] });
    }
}

/// Changing a guest's flags other than its vote leaves every guest's vote
/// where it was.
proof fn lemma_agreed_update(g: Seq<EventGuest>, i: int, x: EventGuest)
    requires
        0 <= i < g.len(),
        x.key == g[i].key,
        x.agree_vote == g[i].agree_vote,
    ensures
        forall|k: Pubkey| agreed(g.update(i, x), k) == agreed(g, k),
{
    let u = g.update(i, x);
    assert forall|k: Pubkey| agreed(u, k) == agreed(g, k) by {
        if agreed(u, k) {
            let j = choose|j: int| 0 <= j < u.len() && u[j].key == k && u[j].agree_vote;
            assert(g[j].key == k && g[j].agree_vote);
        }
        if agreed(g, k) {
            let j = choose|j: int| 0 <= j < g.len() && g[j].key == k && g[j].agree_vote;
            assert(u[j].key == k && u[j].agree_vote);
        }
    }
}

/// An event has succeeded only when every declared attendee has voted, and
/// some attendee was declared.
pub open spec fn success_means_all_voted(e: EventView) -> bool {
    e.success ==> all_agreed(e.guests, e.attendees)
}

/// Success is reached exactly through the declared attendees' votes: a new
/// event has not succeeded; declaring and agreeing set success exactly when
/// every declared attendee has voted; betting and claiming keep it; and once
/// reached, no instruction takes it back.
pub proof fn law_success_means_all_voted(
    e: EventView,
    host: Pubkey,
    signer: Pubkey,
    attendees: Seq<Pubkey>,
    now: i64,
    data: CreateEventArg,
)
    ensures
        !create_event_spec(e, signer, data).success,
        success_means_all_voted(e) && declare_spec(e, signer, attendees) is Ok ==> ({
            let n = declare_spec(e, signer, attendees)->Ok_0;
            n.success == all_agreed(n.guests, n.attendees) && !e.success
        }),
        agree_spec(e, host, signer, attendees, now) is Ok ==> ({
            let n = agree_spec(e, host, signer, attendees, now)->Ok_0;
            n.success == all_agreed(n.guests, n.attendees) && !e.success
        }),
        success_means_all_voted(e) && bet_spec(e, signer) is Ok ==> ({
            let n = bet_spec(e, signer)->Ok_0;
            success_means_all_voted(n) && n.success == e.success
        }),
        success_means_all_voted(e) && claim_spec(e, host, signer) is Ok ==> ({
            let n = claim_spec(e, host, signer)->Ok_0;
            success_means_all_voted(n) && n.success == e.success
        }),
        success_means_all_voted(e) && e.success ==> declare_spec(e, signer, attendees) is Err && agree_spec(
            e,
            host,
            signer,
            attendees,
            now,
        ) is Err,
{
    let i = guest_index(e, signer);
    lemma_first_index(guest_keys(e.guests), signer);
    if bet_spec(e, signer) is Ok {
        lemma_agreed_update(e.guests, i, EventGuest { is_betted: true, ..e.guests[i] });
    }
    if claim_spec(e, host, signer) is Ok {
        lemma_agreed_update(e.guests, i, EventGuest { is_claimed: true, ..e.guests[i] });
    }
}

/// The lamports staked on a target, over all its stakers.
pub open spec fn stake_total(list: Seq<Staker>) -> int
    decreases list.len(),
{
    if list.len() == 0 {
        0
    } else {
        stake_total(list.drop_last()) + list.last().lamports
    }
}

proof fn lemma_stake_total_update(list: Seq<Staker>, i: int, x: Staker)
    requires
        0 <= i < list.len(),
    ensures
        stake_total(list.update(i, x)) == stake_total(list) - list[i].lamports + x.lamports,
    decreases list.len(),
{
    let u = list.update(i, x);
    if i == list.len() - 1 {
        assert(u.drop_last() =~= list.drop_last());
    } else {
        lemma_stake_total_update(list.drop_last(), i, x);
        assert(u.drop_last() =~= list.drop_last().update(i, x));
    }
}

/// Staking adds exactly the staked lamports to what the target holds in
/// stakes, adds at most one entry, and keeps one entry per staker.
pub proof fn law_stake_adds_up(list: Seq<Staker>, signer: Pubkey, lamports: u64)
    requires
        ({
            let i = first_index(staker_keys(list), signer);
            i < list.len() ==> list[i].lamports + lamports <= u64::MAX
        }),
    ensures
        stake_total(add_stake_list(list, signer, lamports)) == stake_total(list) + lamports,
        add_stake_list(list, signer, lamports).len() <= list.len() + 1,
        staker_keys(list).no_duplicates() ==> staker_keys(add_stake_list(list, signer, lamports)).no_duplicates(),
{
    let keys = staker_keys(list);
    let i = first_index(keys, signer);
    lemma_first_index(keys, signer);
    let n = add_stake_list(list, signer, lamports);
    if i < list.len() {
        lemma_stake_total_update(list, i, Staker { lamports: (list[i].lamports + lamports) as u64, ..list[i] });
        assert(staker_keys(n) =~= keys);
    } else {
        assert(n.drop_last() =~= list);
        assert(staker_keys(n) =~= keys.push(signer));
        if keys.no_duplicates() {
            assert forall|a: int, b: int|
                0 <= a < staker_keys(n).len() && 0 <= b < staker_keys(n).len() && a != b implies
                staker_keys(n)[a] != staker_keys(n)[b] by {
                if a < keys.len() && b < keys.len() {
                } else if a < keys.len() {
                    assert(keys[a] != signer);
                } else {
                    assert(keys[b] != signer);
                }
            }
        }
    }
}

/// Two stakes by the same staker come to one stake of their sum: the same
/// list of stakers, and the same lamports paid into the stake account (the
/// account holding what the first payment put in when the second comes).
pub proof fn law_two_stakes_are_one(
    list: Seq<Staker>,
    signer: Pubkey,
    account_lamports: u64,
    x: u64,
    y: u64,
)
    requires
        x + y <= u64::MAX,
        account_lamports + with_rent(account_lamports, x) <= u64::MAX,
        ({
            let i = first_index(staker_keys(list), signer);
            i < list.len() ==> list[i].lamports + x + y <= u64::MAX
        }),
    ensures
        add_stake_list(add_stake_list(list, signer, x), signer, y) == add_stake_list(list, signer, (x + y) as u64),
        with_rent(account_lamports, x) + with_rent(
            (account_lamports + with_rent(account_lamports, x)) as u64,
            y,
        ) == with_rent(account_lamports, (x + y) as u64),
{
    let keys = staker_keys(list);
    let i = first_index(keys, signer);
    lemma_first_index(keys, signer);
    let n = add_stake_list(list, signer, x);
    lemma_first_index(staker_keys(n), signer);
    if i < list.len() {
        assert(staker_keys(n) =~= keys);
    } else {
        assert(staker_keys(n) =~= keys.push(signer));
        assert(is_first(staker_keys(n), signer, list.len() as int)) by {
            assert(staker_keys(n)[list.len() as int] == signer);
        }
        lemma_first_unique(staker_keys(n), signer, list.len() as int);
    }
    assert(BASIC_RENT > 0);
}

// ---------------------------------------------------------------------------
// Over sequences of instructions on one event.
// ---------------------------------------------------------------------------

/// One instruction on an event after its creation, with what it is given.
pub enum Step {
    Bet { signer: Pubkey },
    Declare { signer: Pubkey, attendees: Seq<Pubkey> },
    Agree { signer: Pubkey, attendees: Seq<Pubkey>, now: i64 },
    Claim { signer: Pubkey },
}

/// What an instruction makes of the event: a refused one changes nothing.
pub open spec fn step(e: EventView, host: Pubkey, st: Step) -> EventView {
    let r = match st {
        Step::Bet { signer } => bet_spec(e, signer),
        Step::Declare { signer, attendees } => declare_spec(e, signer, attendees),
        Step::Agree { signer, attendees, now } => agree_spec(e, host, signer, attendees, now),
        Step::Claim { signer } => claim_spec(e, host, signer),
    };
    match r {
        Ok(n) => n,
        Err(_) => e,
    }
}

/// Whether the instruction is a claim that is paid.
pub open spec fn step_pays(e: EventView, host: Pubkey, st: Step) -> bool {
    match st {
        Step::Claim { signer } => claim_spec(e, host, signer) is Ok,
        _ => false,
    }
}

/// The lamports the instruction moves out of the bet pot.
pub open spec fn step_paid(e: EventView, host: Pubkey, st: Step) -> int {
    if step_pays(e, host, st) {
        reward(e)
    } else {
        0
    }
}

/// The event after the instructions, in order.
pub open spec fn run(e: EventView, host: Pubkey, steps: Seq<Step>) -> EventView
    decreases steps.len(),
{
    if steps.len() == 0 {
        e
    } else {
        step(run(e, host, steps.drop_last()), host, steps.last())
    }
}

/// The lamports that the instructions move out of the bet pot, together.
pub open spec fn paid(e: EventView, host: Pubkey, steps: Seq<Step>) -> int
    decreases steps.len(),
{
    if steps.len() == 0 {
        0
    } else {
        paid(e, host, steps.drop_last()) + step_paid(run(e, host, steps.drop_last()), host, steps.last())
    }
}

/// Whether the attendee's guest entry has been paid.
pub open spec fn claimed(e: EventView, a: Pubkey) -> bool {
    guest_index(e, a) < e.guests.len() && e.guests[guest_index(e, a)].is_claimed
}

/// Whether no guest has been paid.
pub open spec fn no_claims(e: EventView) -> bool {
    forall|j: int| 0 <= j < e.guests.len() ==> !(#[trigger] e.guests[j]).is_claimed
}

/// The declared attendees who have been paid.
pub open spec fn paid_attendees(e: EventView) -> Set<Pubkey> {
    e.attendees.to_set().filter(|a: Pubkey| claimed(e, a))
}

proof fn lemma_reward_bounds(e: EventView)
    requires
        e.attendees.len() > 0,
    ensures
        0 <= reward(e),
        reward(e) * e.attendees.len() <= pot_total(e),
        0 <= pot_total(e),
{
    let p = pot_total(e);
    let m = e.attendees.len() as int;
    assert(p >= 0) by (nonlinear_arith)
        requires
            p == e.bet_lamports * betted_count(e.guests),
    ;
    assert((p / m) * m <= p && 0 <= p / m) by (nonlinear_arith)
        requires
            p >= 0,
            m > 0,
    ;
}

/// After success, an instruction keeps the event's success, host, attendees
/// and guests' places; it never takes a payment back; the pot and the share
/// only grow; and a paid claim pays the share and marks one more attendee
/// as paid.
proof fn lemma_step_after_success(e: EventView, host: Pubkey, st: Step)
    requires
        e.success,
        e.attendees.len() > 0,
    ensures
        ({
            let n = step(e, host, st);
            &&& n.success
            &&& n.host == e.host
            &&& n.attendees == e.attendees
            &&& guest_keys(n.guests) == guest_keys(e.guests)
            &&& n.guests.len() == e.guests.len()
            &&& pot_total(e) <= pot_total(n)
            &&& reward(e) <= reward(n)
            &&& forall|a: Pubkey| claimed(e, a) ==> claimed(n, a)
            &&& success_means_all_voted(e) ==> success_means_all_voted(n)
            &&& if step_pays(e, host, st) {
                &&& reward(n) == reward(e)
                &&& exists|t: Pubkey|
                    {
                        &&& !paid_attendees(e).contains(t)
                        &&& e.attendees.contains(t)
                        &&& paid_attendees(n) == paid_attendees(e).insert(t)
                    }
            } else {
                paid_attendees(n) == paid_attendees(e)
            }
        }),
{
    let n = step(e, host, st);
    lemma_reward_bounds(e);
    match st {
        Step::Bet { signer } => {
            if bet_spec(e, signer) is Ok {
                let i = guest_index(e, signer);
                lemma_first_index(guest_keys(e.guests), signer);
                let x = EventGuest { is_betted: true, ..e.guests[i] };
                lemma_guest_keys_update(e.guests, i, x);
                lemma_betted_count_update(e.guests, i, x);
                lemma_agreed_update(e.guests, i, x);
                let c = betted_count(e.guests);
                let b = e.bet_lamports;
                assert(b * c <= b * (c + 1)) by (nonlinear_arith);
                vstd::arithmetic::div_mod::lemma_div_is_ordered(
                    pot_total(e),
                    pot_total(n),
                    e.attendees.len() as int,
                );
                assert forall|a: Pubkey| claimed(n, a) == claimed(e, a) by {
                    assert(guest_index(n, a) == guest_index(e, a));
                }
                assert(paid_attendees(n) =~= paid_attendees(e));
            }
        },
        Step::Declare { signer, attendees } => {
        },
        Step::Agree { signer, attendees, now } => {
        },
        Step::Claim { signer } => {
            if claim_spec(e, host, signer) is Ok {
                let i = guest_index(e, signer);
                lemma_first_index(guest_keys(e.guests), signer);
                let x = EventGuest { is_claimed: true, ..e.guests[i] };
                lemma_guest_keys_update(e.guests, i, x);
                lemma_betted_count_update(e.guests, i, x);
                lemma_agreed_update(e.guests, i, x);
                assert forall|a: Pubkey| a != signer implies claimed(n, a) == claimed(e, a) by {
                    let j = guest_index(e, a);
                    assert(guest_index(n, a) == j);
                    lemma_first_index(guest_keys(e.guests), a);
                    if j < e.guests.len() {
                        assert(guest_keys(e.guests)[j] == a);
                        assert(guest_keys(e.guests)[i] == signer);
                    }
                }
                assert(guest_index(n, signer) == i);
                assert(claimed(n, signer));
                assert(!claimed(e, signer));
                assert(e.attendees.to_set().contains(signer));
                assert(paid_attendees(n) =~= paid_attendees(e).insert(signer));
                assert(!paid_attendees(e).contains(signer));
            }
        },
    }
}

/// Before success, no instruction pays, none marks a guest as paid, and
/// success, once reached, is reached through every declared attendee's
/// vote.
proof fn lemma_step_before_success(e: EventView, host: Pubkey, st: Step)
    requires
        !e.success,
        no_claims(e),
        success_means_all_voted(e),
    ensures
        ({
            let n = step(e, host, st);
            &&& !step_pays(e, host, st)
            &&& no_claims(n)
            &&& success_means_all_voted(n)
        }),
{
    let n = step(e, host, st);
    match st {
        Step::Bet { signer } => {
            law_success_means_all_voted(e, host, signer, Seq::empty(), 0, arbitrary());
        },
        Step::Declare { signer, attendees } => {
            law_success_means_all_voted(e, host, signer, attendees, 0, arbitrary());
        },
        Step::Agree { signer, attendees, now } => {
            law_success_means_all_voted(e, host, signer, attendees, now, arbitrary());
        },
        Step::Claim { signer } => {
        },
    }
    if n != e {
        let (signer, i) = match st {
            Step::Bet { signer } => (signer, guest_index(e, signer)),
            Step::Declare { signer, attendees } => (signer, guest_index(e, signer)),
            Step::Agree { signer, attendees, now } => (signer, guest_index(e, signer)),
            Step::Claim { signer } => (signer, guest_index(e, signer)),
        };
        lemma_first_index(guest_keys(e.guests), signer);
        assert forall|j: int| 0 <= j < n.guests.len() implies !(#[trigger] n.guests[j]).is_claimed by {
            assert(n.guests.len() == e.guests.len());
            if j != i {
                assert(n.guests[j] == e.guests[j]);
            }
            assert(!e.guests[j].is_claimed);
        }
    }
}

/// What holds at every point of a run from an event nobody has been paid
/// from yet: success only through every declared attendee's vote; no
/// payment before success; after success, what was paid is at most one
/// share for each paid attendee.
pub open spec fn run_inv(r: EventView, p: int) -> bool {
    &&& success_means_all_voted(r)
    &&& !r.success ==> no_claims(r) && p == 0
    &&& r.success ==> p <= reward(r) * paid_attendees(r).len() && paid_attendees(r).subset_of(
        r.attendees.to_set(),
    )
}

proof fn lemma_run_inv(e: EventView, host: Pubkey, steps: Seq<Step>)
    requires
        success_means_all_voted(e),
        no_claims(e),
    ensures
        run_inv(run(e, host, steps), paid(e, host, steps)),
    decreases steps.len(),
{
    if steps.len() == 0 {
        let r = e;
        if r.success {
            assert(paid_attendees(r) =~= Set::empty()) by {
                assert forall|a: Pubkey| !paid_attendees(r).contains(a) by {
                    lemma_first_index(guest_keys(r.guests), a);
                    if guest_index(r, a) < r.guests.len() {
                        assert(!r.guests[guest_index(r, a)].is_claimed);
                    }
                }
            }
        }
    } else {
        let init = steps.drop_last();
        lemma_run_inv(e, host, init);
        let r = run(e, host, init);
        let p = paid(e, host, init);
        let st = steps.last();
        let n = step(r, host, st);
        assert(run(e, host, steps) == n);
        assert(paid(e, host, steps) == p + step_paid(r, host, st));
        if r.success {
            lemma_step_after_success(r, host, st);
            lemma_reward_bounds(r);
            let k = paid_attendees(r).len();
            r.attendees.to_set().lemma_len_filter(|a: Pubkey| claimed(r, a));
            assert(p <= reward(n) * k) by (nonlinear_arith)
                requires
                    p <= reward(r) * k,
                    reward(r) <= reward(n),
                    0 <= reward(r),
            ;
            if step_pays(r, host, st) {
                let t = choose|t: Pubkey|
                    {
                        &&& !paid_attendees(r).contains(t)
                        &&& r.attendees.contains(t)
                        &&& paid_attendees(n) == paid_attendees(r).insert(t)
                    };
                assert(paid_attendees(n).len() == k + 1);
                assert(p + reward(r) <= reward(n) * (k + 1)) by (nonlinear_arith)
                    requires
                        p <= reward(n) * k,
                        reward(n) == reward(r),
                ;
                assert(r.attendees.to_set().contains(t));
            }
        } else {
            lemma_step_before_success(r, host, st);
            if n.success {
                assert(paid_attendees(n) =~= Set::empty()) by {
                    assert forall|a: Pubkey| !paid_attendees(n).contains(a) by {
                        lemma_first_index(guest_keys(n.guests), a);
                        if guest_index(n, a) < n.guests.len() {
                            assert(!n.guests[guest_index(n, a)].is_claimed);
                        }
                    }
                }
            }
        }
    }
}

/// Over any instructions on an event from which nobody has been paid yet,
/// what the paid claims move out of the bet pot together never exceeds the
/// pot as it then stands: at most one share for each declared attendee.
pub proof fn law_payouts_within_pot(e: EventView, host: Pubkey, steps: Seq<Step>)
    requires
        success_means_all_voted(e),
        no_claims(e),
    ensures
        paid(e, host, steps) <= pot_total(run(e, host, steps)),
        run(e, host, steps).success ==> paid(e, host, steps) <= reward(run(e, host, steps)) * run(
            e,
            host,
            steps,
        ).attendees.len(),
{
    lemma_run_inv(e, host, steps);
    let r = run(e, host, steps);
    let p = paid(e, host, steps);
    if r.success {
        lemma_reward_bounds(r);
        r.attendees.lemma_cardinality_of_set();
        vstd::set_lib::lemma_len_subset(paid_attendees(r), r.attendees.to_set());
        let k = paid_attendees(r).len();
        assert(p <= reward(r) * r.attendees.len()) by (nonlinear_arith)
            requires
                p <= reward(r) * k,
                k <= r.attendees.len(),
                0 <= reward(r),
        ;
    } else {
        assert(p == 0);
        assert(0 <= pot_total(r)) by (nonlinear_arith)
            requires
                pot_total(r) == r.bet_lamports * betted_count(r.guests),
        ;
    }
}

/// An attendee is paid at most once: after a paid claim, the same claim is
/// refused as already claimed, whatever instructions came in between.
pub proof fn law_claim_once_ever(e: EventView, host: Pubkey, signer: Pubkey, steps: Seq<Step>)
    requires
        claim_spec(e, host, signer) is Ok,
    ensures
        claim_spec(run(claim_spec(e, host, signer)->Ok_0, host, steps), host, signer) == Err::<
            EventView,
            MyError,
        >(MyError::AttendeesAlreadyClaimed),
    decreases steps.len(),
{
    let n = claim_spec(e, host, signer)->Ok_0;
    let i = guest_index(e, signer);
    lemma_first_index(guest_keys(e.guests), signer);
    lemma_guest_keys_update(e.guests, i, EventGuest { is_claimed: true, ..e.guests[i] });
    assert(guest_index(n, signer) == i);
    lemma_claimed_kept(n, host, signer, steps);
}

proof fn lemma_claimed_kept(n: EventView, host: Pubkey, signer: Pubkey, steps: Seq<Step>)
    requires
        n.success,
        n.host == host,
        n.attendees.contains(signer),
        claimed(n, signer),
    ensures
        ({
            let r = run(n, host, steps);
            &&& r.success
            &&& r.host == host
            &&& r.attendees.contains(signer)
            &&& claimed(r, signer)
            &&& claim_spec(r, host, signer) == Err::<EventView, MyError>(MyError::AttendeesAlreadyClaimed)
        }),
    decreases steps.len(),
{
    if steps.len() > 0 {
        let init = steps.drop_last();
        lemma_claimed_kept(n, host, signer, init);
        let r = run(n, host, init);
        lemma_step_after_success(r, host, steps.last());
    }
}

// ---------------------------------------------------------------------------
// What each instruction does, over its inputs and results.
// ---------------------------------------------------------------------------

/// `i` is where the guest `s` first stands: the guest entries are looked up
/// by key, first match.
proof fn lemma_guest_at(e: EventView, s: Pubkey, i: int)
    requires
        0 <= i < e.guests.len(),
        e.guests[i].key == s,
        forall|j: int| 0 <= j < i ==> e.guests[j].key != s,
    ensures
        guest_index(e, s) == i,
{
    let keys = guest_keys(e.guests);
    assert forall|j: int| 0 <= j < i implies keys[j] != s by {
        assert(keys[j] == e.guests[j].key);
    }
    assert(is_first(keys, s, i));
    lemma_first_unique(keys, s, i);
}

/// Where `s` is no guest, the lookup finds nothing; where it is one, the
/// lookup finds its first entry.
proof fn lemma_guest_lookup(e: EventView, s: Pubkey)
    ensures
        (forall|j: int| 0 <= j < e.guests.len() ==> e.guests[j].key != s) ==> guest_index(e, s)
            == e.guests.len(),
        guest_index(e, s) < e.guests.len() ==> {
            &&& 0 <= guest_index(e, s)
            &&& e.guests[guest_index(e, s)].key == s
            &&& forall|j: int| 0 <= j < guest_index(e, s) ==> e.guests[j].key != s
        },
{
    let keys = guest_keys(e.guests);
    lemma_first_index(keys, s);
    if forall|j: int| 0 <= j < e.guests.len() ==> e.guests[j].key != s {
        assert(!keys.contains(s)) by {
            if keys.contains(s) {
                let j = choose|j: int| 0 <= j < keys.len() && keys[j] == s;
                assert(keys[j] == e.guests[j].key);
            }
        }
    }
    let i = guest_index(e, s);
    if i < e.guests.len() {
        assert(keys[i] == e.guests[i].key);
        assert forall|j: int| 0 <= j < i implies e.guests[j].key != s by {
            assert(keys[j] == e.guests[j].key);
        }
    }
}

/// Betting: a key that is no guest is refused; a guest who has bet is
/// refused; any other guest's bet is taken, whatever the event's attendees
/// or success, and marks exactly that guest's first entry as betted.
pub proof fn law_bet_outcome(e: EventView, s: Pubkey)
    ensures
        (forall|j: int| 0 <= j < e.guests.len() ==> e.guests[j].key != s) ==> bet_spec(e, s) == Err::<
            EventView,
            MyError,
        >(MyError::BetOnEventNotAGuest),
        forall|i: int|
            0 <= i < e.guests.len() && e.guests[i].key == s && (forall|j: int|
                0 <= j < i ==> e.guests[j].key != s) ==> bet_spec(e, s) == if e.guests[i].is_betted {
                Err::<EventView, MyError>(MyError::BetOnEventAlreadyBetted)
            } else {
                Ok::<EventView, MyError>(
                    EventView {
                        guests: e.guests.update(
                            i,
                            EventGuest {
                                key: s,
                                is_betted: true,
                                agree_vote: e.guests[i].agree_vote,
                                is_claimed: e.guests[i].is_claimed,
                            },
                        ),
                        ..e
                    },
                )
            },
{
    lemma_guest_lookup(e, s);
    assert forall|i: int|
        0 <= i < e.guests.len() && e.guests[i].key == s && (forall|j: int|
            0 <= j < i ==> e.guests[j].key != s) implies bet_spec(e, s) == if e.guests[i].is_betted {
        Err::<EventView, MyError>(MyError::BetOnEventAlreadyBetted)
    } else {
        Ok::<EventView, MyError>(
            EventView {
                guests: e.guests.update(
                    i,
                    EventGuest {
                        key: s,
                        is_betted: true,
                        agree_vote: e.guests[i].agree_vote,
                        is_claimed: e.guests[i].is_claimed,
                    },
                ),
                ..e
            },
        )
    } by {
        lemma_guest_at(e, s, i);
    }
}

/// Whether every declared attendee has a guest entry that has voted, and
/// some attendee was declared.
pub open spec fn everyone_voted(guests: Seq<EventGuest>, declared: Seq<Pubkey>) -> bool {
    &&& declared.len() > 0
    &&& forall|k: int|
        0 <= k < declared.len() ==> exists|m: int|
            0 <= m < guests.len() && guests[m].key == #[trigger] declared[k] && guests[m].agree_vote
}

/// Declaring: taken exactly when the signer is the host, nothing is declared
/// yet, and each declared key has a guest entry that has bet; then the
/// attendees are the declared keys, each once; the host, at its first guest
/// entry if it has one and whether or not it has bet, votes unless it already
/// has, and the event succeeds exactly when every declared attendee has
/// voted.
pub proof fn law_declare_outcome(e: EventView, s: Pubkey, attendees: Seq<Pubkey>)
    ensures
        declare_spec(e, s, attendees) is Ok <==> {
            &&& s == e.host
            &&& e.attendees.len() == 0
            &&& forall|j: int|
                0 <= j < attendees.len() ==> exists|m: int|
                    0 <= m < e.guests.len() && e.guests[m].key == #[trigger] attendees[j]
                        && e.guests[m].is_betted
        },
        declare_spec(e, s, attendees) is Ok ==> {
            let n = declare_spec(e, s, attendees)->Ok_0;
            &&& n.attendees.to_set() == attendees.to_set()
            &&& n.attendees.no_duplicates()
            &&& n.host == e.host
            &&& n.bet_lamports == e.bet_lamports
            &&& n.success == everyone_voted(n.guests, n.attendees)
            &&& n.guests.len() == e.guests.len()
        },
        forall|i: int|
            0 <= i < e.guests.len() && e.guests[i].key == s && (forall|j: int|
                0 <= j < i ==> e.guests[j].key != s) && declare_spec(e, s, attendees) is Ok ==> {
                let n = declare_spec(e, s, attendees)->Ok_0;
                if e.guests[i].agree_vote {
                    n.guests == e.guests && n.signed == e.signed
                } else {
                    &&& n.guests == e.guests.update(
                        i,
                        EventGuest {
                            key: s,
                            is_betted: e.guests[i].is_betted,
                            agree_vote: true,
                            is_claimed: e.guests[i].is_claimed,
                        },
                    )
                    &&& n.signed == (e.signed + 1) as u8
                }
            },
        (forall|j: int| 0 <= j < e.guests.len() ==> e.guests[j].key != s) && declare_spec(e, s, attendees)
            is Ok ==> declare_spec(e, s, attendees)->Ok_0.guests == e.guests && declare_spec(
            e,
            s,
            attendees,
        )->Ok_0.signed == e.signed,
{
    lemma_guest_lookup(e, s);
    lemma_dedup(attendees);
    assert(all_betted(e.guests, attendees) <==> forall|j: int|
        0 <= j < attendees.len() ==> exists|m: int|
            0 <= m < e.guests.len() && e.guests[m].key == #[trigger] attendees[j] && e.guests[m].is_betted);
    if declare_spec(e, s, attendees) is Ok {
        let n = declare_spec(e, s, attendees)->Ok_0;
        assert(n.attendees.to_set() =~= attendees.to_set());
        assert(n.success == everyone_voted(n.guests, n.attendees)) by {
            assert(all_agreed(n.guests, n.attendees) == everyone_voted(n.guests, n.attendees));
        }
    }
    assert forall|i: int|
        0 <= i < e.guests.len() && e.guests[i].key == s && (forall|j: int|
            0 <= j < i ==> e.guests[j].key != s) && declare_spec(e, s, attendees) is Ok implies {
        let n = declare_spec(e, s, attendees)->Ok_0;
        if e.guests[i].agree_vote {
            n.guests == e.guests && n.signed == e.signed
        } else {
            &&& n.guests == e.guests.update(
                i,
                EventGuest {
                    key: s,
                    is_betted: e.guests[i].is_betted,
                    agree_vote: true,
                    is_claimed: e.guests[i].is_claimed,
                },
            )
            &&& n.signed == (e.signed + 1) as u8
        }
    } by {
        lemma_guest_at(e, s, i);
    }
}

/// Agreeing: taken only from a declared attendee, while the event has not
/// succeeded, between its start and its end, for the right host, naming
/// exactly the declared attendees (as a set); and then always taken when
/// the signer's first guest entry has not voted yet. The vote marks that
/// entry, counts one more vote, and the event succeeds exactly when every
/// declared attendee has voted.
pub proof fn law_agree_outcome(e: EventView, h: Pubkey, s: Pubkey, attendees: Seq<Pubkey>, now: i64)
    ensures
        agree_spec(e, h, s, attendees, now) is Ok ==> {
            &&& !e.success
            &&& e.event_start_time <= now <= e.event_end_time
            &&& h == e.host
            &&& e.attendees.contains(s)
            &&& attendees.contains(s)
            &&& attendees.to_set() == e.attendees.to_set()
        },
        forall|i: int|
            0 <= i < e.guests.len() && e.guests[i].key == s && (forall|j: int|
                0 <= j < i ==> e.guests[j].key != s) && !e.success && e.event_start_time <= now
                <= e.event_end_time && h == e.host && e.attendees.contains(s) && attendees.to_set()
                == e.attendees.to_set() ==> if e.guests[i].agree_vote {
                agree_spec(e, h, s, attendees, now) == Err::<EventView, MyError>(
                    MyError::AttendeesAlreadyVoted,
                )
            } else {
                let guests = e.guests.update(
                    i,
                    EventGuest {
                        key: s,
                        is_betted: e.guests[i].is_betted,
                        agree_vote: true,
                        is_claimed: e.guests[i].is_claimed,
                    },
                );
                agree_spec(e, h, s, attendees, now) == Ok::<EventView, MyError>(
                    EventView {
                        guests,
                        signed: (e.signed + 1) as u8,
                        success: everyone_voted(guests, e.attendees),
                        ..e
                    },
                )
            },
{
    lemma_guest_lookup(e, s);
    if agree_spec(e, h, s, attendees, now) is Ok {
        assert(attendees.to_set() =~= e.attendees.to_set()) by {
            assert forall|a: Pubkey| attendees.contains(a) implies e.attendees.contains(a) by {
                let j = choose|j: int| 0 <= j < attendees.len() && attendees[j] == a;
                assert(e.attendees.contains(attendees[j]));
            }
            assert forall|a: Pubkey| e.attendees.contains(a) implies attendees.contains(a) by {
                let j = choose|j: int| 0 <= j < e.attendees.len() && e.attendees[j] == a;
                assert(attendees.contains(e.attendees[j]));
            }
        }
        assert(attendees.to_set().contains(s));
    }
    assert forall|i: int|
        0 <= i < e.guests.len() && e.guests[i].key == s && (forall|j: int|
            0 <= j < i ==> e.guests[j].key != s) && !e.success && e.event_start_time <= now
            <= e.event_end_time && h == e.host && e.attendees.contains(s) && attendees.to_set()
            == e.attendees.to_set() implies if e.guests[i].agree_vote {
        agree_spec(e, h, s, attendees, now) == Err::<EventView, MyError>(MyError::AttendeesAlreadyVoted)
    } else {
        let guests = e.guests.update(
            i,
            EventGuest {
                key: s,
                is_betted: e.guests[i].is_betted,
                agree_vote: true,
                is_claimed: e.guests[i].is_claimed,
            },
        );
        agree_spec(e, h, s, attendees, now) == Ok::<EventView, MyError>(
            EventView { guests, signed: (e.signed + 1) as u8, success: everyone_voted(guests, e.attendees), ..e },
        )
    } by {
        lemma_guest_at(e, s, i);
        assert(attendees.to_set().contains(s));
        assert(covers(attendees, e.attendees)) by {
            assert forall|j: int| 0 <= j < e.attendees.len() implies attendees.contains(
                #[trigger] e.attendees[j],
            ) by {
                assert(e.attendees.to_set().contains(e.attendees[j]));
            }
        }
        assert(covers(e.attendees, attendees)) by {
            assert forall|j: int| 0 <= j < attendees.len() implies e.attendees.contains(
                #[trigger] attendees[j],
            ) by {
                assert(attendees.to_set().contains(attendees[j]));
            }
        }
        let guests = e.guests.update(
            i,
            EventGuest {
                key: s,
                is_betted: e.guests[i].is_betted,
                agree_vote: true,
                is_claimed: e.guests[i].is_claimed,
            },
        );
        assert(all_agreed(guests, e.attendees) == everyone_voted(guests, e.attendees));
    }
}

/// The guests who have bet, as listed.
pub open spec fn betted_guests(guests: Seq<EventGuest>) -> Seq<EventGuest> {
    guests.filter(|g: EventGuest| g.is_betted)
}

proof fn lemma_betted_count_is_filter(g: Seq<EventGuest>)
    ensures
        betted_count(g) == betted_guests(g).len(),
    decreases g.len(),
{
    reveal_with_fuel(Seq::<EventGuest>::filter, 1);
    if g.len() > 0 {
        lemma_betted_count_is_filter(g.drop_last());
    }
}

/// Claiming: paid exactly when the event has succeeded, the host is right,
/// the signer is a declared attendee, and the signer's first guest entry has
/// not been paid; the payment marks that entry as paid and changes nothing
/// else. The share is the pot, the bet once for each guest who has bet,
/// divided among the declared attendees and rounded down.
pub proof fn law_claim_outcome(e: EventView, h: Pubkey, s: Pubkey)
    ensures
        claim_spec(e, h, s) is Ok <==> {
            &&& e.success
            &&& h == e.host
            &&& e.attendees.contains(s)
            &&& exists|i: int|
                0 <= i < e.guests.len() && e.guests[i].key == s && (forall|j: int|
                    0 <= j < i ==> e.guests[j].key != s) && !e.guests[i].is_claimed
        },
        forall|i: int|
            0 <= i < e.guests.len() && e.guests[i].key == s && (forall|j: int|
                0 <= j < i ==> e.guests[j].key != s) && claim_spec(e, h, s) is Ok ==> claim_spec(
                e,
                h,
                s,
            ) == Ok::<EventView, MyError>(
                EventView {
                    guests: e.guests.update(
                        i,
                        EventGuest {
                            key: s,
                            is_betted: e.guests[i].is_betted,
                            agree_vote: e.guests[i].agree_vote,
                            is_claimed: true,
                        },
                    ),
                    ..e
                },
            ),
        pot_total(e) == e.bet_lamports * betted_guests(e.guests).len(),
        e.attendees.len() > 0 ==> {
            &&& 0 <= reward(e)
            &&& reward(e) * e.attendees.len() <= pot_total(e)
            &&& pot_total(e) < (reward(e) + 1) * e.attendees.len()
        },
{
    lemma_guest_lookup(e, s);
    lemma_betted_count_is_filter(e.guests);
    if claim_spec(e, h, s) is Ok {
        let i = guest_index(e, s);
        assert(0 <= i < e.guests.len() && e.guests[i].key == s && (forall|j: int|
            0 <= j < i ==> e.guests[j].key != s) && !e.guests[i].is_claimed);
    }
    if e.success && h == e.host && e.attendees.contains(s) && exists|i: int|
        0 <= i < e.guests.len() && e.guests[i].key == s && (forall|j: int|
            0 <= j < i ==> e.guests[j].key != s) && !e.guests[i].is_claimed {
        let i = choose|i: int|
            0 <= i < e.guests.len() && e.guests[i].key == s && (forall|j: int|
                0 <= j < i ==> e.guests[j].key != s) && !e.guests[i].is_claimed;
        lemma_guest_at(e, s, i);
    }
    assert forall|i: int|
        0 <= i < e.guests.len() && e.guests[i].key == s && (forall|j: int|
            0 <= j < i ==> e.guests[j].key != s) && claim_spec(e, h, s) is Ok implies claim_spec(
        e,
        h,
        s,
    ) == Ok::<EventView, MyError>(
        EventView {
            guests: e.guests.update(
                i,
                EventGuest {
                    key: s,
                    is_betted: e.guests[i].is_betted,
                    agree_vote: e.guests[i].agree_vote,
                    is_claimed: true,
                },
            ),
            ..e
        },
    ) by {
        lemma_guest_at(e, s, i);
    }
    if e.attendees.len() > 0 {
        lemma_reward_bounds(e);
        let p = pot_total(e);
        let m = e.attendees.len() as int;
        assert(p < (p / m + 1) * m) by (nonlinear_arith)
            requires
                p >= 0,
                m > 0,
        ;
    }
}

/// The pot address is made from three seeds: the bytes of `b"bet_pot"`,
/// the host's key as it stands, and the bump.
pub proof fn law_bet_pot_seeds(host: Pubkey, bump: u8)
    ensures
        bet_pot_seeds(host, bump).len() == 3,
        bet_pot_seeds(host, bump)[0] == seq![98u8, 101u8, 116u8, 95u8, 112u8, 111u8, 116u8],
        bet_pot_seeds(host, bump)[1] == host@,
        bet_pot_seeds(host, bump)[2] == seq![bump],
        forall|other: Pubkey| bet_pot_seeds(other, bump) == bet_pot_seeds(host, bump) ==> other == host,
{
    assert forall|other: Pubkey| bet_pot_seeds(other, bump) == bet_pot_seeds(host, bump) implies other
        == host by {
        assert(other@ == host@);
        assert(other.0 =~= host.0) by {
            assert forall|j: int| 0 <= j < 32 implies other.0[j] == host.0[j] by {
                assert(other@[j] == host@[j]);
            }
        }
    }
}

/// A payment into an account already holding lamports moves the amount; the
/// first payment into an empty account moves the basic rent besides.
pub proof fn law_rent(account_lamports: u64, amount: u64)
    ensures
        account_lamports > 0 ==> with_rent(account_lamports, amount) == amount,
        with_rent(0, amount) == amount + 900_000,
        with_rent(0, amount) == with_rent(1, amount) + BASIC_RENT,
{
}

/// Creating an event: the signer becomes the host; the name, description,
/// times and bet are the arguments'; nothing is declared, voted or paid;
/// and the new guest entries are the invited keys and the host, each once,
/// at most one more than were invited.
pub proof fn law_create_event_outcome(e: EventView, signer: Pubkey, data: CreateEventArg)
    ensures
        ({
            let n = create_event_spec(e, signer, data);
            &&& n.host == signer
            &&& n.event_name == data.event_name@
            &&& n.event_description == data.event_description@
            &&& n.event_start_time == data.event_start_time
            &&& n.event_end_time == data.event_end_time
            &&& n.bet_lamports == data.bet_lamports
            &&& n.attendees.len() == 0
            &&& n.signed == 0
            &&& !n.success
            &&& n.guests.subrange(0, e.guests.len() as int) == e.guests
            &&& n.guests.len() <= e.guests.len() + data.guests.len() + 1
            &&& forall|j: int|
                e.guests.len() <= j < n.guests.len() ==> {
                    &&& (#[trigger] n.guests[j]).is_betted == (data.bet_lamports == 0)
                    &&& !n.guests[j].agree_vote
                    &&& !n.guests[j].is_claimed
                    &&& (n.guests[j].key == signer || data.guests@.contains(n.guests[j].key))
                }
            &&& exists|j: int| e.guests.len() <= j < n.guests.len() && n.guests[j].key == signer
            &&& forall|k: int|
                0 <= k < data.guests.len() ==> exists|j: int|
                    e.guests.len() <= j < n.guests.len() && n.guests[j].key == #[trigger] data.guests@[k]
        }),
{
    let all = data.guests@.push(signer);
    lemma_dedup(all);
    crate::keys::lemma_dedup_len(all);
    let n = create_event_spec(e, signer, data);
    let d = invited(data.guests@, signer);
    let base = e.guests.len() as int;
    assert(n.guests.subrange(0, base) =~= e.guests);
    assert forall|j: int| base <= j < n.guests.len() implies {
        &&& (#[trigger] n.guests[j]).is_betted == (data.bet_lamports == 0)
        &&& !n.guests[j].agree_vote
        &&& !n.guests[j].is_claimed
        &&& (n.guests[j].key == signer || data.guests@.contains(n.guests[j].key))
    } by {
        let k = n.guests[j].key;
        assert(k == d[j - base]);
        assert(d.contains(k));
        assert(all.contains(k));
        let m = choose|m: int| 0 <= m < all.len() && all[m] == k;
        if m < data.guests.len() {
            assert(data.guests@[m] == k);
        }
    }
    assert(all[all.len() - 1] == signer);
    assert(all.contains(signer));
    assert(d.contains(signer));
    let js = choose|j: int| 0 <= j < d.len() && d[j] == signer;
    assert(n.guests[base + js].key == signer);
    assert forall|k: int| 0 <= k < data.guests.len() implies exists|j: int|
        base <= j < n.guests.len() && n.guests[j].key == #[trigger] data.guests@[k] by {
        assert(all[k] == data.guests@[k]);
        assert(all.contains(data.guests@[k]));
        assert(d.contains(data.guests@[k]));
        let j = choose|j: int| 0 <= j < d.len() && d[j] == data.guests@[k];
        assert(n.guests[base + j].key == data.guests@[k]);
    }
}

/// Staking: the signer's first entry, if it has one, gains exactly the
/// staked lamports and no other entry changes; otherwise one entry for the
/// signer with the staked lamports is added at the end.
pub proof fn law_add_stake_outcome(list: Seq<Staker>, signer: Pubkey, lamports: u64)
    requires
        forall|i: int|
            0 <= i < list.len() && list[i].staker == signer ==> list[i].lamports + lamports <= u64::MAX,
    ensures
        (forall|j: int| 0 <= j < list.len() ==> list[j].staker != signer) ==> add_stake_list(
            list,
            signer,
            lamports,
        ) == list.push(Staker { staker: signer, lamports }),
        forall|i: int|
            0 <= i < list.len() && list[i].staker == signer && (forall|j: int|
                0 <= j < i ==> list[j].staker != signer) ==> {
                let n = add_stake_list(list, signer, lamports);
                &&& n.len() == list.len()
                &&& n[i].staker == signer
                &&& n[i].lamports == list[i].lamports + lamports
                &&& forall|j: int| 0 <= j < list.len() && j != i ==> n[j] == list[j]
            },
{
    let keys = staker_keys(list);
    lemma_first_index(keys, signer);
    if forall|j: int| 0 <= j < list.len() ==> list[j].staker != signer {
        assert(!keys.contains(signer)) by {
            if keys.contains(signer) {
                let j = choose|j: int| 0 <= j < keys.len() && keys[j] == signer;
                assert(keys[j] == list[j].staker);
            }
        }
    }
    assert forall|i: int|
        0 <= i < list.len() && list[i].staker == signer && (forall|j: int|
            0 <= j < i ==> list[j].staker != signer) implies {
        let n = add_stake_list(list, signer, lamports);
        &&& n.len() == list.len()
        &&& n[i].staker == signer
        &&& n[i].lamports == list[i].lamports + lamports
        &&& forall|j: int| 0 <= j < list.len() && j != i ==> n[j] == list[j]
    } by {
        assert forall|j: int| 0 <= j < i implies keys[j] != signer by {
            assert(keys[j] == list[j].staker);
        }
        assert(keys[i] == list[i].staker);
        assert(is_first(keys, signer, i));
        lemma_first_unique(keys, signer, i);
    }
}

/// Which refusal each check gives, in the order the checks are made.
pub proof fn law_refusals(e: EventView, h: Pubkey, s: Pubkey, attendees: Seq<Pubkey>, now: i64)
    ensures
        // declaring
        s != e.host ==> declare_spec(e, s, attendees) == Err::<EventView, MyError>(MyError::AccountNotMatch),
        s == e.host && e.attendees.len() != 0 ==> declare_spec(e, s, attendees) == Err::<EventView, MyError>(
            MyError::AttendeesAlreadyDeclared,
        ),
        s == e.host && e.attendees.len() == 0 && (exists|j: int|
            0 <= j < attendees.len() && forall|m: int|
                0 <= m < e.guests.len() ==> !(e.guests[m].key == #[trigger] attendees[j]
                    && e.guests[m].is_betted)) ==> declare_spec(e, s, attendees) == Err::<EventView, MyError>(
            MyError::AccountNotMatch,
        ),
        // agreeing
        e.success ==> agree_spec(e, h, s, attendees, now) == Err::<EventView, MyError>(MyError::EventCompleted),
        !e.success && now > e.event_end_time ==> agree_spec(e, h, s, attendees, now) == Err::<
            EventView,
            MyError,
        >(MyError::EventCompleted),
        !e.success && now <= e.event_end_time && now < e.event_start_time ==> agree_spec(e, h, s, attendees, now)
            == Err::<EventView, MyError>(MyError::EventNotStarted),
        !e.success && e.event_start_time <= now <= e.event_end_time && h != e.host ==> agree_spec(
            e,
            h,
            s,
            attendees,
            now,
        ) == Err::<EventView, MyError>(MyError::AccountNotMatch),
        !e.success && e.event_start_time <= now <= e.event_end_time && h == e.host && e.attendees.len() == 0
            ==> agree_spec(e, h, s, attendees, now) == Err::<EventView, MyError>(MyError::AttendeesNotDeclared),
        !e.success && e.event_start_time <= now <= e.event_end_time && h == e.host && e.attendees.len() > 0
            && !e.attendees.contains(s) ==> agree_spec(e, h, s, attendees, now) == Err::<EventView, MyError>(
            MyError::NotAttendee,
        ),
        !e.success && e.event_start_time <= now <= e.event_end_time && h == e.host && e.attendees.contains(s)
            && attendees.to_set() != e.attendees.to_set() ==> agree_spec(e, h, s, attendees, now) == Err::<
            EventView,
            MyError,
        >(MyError::AttendeesNotMatch),
        // claiming
        !e.success ==> claim_spec(e, h, s) == Err::<EventView, MyError>(MyError::EventCompleted),
        e.success && h != e.host ==> claim_spec(e, h, s) == Err::<EventView, MyError>(MyError::AccountNotMatch),
        e.success && h == e.host && !e.attendees.contains(s) ==> claim_spec(e, h, s) == Err::<EventView, MyError>(
            MyError::AccountNotMatch,
        ),
        e.success && h == e.host && e.attendees.contains(s) && (forall|j: int|
            0 <= j < e.guests.len() ==> e.guests[j].key != s) ==> claim_spec(e, h, s) == Err::<EventView, MyError>(
            MyError::AttendeesNotMatch,
        ),
        forall|i: int|
            0 <= i < e.guests.len() && e.guests[i].key == s && (forall|j: int|
                0 <= j < i ==> e.guests[j].key != s) && e.guests[i].is_claimed && e.success && h == e.host
                && e.attendees.contains(s) ==> claim_spec(e, h, s) == Err::<EventView, MyError>(
                MyError::AttendeesAlreadyClaimed,
            ),
{
    lemma_guest_lookup(e, s);
    if s == e.host && e.attendees.len() == 0 && (exists|j: int|
        0 <= j < attendees.len() && forall|m: int|
            0 <= m < e.guests.len() ==> !(e.guests[m].key == #[trigger] attendees[j] && e.guests[m].is_betted)) {
        let j = choose|j: int|
            0 <= j < attendees.len() && forall|m: int|
                0 <= m < e.guests.len() ==> !(e.guests[m].key == #[trigger] attendees[j] && e.guests[m].is_betted);
        assert(!betted(e.guests, attendees[j]));
    }
    if !e.success && e.event_start_time <= now <= e.event_end_time && h == e.host && e.attendees.contains(s)
        && attendees.to_set() != e.attendees.to_set() {
        if covers(attendees, e.attendees) && covers(e.attendees, attendees) {
            assert(attendees.to_set() =~= e.attendees.to_set()) by {
                assert forall|a: Pubkey| attendees.contains(a) implies e.attendees.contains(a) by {
                    let j = choose|j: int| 0 <= j < attendees.len() && attendees[j] == a;
                    assert(e.attendees.contains(attendees[j]));
                }
                assert forall|a: Pubkey| e.attendees.contains(a) implies attendees.contains(a) by {
                    let j = choose|j: int| 0 <= j < e.attendees.len() && e.attendees[j] == a;
                    assert(attendees.contains(e.attendees[j]));
                }
            }
        }
    }
    assert forall|i: int|
        0 <= i < e.guests.len() && e.guests[i].key == s && (forall|j: int|
            0 <= j < i ==> e.guests[j].key != s) && e.guests[i].is_claimed && e.success && h == e.host
            && e.attendees.contains(s) implies claim_spec(e, h, s) == Err::<EventView, MyError>(
        MyError::AttendeesAlreadyClaimed,
    ) by {
        lemma_guest_at(e, s, i);
    }
}

/// Where each instruction's arithmetic stays in range, which is where it
/// does not abort: the payment with rent and the staker's new stake fit in
/// a `u64`; a bet with rent fits when the bet is taken; one more vote fits
/// in a `u8` when a vote is counted; the pot fits in a `u64` when a claim
/// counts it.
pub proof fn law_in_range(
    e: EventView,
    h: Pubkey,
    s: Pubkey,
    attendees: Seq<Pubkey>,
    now: i64,
    list: Seq<Staker>,
    account_lamports: u64,
    lamports: u64,
    pot_lamports: u64,
)
    ensures
        add_stake_fits(list, s, account_lamports, lamports) <==> {
            &&& lamports + (if account_lamports == 0 { 900_000int } else { 0 }) <= u64::MAX
            &&& forall|i: int|
                0 <= i < list.len() && list[i].staker == s && (forall|j: int|
                    0 <= j < i ==> list[j].staker != s) ==> list[i].lamports + lamports <= u64::MAX
        },
        bet_fits(e, s, pot_lamports) <==> (bet_spec(e, s) is Ok ==> e.bet_lamports + (if pot_lamports == 0 {
            900_000int
        } else {
            0
        }) <= u64::MAX),
        agree_fits(e, h, s, attendees, now) <==> (agree_spec(e, h, s, attendees, now) is Ok ==> e.signed < 255),
        declare_fits(e, s, attendees) <==> (declare_spec(e, s, attendees) is Ok && declare_spec(
            e,
            s,
            attendees,
        )->Ok_0.guests != e.guests ==> e.signed < 255),
        claim_fits(e, h, s) <==> (e.success && h == e.host && e.attendees.contains(s) ==> e.bet_lamports
            * betted_guests(e.guests).len() <= u64::MAX),
{
    let keys = staker_keys(list);
    lemma_first_index(keys, s);
    lemma_guest_lookup(e, s);
    lemma_betted_count_is_filter(e.guests);
    let i = first_index(keys, s);
    if i < list.len() {
        assert(keys[i] == list[i].staker);
        assert forall|j: int| 0 <= j < i implies list[j].staker != s by {
            assert(keys[j] == list[j].staker);
        }
        assert forall|k: int|
            0 <= k < list.len() && list[k].staker == s && (forall|j: int|
                0 <= j < k ==> list[j].staker != s) implies k == i by {
            if k < i {
                assert(keys[k] == list[k].staker);
            }
        }
    } else {
        assert forall|k: int| 0 <= k < list.len() implies list[k].staker != s by {
            assert(keys[k] == list[k].staker);
        }
    }
    let g = guest_index(e, s);
    if g < e.guests.len() && declare_spec(e, s, attendees) is Ok {
        let n = declare_spec(e, s, attendees)->Ok_0;
        if !e.guests[g].agree_vote {
            assert(n.guests[g].agree_vote);
            assert(n.guests != e.guests);
        }
    }
}

} // verus!
