use vstd::prelude::*;
use crate::accounts::{CreateEventArg, EventGuest, EventView, MyError, Staker, guest_keys};
use crate::keys::{Pubkey, dedup, first_index};
use crate::system::BASIC_RENT;

verus! {

/// The keys of the stakers, in order.
pub open spec fn staker_keys(list: Seq<Staker>) -> Seq<Pubkey> {
    list.map_values(|s: Staker| s.staker)
}

/// What a payment into an account moves: the amount, and the basic rent
/// besides when the account is still empty.
pub open spec fn with_rent(account_lamports: u64, amount: u64) -> int {
    amount + if account_lamports == 0 { BASIC_RENT as int } else { 0 }
}

/// The stakes after `signer` stakes `lamports` more: added to the signer's
/// entry, or a new entry at the end.
pub open spec fn add_stake_list(list: Seq<Staker>, signer: Pubkey, lamports: u64) -> Seq<Staker> {
    let i = first_index(staker_keys(list), signer);
    if i < list.len() {
        list.update(i, Staker { lamports: (list[i].lamports + lamports) as u64, ..list[i] })
    } else {
        list.push(Staker { staker: signer, lamports })
    }
}

/// A new guest: already counted as betted when the event takes no bet.
pub open spec fn new_guest(key: Pubkey, bet_lamports: u64) -> EventGuest {
    EventGuest { key, is_betted: bet_lamports == 0, agree_vote: false, is_claimed: false }
}

/// The guests of a new event: each invited key and the host, once each, in
/// the order in which each first appears.
pub open spec fn invited(guests: Seq<Pubkey>, host: Pubkey) -> Seq<Pubkey> {
    dedup(guests.push(host))
}

/// The event that `create_event` writes over `e`.
pub open spec fn create_event_spec(e: EventView, signer: Pubkey, data: CreateEventArg) -> EventView {
    EventView {
        host: signer,
        guests: e.guests + invited(data.guests@, signer).map_values(
            |k: Pubkey| new_guest(k, data.bet_lamports),
        ),
        event_name: data.event_name@,
        event_description: data.event_description@,
        event_start_time: data.event_start_time,
        event_end_time: data.event_end_time,
        bet_lamports: data.bet_lamports,
        attendees: Seq::empty(),
        signed: 0,
        success: false,
    }
}

/// Where `key` first stands among the guests (`guests.len()` if nowhere).
pub open spec fn guest_index(e: EventView, key: Pubkey) -> int {
    first_index(guest_keys(e.guests), key)
}

/// Whether `key` is a guest who has bet.
pub open spec fn betted(guests: Seq<EventGuest>, key: Pubkey) -> bool {
    exists|i: int| 0 <= i < guests.len() && guests[i].key == key && guests[i].is_betted
}

/// The outcome of `bet_on_event` on the event.
pub open spec fn bet_spec(e: EventView, signer: Pubkey) -> Result<EventView, MyError> {
    let i = guest_index(e, signer);
    if i >= e.guests.len() {
        Err(MyError::BetOnEventNotAGuest)
    } else if e.guests[i].is_betted {
        Err(MyError::BetOnEventAlreadyBetted)
    } else {
        Ok(EventView { guests: e.guests.update(i, EventGuest { is_betted: true, ..e.guests[i] }), ..e })
    }
}

/// Whether `attendees` name only guests who have bet.
pub open spec fn all_betted(guests: Seq<EventGuest>, attendees: Seq<Pubkey>) -> bool {
    forall|j: int| 0 <= j < attendees.len() ==> betted(guests, #[trigger] attendees[j])
}

/// Whether `key` is a guest who has voted for the declared attendance.
pub open spec fn agreed(guests: Seq<EventGuest>, key: Pubkey) -> bool {
    exists|i: int| 0 <= i < guests.len() && guests[i].key == key && guests[i].agree_vote
}

/// Whether every declared attendee has voted for the declared attendance,
/// and some attendee was declared: then the event has succeeded.
pub open spec fn all_agreed(guests: Seq<EventGuest>, attendees: Seq<Pubkey>) -> bool {
    &&& attendees.len() > 0
    &&& forall|j: int| 0 <= j < attendees.len() ==> agreed(guests, #[trigger] attendees[j])
}

/// The outcome of `declare_event_attendees` on the event: the host, when a
/// guest who has not voted yet, votes for the declaration, and the event
/// succeeds if that was the last vote it waited for.
pub open spec fn declare_spec(e: EventView, signer: Pubkey, attendees: Seq<Pubkey>) -> Result<EventView, MyError> {
    if signer != e.host {
        Err(MyError::AccountNotMatch)
    } else if e.attendees.len() != 0 {
        Err(MyError::AttendeesAlreadyDeclared)
    } else if !all_betted(e.guests, attendees) {
        Err(MyError::AccountNotMatch)
    } else {
        let declared = dedup(attendees);
        let i = guest_index(e, signer);
        if i < e.guests.len() && !e.guests[i].agree_vote {
            let guests = e.guests.update(i, EventGuest { agree_vote: true, ..e.guests[i] });
            Ok(EventView {
                guests,
                attendees: declared,
                signed: (e.signed + 1) as u8,
                success: all_agreed(guests, declared),
                ..e
            })
        } else {
            Ok(EventView { attendees: declared, success: all_agreed(e.guests, declared), ..e })
        }
    }
}

/// Whether every key of `declared` is in `attendees`.
pub open spec fn covers(attendees: Seq<Pubkey>, declared: Seq<Pubkey>) -> bool {
    forall|j: int| 0 <= j < declared.len() ==> attendees.contains(#[trigger] declared[j])
}

/// The outcome of `agree_event_attendees` on the event: a declared attendee
/// who names exactly the declared attendees votes, and the event succeeds
/// once every declared attendee has voted.
pub open spec fn agree_spec(
    e: EventView,
    host: Pubkey,
    signer: Pubkey,
    attendees: Seq<Pubkey>,
    now: i64,
) -> Result<EventView, MyError> {
    if e.success {
        Err(MyError::EventCompleted)
    } else if now > e.event_end_time {
        Err(MyError::EventCompleted)
    } else if now < e.event_start_time {
        Err(MyError::EventNotStarted)
    } else if host != e.host {
        Err(MyError::AccountNotMatch)
    } else if e.attendees.len() == 0 {
        Err(MyError::AttendeesNotDeclared)
    } else if !e.attendees.contains(signer) {
        Err(MyError::NotAttendee)
    } else if !(covers(attendees, e.attendees) && covers(e.attendees, attendees)) {
        Err(MyError::AttendeesNotMatch)
    } else {
        let i = guest_index(e, signer);
        if i >= e.guests.len() {
            Err(MyError::AttendeesNotMatch)
        } else if e.guests[i].agree_vote {
            Err(MyError::AttendeesAlreadyVoted)
        } else {
            let guests = e.guests.update(i, EventGuest { agree_vote: true, ..e.guests[i] });
            Ok(EventView {
                guests,
                signed: (e.signed + 1) as u8,
                success: all_agreed(guests, e.attendees),
                ..e
            })
        }
    }
}

/// How many guests have bet.
pub open spec fn betted_count(guests: Seq<EventGuest>) -> nat
    decreases guests.len(),
{
    if guests.len() == 0 {
        0
    } else {
        betted_count(guests.drop_last()) + if guests.last().is_betted { 1nat } else { 0nat }
    }
}

/// The lamports in the pot: every guest who has bet paid the bet.
pub open spec fn pot_total(e: EventView) -> int {
    e.bet_lamports * betted_count(e.guests)
}

/// Each attendee's share of the pot, rounded down.
pub open spec fn reward(e: EventView) -> int {
    pot_total(e) / (e.attendees.len() as int)
}

/// Whether a claim gets as far as counting the pot.
pub open spec fn claim_counts_pot(e: EventView, host: Pubkey, signer: Pubkey) -> bool {
    e.success && host == e.host && e.attendees.contains(signer)
}

/// The outcome of `claim_event_reward` on the event.
pub open spec fn claim_spec(e: EventView, host: Pubkey, signer: Pubkey) -> Result<EventView, MyError> {
    if !e.success {
        Err(MyError::EventCompleted)
    } else if host != e.host {
        Err(MyError::AccountNotMatch)
    } else if !e.attendees.contains(signer) {
        Err(MyError::AccountNotMatch)
    } else {
        let i = guest_index(e, signer);
        if i >= e.guests.len() {
            Err(MyError::AttendeesNotMatch)
        } else if e.guests[i].is_claimed {
            Err(MyError::AttendeesAlreadyClaimed)
        } else {
            Ok(EventView { guests: e.guests.update(i, EventGuest { is_claimed: true, ..e.guests[i] }), ..e })
        }
    }
}

/// The seeds of the host's bet pot address: `b"bet_pot"`, the host, the bump.
pub open spec fn bet_pot_seeds(host: Pubkey, bump: u8) -> Seq<Seq<u8>> {
    seq![seq![98u8, 101u8, 116u8, 95u8, 112u8, 111u8, 116u8], host@, seq![bump]]
}


// ---------------------------------------------------------------------------
// Where the arithmetic of an instruction stays in range (out of range, the
// program aborts).
// ---------------------------------------------------------------------------

/// `add_stake`'s sums fit: the payment with rent, and the signer's new stake.
pub open spec fn add_stake_fits(list: Seq<Staker>, signer: Pubkey, account_lamports: u64, lamports: u64) -> bool {
    &&& with_rent(account_lamports, lamports) <= u64::MAX
    &&& ({
        let i = first_index(staker_keys(list), signer);
        i < list.len() ==> list[i].lamports + lamports <= u64::MAX
    })
}

/// `bet_on_event`'s payment with rent fits, when the bet is taken.
pub open spec fn bet_fits(e: EventView, signer: Pubkey, pot_lamports: u64) -> bool {
    bet_spec(e, signer) is Ok ==> with_rent(pot_lamports, e.bet_lamports) <= u64::MAX
}

/// The host's vote can be counted, when `declare_event_attendees` counts it.
pub open spec fn declare_fits(e: EventView, signer: Pubkey, attendees: Seq<Pubkey>) -> bool {
    declare_spec(e, signer, attendees) is Ok && guest_index(e, signer) < e.guests.len()
        && !e.guests[guest_index(e, signer)].agree_vote ==> e.signed < u8::MAX
}

/// The vote can be counted, when `agree_event_attendees` takes it.
pub open spec fn agree_fits(e: EventView, host: Pubkey, signer: Pubkey, attendees: Seq<Pubkey>, now: i64) -> bool {
    agree_spec(e, host, signer, attendees, now) is Ok ==> e.signed < u8::MAX
}

/// The pot can be counted, when `claim_event_reward` counts it.
pub open spec fn claim_fits(e: EventView, host: Pubkey, signer: Pubkey) -> bool {
    claim_counts_pot(e, host, signer) ==> pot_total(e) <= u64::MAX
}

} // verus!
