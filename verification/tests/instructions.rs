use pot::accounts::{
    AddStakeArg, AgreeEventAttendeesArg, BetOnEventArg, ClaimEventRewardArg, CreateAccountArg,
    CreateEventArg, DeclareEventAttendeesArg, Event, EventGuest, EventItem, EventList, MyError,
    Profile, Staker, StakerList,
};
use pot::keys::Pubkey;
use pot::program::{
    add_stake, agree_event_attendees, bet_on_event, claim_event_reward, create_account,
    create_event, declare_event_attendees, AddStake, AgreeEventAttendees, BetOnEvent,
    ClaimEventReward, CreateAccount, CreateEvent, DeclareEventAttendees, SystemAccount,
};
use pot::system::{AccountMeta, BASIC_RENT};

fn key(n: u8) -> Pubkey {
    Pubkey([n; 32])
}

fn guest(n: u8, is_betted: bool, agree_vote: bool, is_claimed: bool) -> EventGuest {
    EventGuest { key: key(n), is_betted, agree_vote, is_claimed }
}

fn transfer_data(lamports: u64) -> Vec<u8> {
    let mut d = vec![2u8, 0, 0, 0];
    d.extend_from_slice(&lamports.to_le_bytes());
    d
}

fn event_args(bet: u64, guests: Vec<Pubkey>) -> CreateEventArg {
    CreateEventArg {
        event_name: "party".to_string(),
        event_description: "at the lake".to_string(),
        event_start_time: 100,
        event_end_time: 200,
        bet_lamports: bet,
        guests,
    }
}

fn new_event(host: u8, bet: u64, guests: Vec<Pubkey>) -> Event {
    let mut ctx = CreateEvent { signer: key(host), ..Default::default() };
    create_event(&mut ctx, event_args(bet, guests), 50);
    ctx.event
}

fn guest_of(e: &Event, n: u8) -> EventGuest {
    *e.guests.iter().find(|g| g.key == key(n)).unwrap()
}

#[test]
fn create_account_fills_profile() {
    let mut ctx = CreateAccount::default();
    create_account(&mut ctx, CreateAccountArg { name: "alice".to_string() }, 1234);
    assert_eq!(
        ctx.profile,
        Profile { name: "alice".to_string(), time_created: 1234, time_updated: 1234 }
    );
}

#[test]
fn basic_rent_is_nine_ten_thousandths_of_a_sol() {
    assert_eq!(BASIC_RENT, 900_000);
    assert_eq!(
        BASIC_RENT,
        anchor_lang::solana_program::native_token::LAMPORTS_PER_SOL / 10000 * 9
    );
}

#[test]
fn add_stake_into_empty_account_pays_rent_and_appends() {
    let mut ctx = AddStake {
        stake_account: SystemAccount { key: key(9), lamports: 0 },
        stake_list: StakerList::default(),
        signer: key(1),
    };
    let ix = add_stake(&mut ctx, AddStakeArg { target: key(8), lamports: 500 });
    assert_eq!(ix.program_id, Pubkey([0; 32]));
    assert_eq!(
        ix.accounts,
        vec![
            AccountMeta { pubkey: key(1), is_signer: true, is_writable: true },
            AccountMeta { pubkey: key(9), is_signer: false, is_writable: true },
        ]
    );
    assert_eq!(ix.data, transfer_data(500 + 900_000));
    assert_eq!(ctx.stake_list.list, vec![Staker { staker: key(1), lamports: 500 }]);
}

#[test]
fn add_stake_matches_the_system_program_transfer() {
    let mut ctx = AddStake {
        stake_account: SystemAccount { key: key(9), lamports: 7 },
        stake_list: StakerList::default(),
        signer: key(1),
    };
    let ix = add_stake(&mut ctx, AddStakeArg { target: key(8), lamports: 42 });
    let real = anchor_lang::solana_program::system_instruction::transfer(
        &anchor_lang::prelude::Pubkey::new_from_array([1; 32]),
        &anchor_lang::prelude::Pubkey::new_from_array([9; 32]),
        42,
    );
    assert_eq!(ix.program_id.0, real.program_id.to_bytes());
    assert_eq!(ix.data, real.data);
    assert_eq!(ix.data, transfer_data(42));
    assert_eq!(ix.accounts.len(), 2);
    assert_eq!(ix.accounts[0].pubkey.0, real.accounts[0].pubkey.to_bytes());
    assert!(ix.accounts[0].is_signer && ix.accounts[0].is_writable);
    assert!(!ix.accounts[1].is_signer && ix.accounts[1].is_writable);
}

#[test]
fn add_stake_again_adds_to_the_same_entry() {
    let mut ctx = AddStake {
        stake_account: SystemAccount { key: key(9), lamports: 1_000 },
        stake_list: StakerList {
            list: vec![
                Staker { staker: key(2), lamports: 10 },
                Staker { staker: key(1), lamports: 20 },
            ],
        },
        signer: key(1),
    };
    let ix = add_stake(&mut ctx, AddStakeArg { target: key(8), lamports: 5 });
    assert_eq!(ix.data, transfer_data(5));
    assert_eq!(
        ctx.stake_list.list,
        vec![Staker { staker: key(2), lamports: 10 }, Staker { staker: key(1), lamports: 25 }]
    );
}

#[test]
fn create_event_dedups_guests_and_adds_host() {
    let mut ctx = CreateEvent { signer: key(1), ..Default::default() };
    create_event(&mut ctx, event_args(300, vec![key(2), key(3), key(2), key(1)]), 77);
    let e = &ctx.event;
    let mut keys: Vec<u8> = e.guests.iter().map(|g| g.key.0[0]).collect();
    keys.sort();
    assert_eq!(keys, vec![1, 2, 3]);
    assert!(e.guests.iter().all(|g| !g.is_betted && !g.agree_vote && !g.is_claimed));
    assert_eq!(e.host, key(1));
    assert_eq!(e.event_name, "party");
    assert_eq!(e.event_description, "at the lake");
    assert_eq!((e.event_start_time, e.event_end_time), (100, 200));
    assert_eq!(e.bet_lamports, 300);
    assert!(e.attendees.is_empty());
    assert_eq!(e.signed, 0);
    assert!(!e.success);
    assert_eq!(
        ctx.event_list.events,
        vec![EventItem { event_name: "party".to_string(), event_create_time: 77 }]
    );
}

#[test]
fn create_event_without_bet_counts_everyone_as_betted() {
    let e = new_event(1, 0, vec![key(2)]);
    assert_eq!(e.guests.len(), 2);
    assert!(e.guests.iter().all(|g| g.is_betted));
    assert_eq!(e.bet_lamports, 0);
}

#[test]
fn create_event_appends_to_event_list() {
    let mut ctx = CreateEvent {
        signer: key(1),
        event_list: EventList {
            events: vec![EventItem { event_name: "old".to_string(), event_create_time: 1 }],
        },
        ..Default::default()
    };
    create_event(&mut ctx, event_args(0, vec![]), 9);
    assert_eq!(ctx.event_list.events.len(), 2);
    assert_eq!(ctx.event_list.events[1].event_name, "party");
    assert_eq!(ctx.event_list.events[1].event_create_time, 9);
}

fn bet_ctx(e: Event, signer: u8, pot_lamports: u64) -> BetOnEvent {
    BetOnEvent {
        host: key(1),
        event: e,
        bet_pot: SystemAccount { key: key(50), lamports: pot_lamports },
        signer: key(signer),
    }
}

fn bet_arg() -> BetOnEventArg {
    BetOnEventArg { event_name: "party".to_string() }
}

#[test]
fn bet_into_empty_pot_pays_rent() {
    let mut ctx = bet_ctx(new_event(1, 300, vec![key(2)]), 2, 0);
    let ix = bet_on_event(&mut ctx, bet_arg()).unwrap();
    assert_eq!(ix.data, transfer_data(300 + 900_000));
    assert_eq!(ix.accounts[0].pubkey, key(2));
    assert_eq!(ix.accounts[1].pubkey, key(50));
    assert!(guest_of(&ctx.event, 2).is_betted);
    assert!(!guest_of(&ctx.event, 1).is_betted);
}

#[test]
fn bet_into_funded_pot_pays_only_the_bet() {
    let mut ctx = bet_ctx(new_event(1, 300, vec![key(2)]), 2, 5);
    let ix = bet_on_event(&mut ctx, bet_arg()).unwrap();
    assert_eq!(ix.data, transfer_data(300));
}

#[test]
fn bet_twice_is_refused() {
    let mut ctx = bet_ctx(new_event(1, 300, vec![key(2)]), 2, 5);
    bet_on_event(&mut ctx, bet_arg()).unwrap();
    let before = ctx.clone();
    assert_eq!(bet_on_event(&mut ctx, bet_arg()), Err(MyError::BetOnEventAlreadyBetted));
    assert_eq!(ctx, before);
}

#[test]
fn bet_by_stranger_is_refused() {
    let mut ctx = bet_ctx(new_event(1, 300, vec![key(2)]), 7, 5);
    let before = ctx.clone();
    assert_eq!(bet_on_event(&mut ctx, bet_arg()), Err(MyError::BetOnEventNotAGuest));
    assert_eq!(ctx, before);
}

/// An event hosted by 1 with guests 2 and 3 (and 4, who does not bet), bet 300.
fn betted_event() -> Event {
    let mut e = new_event(1, 300, vec![key(2), key(3), key(4)]);
    for n in [1u8, 2, 3] {
        let mut ctx = bet_ctx(e, n, 5);
        bet_on_event(&mut ctx, bet_arg()).unwrap();
        e = ctx.event;
    }
    e
}

fn declare(e: Event, signer: u8, attendees: Vec<Pubkey>) -> (Result<(), MyError>, Event) {
    let mut ctx = DeclareEventAttendees { event: e, signer: key(signer) };
    let r = declare_event_attendees(
        &mut ctx,
        DeclareEventAttendeesArg { event_name: "party".to_string(), attendees },
    );
    (r, ctx.event)
}

#[test]
fn declare_sets_attendees_and_host_votes() {
    let (r, e) = declare(betted_event(), 1, vec![key(1), key(2), key(2)]);
    assert_eq!(r, Ok(()));
    let mut att: Vec<u8> = e.attendees.iter().map(|k| k.0[0]).collect();
    att.sort();
    assert_eq!(att, vec![1, 2]);
    assert!(guest_of(&e, 1).agree_vote);
    assert_eq!(e.signed, 1);
}

#[test]
fn declare_by_other_than_host_is_refused() {
    let e0 = betted_event();
    let (r, e) = declare(e0.clone(), 2, vec![key(2)]);
    assert_eq!(r, Err(MyError::AccountNotMatch));
    assert_eq!(e, e0);
}

#[test]
fn declare_twice_is_refused() {
    let (_, e1) = declare(betted_event(), 1, vec![key(1), key(2)]);
    let (r, e2) = declare(e1.clone(), 1, vec![key(3)]);
    assert_eq!(r, Err(MyError::AttendeesAlreadyDeclared));
    assert_eq!(e2, e1);
}

#[test]
fn declare_of_unbetted_guest_is_refused() {
    let e0 = betted_event();
    let (r, e) = declare(e0.clone(), 1, vec![key(2), key(4)]);
    assert_eq!(r, Err(MyError::AccountNotMatch));
    assert_eq!(e, e0);
}

fn agree(e: Event, host: u8, signer: u8, attendees: Vec<Pubkey>, now: i64) -> (Result<(), MyError>, Event) {
    let mut ctx = AgreeEventAttendees { host: key(host), event: e, signer: key(signer) };
    let r = agree_event_attendees(
        &mut ctx,
        AgreeEventAttendeesArg { event_name: "party".to_string(), attendees },
        now,
    );
    (r, ctx.event)
}

fn declared_event() -> Event {
    declare(betted_event(), 1, vec![key(1), key(2), key(3)]).1
}

#[test]
fn agree_until_everyone_voted_makes_success() {
    let att = vec![key(3), key(2), key(1)];
    let (r, e) = agree(declared_event(), 1, 2, att.clone(), 150);
    assert_eq!(r, Ok(()));
    assert_eq!(e.signed, 2);
    assert!(!e.success);
    let (r, e) = agree(e, 1, 3, att, 150);
    assert_eq!(r, Ok(()));
    assert_eq!(e.signed, 3);
    assert!(e.success);
}

#[test]
fn agree_errors_come_in_order() {
    let att = vec![key(1), key(2), key(3)];
    let e = declared_event();
    assert_eq!(agree(e.clone(), 1, 2, att.clone(), 201).0, Err(MyError::EventCompleted));
    assert_eq!(agree(e.clone(), 1, 2, att.clone(), 99).0, Err(MyError::EventNotStarted));
    assert_eq!(agree(e.clone(), 5, 2, att.clone(), 150).0, Err(MyError::AccountNotMatch));
    assert_eq!(
        agree(betted_event(), 1, 2, att.clone(), 150).0,
        Err(MyError::AttendeesNotDeclared)
    );
    assert_eq!(agree(e.clone(), 1, 4, att.clone(), 150).0, Err(MyError::NotAttendee));
    assert_eq!(
        agree(e.clone(), 1, 2, vec![key(1), key(2)], 150).0,
        Err(MyError::AttendeesNotMatch)
    );
    assert_eq!(
        agree(e.clone(), 1, 9, vec![key(1), key(2), key(3), key(9)], 150).0,
        Err(MyError::NotAttendee)
    );
    assert_eq!(
        agree(e.clone(), 1, 2, vec![key(1), key(2), key(3), key(4)], 150).0,
        Err(MyError::AttendeesNotMatch)
    );
    assert_eq!(agree(e.clone(), 1, 1, att.clone(), 150).0, Err(MyError::AttendeesAlreadyVoted));
    let mut done = e.clone();
    done.success = true;
    assert_eq!(agree(done, 1, 2, att, 150).0, Err(MyError::EventCompleted));
}

#[test]
fn agree_needs_a_declared_attendee() {
    // 3 has bet but was not declared
    let e = declare(betted_event(), 1, vec![key(1), key(2)]).1;
    let (r, after) = agree(e.clone(), 1, 3, vec![key(3)], 150);
    assert_eq!(r, Err(MyError::NotAttendee));
    assert_eq!(after, e);
    let (r, _) = agree(e, 1, 3, vec![key(1), key(2), key(3)], 150);
    assert_eq!(r, Err(MyError::NotAttendee));
}

#[test]
fn agree_of_the_only_attendee_after_the_host_voted_succeeds() {
    let mut e = Event {
        host: key(1),
        guests: vec![guest(1, true, true, false), guest(2, true, false, false)],
        event_start_time: 0,
        event_end_time: 10,
        attendees: vec![key(2)],
        signed: 1,
        ..Default::default()
    };
    let (r, after) = agree(e.clone(), 1, 2, vec![key(2)], 5);
    assert_eq!(r, Ok(()));
    assert!(after.guests[1].agree_vote);
    assert_eq!(after.signed, 2);
    assert!(after.success);
    // with two declared attendees, one vote is not enough
    e.attendees = vec![key(2), key(3)];
    e.guests.push(guest(3, true, false, false));
    let (r, after) = agree(e, 1, 2, vec![key(3), key(2)], 5);
    assert_eq!(r, Ok(()));
    assert!(!after.success);
}

#[test]
fn declare_of_the_host_alone_succeeds_at_once() {
    let (r, e) = declare(betted_event(), 1, vec![key(1)]);
    assert_eq!(r, Ok(()));
    assert!(e.success);
    assert_eq!(e.signed, 1);
    let (r, e) = declare(betted_event(), 1, vec![key(2)]);
    assert_eq!(r, Ok(()));
    assert!(!e.success);
}

#[test]
fn agree_at_the_edges_of_the_event_is_taken() {
    let att = vec![key(1), key(2), key(3)];
    assert_eq!(agree(declared_event(), 1, 2, att.clone(), 100).0, Ok(()));
    assert_eq!(agree(declared_event(), 1, 2, att, 200).0, Ok(()));
}

fn successful_event() -> Event {
    let att = vec![key(1), key(2), key(3)];
    let e = agree(declared_event(), 1, 2, att.clone(), 150).1;
    agree(e, 1, 3, att, 150).1
}

fn claim(e: Event, host: u8, signer: u8) -> (Result<pot::program::SignedInstruction, MyError>, Event) {
    let mut ctx = ClaimEventReward {
        host: key(host),
        event: e,
        bet_pot: SystemAccount { key: key(50), lamports: 900_900 },
        bet_pot_bump: 254,
        signer: key(signer),
    };
    let r = claim_event_reward(&mut ctx, ClaimEventRewardArg { event_name: "party".to_string() });
    (r, ctx.event)
}

#[test]
fn claim_pays_an_equal_share() {
    let (r, e) = claim(successful_event(), 1, 2);
    let s = r.unwrap();
    // three guests bet 300 each, three attendees
    assert_eq!(s.instruction.data, transfer_data(300));
    assert_eq!(s.instruction.accounts[0].pubkey, key(50));
    assert_eq!(s.instruction.accounts[1].pubkey, key(2));
    assert_eq!(s.signer_seeds, vec![b"bet_pot".to_vec(), vec![1u8; 32], vec![254u8]]);
    assert!(guest_of(&e, 2).is_claimed);
    assert!(!guest_of(&e, 3).is_claimed);
}

#[test]
fn claim_share_rounds_down() {
    // three guests bet 101 each, two attendees share 303
    let mut e = successful_event();
    e.bet_lamports = 101;
    e.attendees.truncate(2);
    let (r, _) = claim(e, 1, 1);
    assert_eq!(r.unwrap().instruction.data, transfer_data(151));
}

#[test]
fn claim_twice_is_refused() {
    let (_, e1) = claim(successful_event(), 1, 2);
    let (r, e2) = claim(e1.clone(), 1, 2);
    assert_eq!(r, Err(MyError::AttendeesAlreadyClaimed));
    assert_eq!(e2, e1);
}

#[test]
fn claim_errors() {
    assert_eq!(claim(declared_event(), 1, 2).0, Err(MyError::EventCompleted));
    assert_eq!(claim(successful_event(), 5, 2).0, Err(MyError::AccountNotMatch));
    assert_eq!(claim(successful_event(), 1, 4).0, Err(MyError::AccountNotMatch));
    let mut e = successful_event();
    e.attendees.push(key(9));
    assert_eq!(claim(e, 1, 9).0, Err(MyError::AttendeesNotMatch));
}

#[test]
fn error_messages() {
    assert_eq!(MyError::BetOnEventAlreadyBetted.message(), "BetOnEvent: Already Betted!");
    assert_eq!(MyError::BetOnEventNotAGuest.message(), "BetOnEvent: Not a guest!");
    assert_eq!(MyError::AccountNotMatch.message(), "Account doesn't match!");
    assert_eq!(MyError::AttendeesAlreadyDeclared.message(), "Attendees has already declared!");
    assert_eq!(MyError::AttendeesNotDeclared.message(), "Attendees has not declared!");
    assert_eq!(MyError::AttendeesNotMatch.message(), "Attendees do not match!");
    assert_eq!(MyError::NotAttendee.message(), "Signer is not an attendee!");
    assert_eq!(MyError::AttendeesAlreadyVoted.message(), "Attendees has already voted!");
    assert_eq!(MyError::AttendeesAlreadyClaimed.message(), "Attendees has already claimed!");
    assert_eq!(MyError::EventCompleted.message(), "Event has been completed!");
    assert_eq!(MyError::EventNotStarted.message(), "Event has not started!");
}
