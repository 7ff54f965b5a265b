use pot::accounts::{
    AddStakeArg, AgreeEventAttendeesArg, CreateEventArg, DeclareEventAttendeesArg, Event, EventGuest,
    EventItem, EventList, Staker, StakerList,
};
use pot::keys::Pubkey;
use pot::program::{
    add_stake_in_range, agree_event_attendees_in_range, bet_on_event_in_range,
    claim_event_reward_in_range, declare_event_attendees_in_range, AddStake, AgreeEventAttendees,
    BetOnEvent, ClaimEventReward, DeclareEventAttendees, SystemAccount,
};

fn key(n: u8) -> Pubkey {
    Pubkey([n; 32])
}

fn g(n: u8, is_betted: bool, agree_vote: bool) -> EventGuest {
    EventGuest { key: key(n), is_betted, agree_vote, is_claimed: false }
}

#[test]
fn add_stake_range() {
    let mut ctx = AddStake {
        stake_account: SystemAccount { key: key(9), lamports: 0 },
        stake_list: StakerList { list: vec![Staker { staker: key(1), lamports: u64::MAX - 10 }] },
        signer: key(2),
    };
    assert!(add_stake_in_range(&ctx, &AddStakeArg { target: key(8), lamports: u64::MAX - 900_000 }));
    assert!(!add_stake_in_range(&ctx, &AddStakeArg { target: key(8), lamports: u64::MAX - 899_999 }));
    ctx.stake_account.lamports = 1;
    assert!(add_stake_in_range(&ctx, &AddStakeArg { target: key(8), lamports: u64::MAX }));
    ctx.signer = key(1);
    assert!(add_stake_in_range(&ctx, &AddStakeArg { target: key(8), lamports: 10 }));
    assert!(!add_stake_in_range(&ctx, &AddStakeArg { target: key(8), lamports: 11 }));
}

#[test]
fn bet_range() {
    let mut ctx = BetOnEvent {
        host: key(1),
        event: Event { host: key(1), guests: vec![g(1, false, false), g(2, true, false)], bet_lamports: u64::MAX, ..Default::default() },
        bet_pot: SystemAccount { key: key(50), lamports: 0 },
        signer: key(1),
    };
    assert!(!bet_on_event_in_range(&ctx));
    ctx.signer = key(2); // already betted: refused before any sum
    assert!(bet_on_event_in_range(&ctx));
    ctx.signer = key(3); // not a guest
    assert!(bet_on_event_in_range(&ctx));
    ctx.signer = key(1);
    ctx.bet_pot.lamports = 1;
    assert!(bet_on_event_in_range(&ctx));
}

#[test]
fn vote_ranges() {
    let e = Event {
        host: key(1),
        guests: vec![g(1, true, false), g(2, true, false)],
        event_end_time: 10,
        signed: u8::MAX,
        ..Default::default()
    };
    let d = DeclareEventAttendees { event: e.clone(), signer: key(1) };
    let arg = DeclareEventAttendeesArg { event_name: String::new(), attendees: vec![key(2)] };
    assert!(!declare_event_attendees_in_range(&d, &arg));
    let refused = DeclareEventAttendeesArg { event_name: String::new(), attendees: vec![key(7)] };
    assert!(declare_event_attendees_in_range(&d, &refused));
    let mut declared = e.clone();
    declared.attendees = vec![key(2)];
    let a = AgreeEventAttendees { host: key(1), event: declared.clone(), signer: key(2) };
    let arg = AgreeEventAttendeesArg { event_name: String::new(), attendees: vec![key(2)] };
    assert!(!agree_event_attendees_in_range(&a, &arg, 5));
    assert!(agree_event_attendees_in_range(&a, &arg, 11));
    declared.signed = 0;
    let a = AgreeEventAttendees { host: key(1), event: declared, signer: key(2) };
    assert!(agree_event_attendees_in_range(&a, &arg, 5));
}

#[test]
fn claim_range() {
    let mut ctx = ClaimEventReward {
        host: key(1),
        event: Event {
            host: key(1),
            guests: vec![g(1, true, true), g(2, true, true)],
            bet_lamports: u64::MAX / 2 + 1,
            attendees: vec![key(1)],
            success: true,
            ..Default::default()
        },
        bet_pot: SystemAccount { key: key(50), lamports: 0 },
        bet_pot_bump: 1,
        signer: key(1),
    };
    assert!(!claim_event_reward_in_range(&ctx));
    ctx.event.bet_lamports = u64::MAX / 2;
    assert!(claim_event_reward_in_range(&ctx));
    ctx.event.bet_lamports = u64::MAX;
    ctx.signer = key(2); // not an attendee: refused before the pot is counted
    assert!(claim_event_reward_in_range(&ctx));
}

#[test]
fn size_ranges() {
    assert!(StakerList::default().account_size_in_range());
    let data = CreateEventArg {
        event_name: "a".to_string(),
        event_description: String::new(),
        event_start_time: 0,
        event_end_time: 0,
        bet_lamports: 0,
        guests: vec![],
    };
    assert!(Event::init_account_size_in_range(&data));
    assert!(EventItem::account_size_in_range(&"x".to_string()));
    let list = EventList { events: vec![EventItem { event_name: "a".to_string(), event_create_time: 0 }] };
    assert!(list.account_size_in_range(&"b".to_string()));
}
