use pot::accounts::{
    AddStakeArg, AgreeEventAttendeesArg, BetOnEventArg, ClaimEventRewardArg, CreateEventArg,
    DeclareEventAttendeesArg, Event, MyError, Staker, StakerList,
};
use pot::keys::Pubkey;
use pot::program::{
    add_stake, agree_event_attendees, bet_on_event, claim_event_reward, create_event,
    declare_event_attendees, AddStake, AgreeEventAttendees, BetOnEvent, ClaimEventReward,
    CreateEvent, DeclareEventAttendees, SystemAccount,
};

fn key(n: u8) -> Pubkey {
    Pubkey([n; 32])
}

fn votes(e: &Event) -> usize {
    e.guests.iter().filter(|g| g.agree_vote).count()
}

fn amount(data: &[u8]) -> u64 {
    u64::from_le_bytes(data[4..12].try_into().unwrap())
}

fn play(bet: u64) -> Event {
    let mut c = CreateEvent { signer: key(1), ..Default::default() };
    create_event(
        &mut c,
        CreateEventArg {
            event_name: "e".to_string(),
            event_description: String::new(),
            event_start_time: 0,
            event_end_time: 10,
            bet_lamports: bet,
            guests: vec![key(2), key(3), key(4)],
        },
        0,
    );
    assert_eq!(c.event.signed as usize, votes(&c.event));
    let mut e = c.event;
    for n in [1u8, 2, 3, 4] {
        let mut b = BetOnEvent {
            host: key(1),
            event: e,
            bet_pot: SystemAccount { key: key(50), lamports: 1 },
            signer: key(n),
        };
        if bet > 0 {
            bet_on_event(&mut b, BetOnEventArg { event_name: "e".to_string() }).unwrap();
        } else {
            assert_eq!(
                bet_on_event(&mut b, BetOnEventArg { event_name: "e".to_string() }),
                Err(MyError::BetOnEventAlreadyBetted)
            );
        }
        e = b.event;
        assert_eq!(e.signed as usize, votes(&e));
    }
    let att = vec![key(1), key(2), key(3)];
    let mut d = DeclareEventAttendees { event: e, signer: key(1) };
    declare_event_attendees(
        &mut d,
        DeclareEventAttendeesArg { event_name: "e".to_string(), attendees: att.clone() },
    )
    .unwrap();
    let mut e = d.event;
    assert_eq!(e.signed as usize, votes(&e));
    for n in [2u8, 3] {
        let mut a = AgreeEventAttendees { host: key(1), event: e, signer: key(n) };
        agree_event_attendees(
            &mut a,
            AgreeEventAttendeesArg { event_name: "e".to_string(), attendees: att.clone() },
            5,
        )
        .unwrap();
        e = a.event;
        assert_eq!(e.signed as usize, votes(&e));
    }
    assert!(e.success);
    e
}

#[test]
fn shares_of_all_attendees_stay_within_the_pot() {
    let mut e = play(1001);
    let pot = 1001 * 4;
    let mut paid = 0u64;
    for n in [1u8, 2, 3] {
        let mut c = ClaimEventReward {
            host: key(1),
            event: e,
            bet_pot: SystemAccount { key: key(50), lamports: pot },
            bet_pot_bump: 255,
            signer: key(n),
        };
        let s = claim_event_reward(&mut c, ClaimEventRewardArg { event_name: "e".to_string() })
            .unwrap();
        paid += amount(&s.instruction.data);
        let again = claim_event_reward(&mut c, ClaimEventRewardArg { event_name: "e".to_string() });
        assert_eq!(again, Err(MyError::AttendeesAlreadyClaimed));
        e = c.event;
        assert_eq!(e.signed as usize, votes(&e));
    }
    assert_eq!(paid, 3 * (pot / 3));
    assert!(paid <= pot);
}

#[test]
fn event_without_bet_pays_nothing() {
    let e = play(0);
    let mut c = ClaimEventReward {
        host: key(1),
        event: e,
        bet_pot: SystemAccount { key: key(50), lamports: 0 },
        bet_pot_bump: 255,
        signer: key(3),
    };
    let s = claim_event_reward(&mut c, ClaimEventRewardArg { event_name: "e".to_string() }).unwrap();
    assert_eq!(amount(&s.instruction.data), 0);
}

#[test]
fn vote_again_is_refused() {
    let e = play(5);
    let mut a = AgreeEventAttendees { host: key(1), event: e, signer: key(2) };
    let r = agree_event_attendees(
        &mut a,
        AgreeEventAttendeesArg { event_name: "e".to_string(), attendees: vec![key(1), key(2), key(3)] },
        5,
    );
    // the last vote made the event succeed
    assert_eq!(r, Err(MyError::EventCompleted));
}

#[test]
fn repeated_empty_declaration_counts_the_host_once() {
    let mut c = CreateEvent { signer: key(1), ..Default::default() };
    create_event(
        &mut c,
        CreateEventArg {
            event_name: "e".to_string(),
            event_description: String::new(),
            event_start_time: 0,
            event_end_time: 10,
            bet_lamports: 0,
            guests: vec![],
        },
        0,
    );
    let mut d = DeclareEventAttendees { event: c.event, signer: key(1) };
    for _ in 0..2 {
        declare_event_attendees(
            &mut d,
            DeclareEventAttendeesArg { event_name: "e".to_string(), attendees: vec![] },
        )
        .unwrap();
    }
    assert_eq!(d.event.signed, 1);
    assert_eq!(votes(&d.event), 1);
    assert!(!d.event.success);
}

#[test]
fn stakes_add_up() {
    let mut ctx = AddStake {
        stake_account: SystemAccount { key: key(9), lamports: 0 },
        stake_list: StakerList::default(),
        signer: key(1),
    };
    let mut total = 0u64;
    for (n, l) in [(1u8, 10u64), (2, 20), (1, 30), (3, 40), (2, 50)] {
        ctx.signer = key(n);
        add_stake(&mut ctx, AddStakeArg { target: key(8), lamports: l });
        ctx.stake_account.lamports += 1;
        total += l;
        let sum: u64 = ctx.stake_list.list.iter().map(|s| s.lamports).sum();
        assert_eq!(sum, total);
    }
    assert_eq!(
        ctx.stake_list.list,
        vec![
            Staker { staker: key(1), lamports: 40 },
            Staker { staker: key(2), lamports: 70 },
            Staker { staker: key(3), lamports: 40 },
        ]
    );
}

#[test]
fn two_stakes_are_one_stake_of_the_sum() {
    let start = AddStake {
        stake_account: SystemAccount { key: key(9), lamports: 0 },
        stake_list: StakerList { list: vec![Staker { staker: key(2), lamports: 3 }] },
        signer: key(1),
    };
    let mut twice = start.clone();
    let a = add_stake(&mut twice, AddStakeArg { target: key(8), lamports: 10 });
    twice.stake_account.lamports += amount(&a.data);
    let b = add_stake(&mut twice, AddStakeArg { target: key(8), lamports: 20 });
    let mut once = start.clone();
    let c = add_stake(&mut once, AddStakeArg { target: key(8), lamports: 30 });
    assert_eq!(twice.stake_list, once.stake_list);
    assert_eq!(amount(&a.data) + amount(&b.data), amount(&c.data));
}

#[test]
fn claim_again_after_others_is_refused() {
    let mut e = play(100);
    let claim_by = |e: Event, n: u8| {
        let mut c = ClaimEventReward {
            host: key(1),
            event: e,
            bet_pot: SystemAccount { key: key(50), lamports: 400 },
            bet_pot_bump: 255,
            signer: key(n),
        };
        let r = claim_event_reward(&mut c, ClaimEventRewardArg { event_name: "e".to_string() });
        (r.map(|_| ()), c.event)
    };
    let (r, next) = claim_by(e, 2);
    assert_eq!(r, Ok(()));
    e = next;
    let (r, next) = claim_by(e, 3);
    assert_eq!(r, Ok(()));
    e = next;
    let (r, next) = claim_by(e.clone(), 2);
    assert_eq!(r, Err(MyError::AttendeesAlreadyClaimed));
    assert_eq!(next, e);
}
