use pot::accounts::{CreateEventArg, Event, EventGuest, EventItem, EventList, Profile, Staker, StakerList};
use pot::keys::Pubkey;

#[test]
fn account_types_have_the_sizes_of_the_program_accounts() {
    assert_eq!(std::mem::size_of::<Pubkey>(), std::mem::size_of::<anchor_lang::prelude::Pubkey>());
    assert_eq!(std::mem::size_of::<Pubkey>(), 32);
    assert_eq!(std::mem::size_of::<Profile>(), 40);
    assert_eq!(std::mem::size_of::<Staker>(), 40);
    assert_eq!(std::mem::size_of::<StakerList>(), 24);
    assert_eq!(std::mem::size_of::<EventGuest>(), 35);
    assert_eq!(std::mem::size_of::<Event>(), 160);
    assert_eq!(std::mem::size_of::<EventItem>(), 32);
    assert_eq!(std::mem::size_of::<EventList>(), 24);
    assert_eq!(pot::sizes::PUBKEY_SIZE, std::mem::size_of::<Pubkey>());
    assert_eq!(pot::sizes::STAKER_SIZE, std::mem::size_of::<Staker>());
    assert_eq!(pot::sizes::STAKER_LIST_SIZE, std::mem::size_of::<StakerList>());
    assert_eq!(pot::sizes::EVENT_GUEST_SIZE, std::mem::size_of::<EventGuest>());
    assert_eq!(pot::sizes::EVENT_SIZE, std::mem::size_of::<Event>());
    assert_eq!(pot::sizes::EVENT_ITEM_SIZE, std::mem::size_of::<EventItem>());
    assert_eq!(pot::sizes::EVENT_LIST_SIZE, std::mem::size_of::<EventList>());
}

#[test]
fn staker_list_size_leaves_room_for_one_more() {
    let empty = StakerList::default();
    assert_eq!(empty.get_account_size(), 12 + 24 + 40);
    let two = StakerList {
        list: vec![Staker { staker: Pubkey([1; 32]), lamports: 1 }, Staker { staker: Pubkey([2; 32]), lamports: 2 }],
    };
    assert_eq!(two.get_account_size(), 12 + 24 + 40 * 3);
}

#[test]
fn event_init_size_counts_names_in_bytes() {
    let data = CreateEventArg {
        event_name: "ab".to_string(),
        event_description: "é!".to_string(),
        event_start_time: 0,
        event_end_time: 0,
        bet_lamports: 0,
        guests: vec![Pubkey([1; 32]), Pubkey([2; 32])],
    };
    assert_eq!(Event::get_init_account_size(&data), 16 + 2 + 3 + 160 + 35 * 3 + 32 * 3);
}

#[test]
fn event_item_sizes() {
    let name = "party".to_string();
    assert_eq!(EventItem::get_init_account_size(&name), 12 + 32 + 5);
    let item = EventItem { event_name: "日本".to_string(), event_create_time: 3 };
    assert_eq!(item.get_account_size(), 12 + 32 + 6);
}

#[test]
fn event_list_sizes() {
    assert_eq!(EventList::get_init_account_size(), 12);
    let list = EventList {
        events: vec![
            EventItem { event_name: "a".to_string(), event_create_time: 1 },
            EventItem { event_name: "bcd".to_string(), event_create_time: 2 },
        ],
    };
    let next = "xy".to_string();
    assert_eq!(list.get_account_size(&next), 12 + 24 + (44 + 2) + (44 + 1) + (44 + 3));
    assert_eq!(EventList::default().get_account_size(&next), 12 + 24 + 46);
}
