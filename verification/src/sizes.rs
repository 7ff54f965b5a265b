use vstd::prelude::*;
use vstd::utf8::encode_utf8;
use crate::accounts::{CreateEventArg, Event, EventItem, EventItemView, EventList, EventView, StakerList};
use crate::keys::lemma_dedup_len;
use crate::model::{create_event_spec, invited};

verus! {

// The in-memory size of each account type on the program's 64-bit target,
// which is what `size_of` gives for it; a test checks each of them.

/// The size of `Pubkey`.
pub const PUBKEY_SIZE: usize = 32;

/// The size of `Staker`.
pub const STAKER_SIZE: usize = 40;

/// The size of `StakerList`.
pub const STAKER_LIST_SIZE: usize = 24;

/// The size of `EventGuest`.
pub const EVENT_GUEST_SIZE: usize = 35;

/// The size of `Event`.
pub const EVENT_SIZE: usize = 160;

/// The size of `EventItem`.
pub const EVENT_ITEM_SIZE: usize = 32;

/// The size of `EventList`.
pub const EVENT_LIST_SIZE: usize = 24;

/// What `String::len` gives: the length of the string in bytes, as UTF-8.
pub open spec fn byte_len(s: Seq<char>) -> int {
    (encode_utf8(s).len() as usize) as int
}

/// The room an account holds besides its data: the discriminator (8 bytes)
/// and the length of one vector (4 bytes).
pub open spec fn header() -> int {
    8int + 4int
}

/// The room for a list of `len` stakers and one more.
pub open spec fn staker_list_room(len: int) -> int {
    header() + STAKER_LIST_SIZE + STAKER_SIZE * (len + 1)
}

/// The room for one entry of a host's list of events.
pub open spec fn item_size(name: Seq<char>) -> int {
    header() + EVENT_ITEM_SIZE + byte_len(name)
}

/// The room for all the entries of a host's list of events.
pub open spec fn items_size(items: Seq<EventItemView>) -> int
    decreases items.len(),
{
    if items.len() == 0 {
        0
    } else {
        items_size(items.drop_last()) + item_size(items.last().event_name)
    }
}

/// The room for a new event.
pub open spec fn event_init_size(data: CreateEventArg) -> int {
    8 + 4 * 2 + byte_len(data.event_name@) + byte_len(data.event_description@) + EVENT_SIZE
        + EVENT_GUEST_SIZE * (data.guests.len() + 1) + PUBKEY_SIZE * (data.guests.len()
        + 1)
}

/// The room for a host's list of events, with one more entry named `name`.
pub open spec fn event_list_size(items: Seq<EventItemView>, name: Seq<char>) -> int {
    header() + EVENT_LIST_SIZE + item_size(name) + items_size(items)
}

fn string_len(s: &String) -> (n: usize)
    ensures
        n == byte_len(s@),
{
    s.as_str().len()
}

proof fn lemma_items_size_prefix(items: Seq<EventItemView>, i: int)
    requires
        0 <= i <= items.len(),
    ensures
        0 <= items_size(items.take(i)) <= items_size(items),
    decreases items.len(),
{
    if items.len() > 0 {
        lemma_items_size_prefix(items.drop_last(), if i == items.len() { i - 1 } else { i });
        if i == items.len() {
            assert(items.take(i) =~= items);
            assert(items.drop_last().take(i - 1) =~= items.drop_last());
        } else {
            assert(items.drop_last().take(i) =~= items.take(i));
        }
    }
}

impl StakerList {
    /// The room the list needs with one more staker.
    pub fn get_account_size(&self) -> (size: usize)
        requires
            self.list.len() < usize::MAX,
            header() + STAKER_LIST_SIZE + STAKER_SIZE * (self.list.len() + 1)
                <= usize::MAX,
        ensures
            size == staker_list_room(self.list.len() as int),
    {
        let mut size: usize = 8 + 4;
        size = size + STAKER_LIST_SIZE;
        size = size + STAKER_SIZE * (self.list.len() + 1);
        size
    }
}

impl Event {
    /// The room for a new event made from `data`.
    pub fn get_init_account_size(data: &CreateEventArg) -> (size: usize)
        requires
            data.guests.len() < usize::MAX,
            event_init_size(*data) <= usize::MAX,
        ensures
            size == event_init_size(*data),
    {
        let mut size: usize = 8 + 4 * 2;
        size = size + string_len(&data.event_name);
        size = size + string_len(&data.event_description);
        size = size + EVENT_SIZE;
        size = size + EVENT_GUEST_SIZE * (data.guests.len() + 1);
        size = size + PUBKEY_SIZE * (data.guests.len() + 1);
        size
    }
}

impl EventItem {
    /// The room for an entry named `event_name`.
    pub fn get_init_account_size(event_name: &String) -> (size: usize)
        requires
            item_size(event_name@) <= usize::MAX,
        ensures
            size == item_size(event_name@),
    {
        let mut size: usize = 8 + 4;
        size = size + EVENT_ITEM_SIZE;
        size = size + string_len(event_name);
        size
    }

    /// The room for this entry.
    pub fn get_account_size(&self) -> (size: usize)
        requires
            item_size(self.event_name@) <= usize::MAX,
        ensures
            size == item_size(self.event_name@),
    {
        let mut size: usize = 8 + 4;
        size = size + EVENT_ITEM_SIZE;
        size = size + string_len(&self.event_name);
        size
    }
}

impl EventList {
    /// The room for an empty list.
    pub fn get_init_account_size() -> (size: usize)
        ensures
            size == header(),
    {
        let size: usize = 8 + 4;
        size
    }

    /// The room for the list with one more entry, named `event_name`.
    pub fn get_account_size(&self, event_name: &String) -> (size: usize)
        requires
            event_list_size(self@, event_name@) <= usize::MAX,
        ensures
            size == event_list_size(self@, event_name@),
    {
        proof { lemma_items_size_prefix(self@, 0); }
        let mut size: usize = 8 + 4;
        size = size + EVENT_LIST_SIZE;
        size = size + EventItem::get_init_account_size(event_name);
        let ghost base = size as int;
        assert(self@.take(0) =~= Seq::<EventItemView>::empty());
        proof { lemma_items_size_prefix(self@, 0); }
        let mut i: usize = 0;
        while i < self.events.len()
            invariant
                0 <= i <= self.events.len(),
                base == header() + EVENT_LIST_SIZE + item_size(event_name@),
                base + items_size(self@) <= usize::MAX,
                size == base + items_size(self@.take(i as int)),
            decreases self.events.len() - i,
        {
            proof {
                lemma_items_size_prefix(self@, i + 1);
                assert(self@.take(i + 1).drop_last() =~= self@.take(i as int));
                assert(self@[i as int] == self.events@[i as int]@);
            }
            size = size + self.events[i].get_account_size();
            i = i + 1;
        }
        assert(self@.take(self@.len() as int) =~= self@);
        size
    }
}

// ---------------------------------------------------------------------------
// Where the sums of sizes stay in range (out of range, the program aborts).
// ---------------------------------------------------------------------------

impl StakerList {
    /// Whether `get_account_size` stays in range.
    pub fn account_size_in_range(&self) -> (r: bool)
        ensures
            r == (self.list.len() < usize::MAX && header() + STAKER_LIST_SIZE + STAKER_SIZE
                * (self.list.len() + 1) <= usize::MAX),
    {
        if self.list.len() == usize::MAX {
            return false;
        }
        let a = match (8usize + 4).checked_add(STAKER_LIST_SIZE) {
            Some(a) => a,
            None => return false,
        };
        let b = match STAKER_SIZE.checked_mul(self.list.len() + 1) {
            Some(b) => b,
            None => return false,
        };
        a.checked_add(b).is_some()
    }
}

impl Event {
    /// Whether `get_init_account_size` stays in range.
    pub fn init_account_size_in_range(data: &CreateEventArg) -> (r: bool)
        ensures
            r == (data.guests.len() < usize::MAX && event_init_size(*data) <= usize::MAX),
    {
        if data.guests.len() == usize::MAX {
            return false;
        }
        let n = data.guests.len() + 1;
        let g = match EVENT_GUEST_SIZE.checked_mul(n) {
            Some(g) => g,
            None => return false,
        };
        let k = match PUBKEY_SIZE.checked_mul(n) {
            Some(k) => k,
            None => return false,
        };
        let mut size: usize = 8 + 4 * 2;
        size = match size.checked_add(string_len(&data.event_name)) {
            Some(x) => x,
            None => return false,
        };
        size = match size.checked_add(string_len(&data.event_description)) {
            Some(x) => x,
            None => return false,
        };
        size = match size.checked_add(EVENT_SIZE) {
            Some(x) => x,
            None => return false,
        };
        size = match size.checked_add(g) {
            Some(x) => x,
            None => return false,
        };
        size.checked_add(k).is_some()
    }
}

impl EventItem {
    /// Whether `get_init_account_size` stays in range for `event_name`, and
    /// `get_account_size` for an entry of that name.
    pub fn account_size_in_range(event_name: &String) -> (r: bool)
        ensures
            r == (item_size(event_name@) <= usize::MAX),
    {
        match (8usize + 4).checked_add(EVENT_ITEM_SIZE) {
            Some(a) => a.checked_add(string_len(event_name)).is_some(),
            None => false,
        }
    }
}

impl EventList {
    /// Whether `get_account_size` stays in range.
    pub fn account_size_in_range(&self, event_name: &String) -> (r: bool)
        ensures
            r == (event_list_size(self@, event_name@) <= usize::MAX),
    {
        proof { lemma_items_size_prefix(self@, 0); }
        let mut size: usize = match (8usize + 4).checked_add(EVENT_LIST_SIZE) {
            Some(x) => x,
            None => return false,
        };
        if !EventItem::account_size_in_range(event_name) {
            return false;
        }
        size = match size.checked_add(EventItem::get_init_account_size(event_name)) {
            Some(x) => x,
            None => return false,
        };
        let ghost base = size as int;
        assert(self@.take(0) =~= Seq::<EventItemView>::empty());
        let mut i: usize = 0;
        while i < self.events.len()
            invariant
                0 <= i <= self.events.len(),
                base == header() + EVENT_LIST_SIZE + item_size(event_name@),
                size == base + items_size(self@.take(i as int)),
                items_size(self@) >= 0,
            decreases self.events.len() - i,
        {
            proof {
                lemma_items_size_prefix(self@, i + 1);
                assert(self@.take(i + 1).drop_last() =~= self@.take(i as int));
                assert(self@[i as int] == self.events@[i as int]@);
                lemma_items_size_split(self@, i + 1);
            }
            if !EventItem::account_size_in_range(&self.events[i].event_name) {
                return false;
            }
            size = match size.checked_add(self.events[i].get_account_size()) {
                Some(x) => x,
                None => return false,
            };
            i = i + 1;
        }
        assert(self@.take(self@.len() as int) =~= self@);
        true
    }
}

/// What the entries from `i` on add to the entries before `i`, at least
/// one entry's room each.
proof fn lemma_items_size_split(items: Seq<EventItemView>, i: int)
    requires
        0 < i <= items.len(),
    ensures
        items_size(items) >= items_size(items.take(i)),
        items_size(items.take(i)) >= items_size(items.take(i - 1)) + item_size(items[i - 1].event_name),
{
    lemma_items_size_prefix(items, i);
    assert(items.take(i).drop_last() =~= items.take(i - 1));
}

// ---------------------------------------------------------------------------
// The room covers what is stored.
// ---------------------------------------------------------------------------

/// The bytes a list of `n` stakers takes as stored: the discriminator, the
/// vector's length, and each staker's key and lamports.
pub open spec fn staker_list_data_size(n: int) -> int {
    8 + 4 + (32 + 8) * n
}

/// The bytes an event takes as stored with `guests` guests and `attendees`
/// declared attendees: the discriminator, the host, the guests (key and
/// three flags each), the name and description with their lengths, the
/// start, end and bet, the attendees, `signed` and `success`.
pub open spec fn event_data_size(guests: int, name: Seq<char>, description: Seq<char>, attendees: int) -> int {
    8 + 32 + (4 + (32 + 3) * guests) + (4 + byte_len(name)) + (4 + byte_len(description)) + 8 * 3 + (4
        + 32 * attendees) + 1 + 1
}

/// The room `StakerList::get_account_size` gives holds the list with one
/// more staker, which is as many as `add_stake` can make it.
pub proof fn law_staker_list_room(len: nat)
    ensures
        staker_list_room(len as int) >= staker_list_data_size(len + 1int),
{
}

/// The room `Event::get_init_account_size` gives holds the event that
/// `create_event` makes from the same arguments, with up to one declared
/// attendee for each of its guests.
pub proof fn law_event_room(e: EventView, signer: crate::keys::Pubkey, data: CreateEventArg, attendees: nat)
    requires
        e.guests.len() == 0,
        attendees <= data.guests.len() + 1,
    ensures
        ({
            let n = create_event_spec(e, signer, data);
            &&& n.guests.len() <= data.guests.len() + 1
            &&& event_data_size(n.guests.len() as int, n.event_name, n.event_description, attendees as int)
                <= event_init_size(data)
        }),
{
    lemma_dedup_len(data.guests@.push(signer));
    let n = create_event_spec(e, signer, data);
    let g = n.guests.len() as int;
    let m = data.guests.len() + 1;
    assert(g == invited(data.guests@, signer).len());
    assert(35 * g <= 35 * m && 32 * attendees <= 32 * m) by (nonlinear_arith)
        requires
            g <= m,
            attendees <= m,
    ;
}

/// The bytes the entries of a host's list of events take as stored: each
/// name with its length, and the time.
pub open spec fn items_data_size(items: Seq<EventItemView>) -> int
    decreases items.len(),
{
    if items.len() == 0 {
        0
    } else {
        items_data_size(items.drop_last()) + 4 + byte_len(items.last().event_name) + 8
    }
}

/// The room `EventList::get_account_size` gives holds the list with the new
/// entry that `create_event` appends.
pub proof fn law_event_list_room(items: Seq<EventItemView>, name: Seq<char>, now: i64)
    ensures
        event_list_size(items, name) >= 8 + 4 + items_data_size(
            items.push(EventItemView { event_name: name, event_create_time: now }),
        ),
{
    lemma_items_room(items);
    let pushed = items.push(EventItemView { event_name: name, event_create_time: now });
    assert(pushed.drop_last() =~= items);
}

proof fn lemma_items_room(items: Seq<EventItemView>)
    ensures
        items_size(items) >= items_data_size(items),
    decreases items.len(),
{
    if items.len() > 0 {
        lemma_items_room(items.drop_last());
    }
}

} // verus!
