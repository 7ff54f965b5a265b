use vstd::prelude::*;
use crate::keys::Pubkey;

verus! {

/// A user's profile.
#[derive(Clone, Debug, Default, PartialEq, Eq)]
pub struct Profile {
    pub name: String,
    pub time_created: i64,
    pub time_updated: i64,
}

pub struct ProfileView {
    pub name: Seq<char>,
    pub time_created: i64,
    pub time_updated: i64,
}

impl View for Profile {
    type V = ProfileView;

    open spec fn view(&self) -> ProfileView {
        ProfileView {
            name: self.name@,
            time_created: self.time_created,
            time_updated: self.time_updated,
        }
    }
}

/// One user's stake on a target user.
#[derive(Clone, Copy, Debug, Default, PartialEq, Eq)]
pub struct Staker {
    pub staker: Pubkey,
    pub lamports: u64,
}

/// The stakes placed on one target user.
#[derive(Clone, Debug, Default, PartialEq, Eq)]
pub struct StakerList {
    pub list: Vec<Staker>,
}

impl View for StakerList {
    type V = Seq<Staker>;

    open spec fn view(&self) -> Seq<Staker> {
        self.list@
    }
}

/// A guest of an event and where the guest stands.
#[derive(Clone, Copy, Debug, Default, PartialEq, Eq)]
pub struct EventGuest {
    pub key: Pubkey,
    pub is_betted: bool,
    pub agree_vote: bool,
    pub is_claimed: bool,
}

/// An event: its host, its guests, and the attendance that the host declares
/// and the attendees agree on.
#[derive(Clone, Debug, Default, PartialEq, Eq)]
pub struct Event {
    pub host: Pubkey,
    pub guests: Vec<EventGuest>,
    pub event_name: String,
    pub event_description: String,
    pub event_start_time: i64,
    pub event_end_time: i64,
    pub bet_lamports: u64,
    pub attendees: Vec<Pubkey>,
    pub signed: u8,
    pub success: bool,
}

pub struct EventView {
    pub host: Pubkey,
    pub guests: Seq<EventGuest>,
    pub event_name: Seq<char>,
    pub event_description: Seq<char>,
    pub event_start_time: i64,
    pub event_end_time: i64,
    pub bet_lamports: u64,
    pub attendees: Seq<Pubkey>,
    pub signed: u8,
    pub success: bool,
}

impl View for Event {
    type V = EventView;

    open spec fn view(&self) -> EventView {
        EventView {
            host: self.host,
            guests: self.guests@,
            event_name: self.event_name@,
            event_description: self.event_description@,
            event_start_time: self.event_start_time,
            event_end_time: self.event_end_time,
            bet_lamports: self.bet_lamports,
            attendees: self.attendees@,
            signed: self.signed,
            success: self.success,
        }
    }
}

/// The keys of the guests, in order.
pub open spec fn guest_keys(guests: Seq<EventGuest>) -> Seq<Pubkey> {
    guests.map_values(|g: EventGuest| g.key)
}

/// An entry of a host's list of events.
#[derive(Clone, Debug, Default, PartialEq, Eq)]
pub struct EventItem {
    pub event_name: String,
    pub event_create_time: i64,
}

pub struct EventItemView {
    pub event_name: Seq<char>,
    pub event_create_time: i64,
}

impl View for EventItem {
    type V = EventItemView;

    open spec fn view(&self) -> EventItemView {
        EventItemView { event_name: self.event_name@, event_create_time: self.event_create_time }
    }
}

/// The events a host has created, oldest first.
#[derive(Clone, Debug, Default, PartialEq, Eq)]
pub struct EventList {
    pub events: Vec<EventItem>,
}

impl View for EventList {
    type V = Seq<EventItemView>;

    open spec fn view(&self) -> Seq<EventItemView> {
        self.events@.map_values(|e: EventItem| e@)
    }
}

#[derive(Clone, Debug, PartialEq, Eq)]
pub struct CreateAccountArg {
    pub name: String,
}

#[derive(Clone, Copy, Debug, PartialEq, Eq)]
pub struct AddStakeArg {
    pub target: Pubkey,
    pub lamports: u64,
}

#[derive(Clone, Debug, PartialEq, Eq)]
pub struct CreateEventArg {
    pub event_name: String,
    pub event_description: String,
    pub event_start_time: i64,
    pub event_end_time: i64,
    pub bet_lamports: u64,
    pub guests: Vec<Pubkey>,
}

#[derive(Clone, Debug, PartialEq, Eq)]
pub struct BetOnEventArg {
    pub event_name: String,
}

#[derive(Clone, Debug, PartialEq, Eq)]
pub struct DeclareEventAttendeesArg {
    pub event_name: String,
    pub attendees: Vec<Pubkey>,
}

#[derive(Clone, Debug, PartialEq, Eq)]
pub struct AgreeEventAttendeesArg {
    pub event_name: String,
    pub attendees: Vec<Pubkey>,
}

#[derive(Clone, Debug, PartialEq, Eq)]
pub struct ClaimEventRewardArg {
    pub event_name: String,
}

/// Why an instruction is refused.
#[derive(Clone, Copy, Debug, PartialEq, Eq, Structural)]
pub enum MyError {
    BetOnEventAlreadyBetted,
    BetOnEventNotAGuest,
    AccountNotMatch,
    AttendeesAlreadyDeclared,
    AttendeesNotDeclared,
    AttendeesNotMatch,
    NotAttendee,
    AttendeesAlreadyVoted,
    AttendeesAlreadyClaimed,
    EventCompleted,
    EventNotStarted,
}

impl MyError {
    /// The message that goes with the error.
    pub fn message(&self) -> (r: &'static str)
        ensures
            r@ == (match *self {
                MyError::BetOnEventAlreadyBetted => "BetOnEvent: Already Betted!"@,
                MyError::BetOnEventNotAGuest => "BetOnEvent: Not a guest!"@,
                MyError::AccountNotMatch => "Account doesn't match!"@,
                MyError::AttendeesAlreadyDeclared => "Attendees has already declared!"@,
                MyError::AttendeesNotDeclared => "Attendees has not declared!"@,
                MyError::AttendeesNotMatch => "Attendees do not match!"@,
                MyError::NotAttendee => "Signer is not an attendee!"@,
                MyError::AttendeesAlreadyVoted => "Attendees has already voted!"@,
                MyError::AttendeesAlreadyClaimed => "Attendees has already claimed!"@,
                MyError::EventCompleted => "Event has been completed!"@,
                MyError::EventNotStarted => "Event has not started!"@,
            }),
    {
        match self {
            MyError::BetOnEventAlreadyBetted => "BetOnEvent: Already Betted!",
            MyError::BetOnEventNotAGuest => "BetOnEvent: Not a guest!",
            MyError::AccountNotMatch => "Account doesn't match!",
            MyError::AttendeesAlreadyDeclared => "Attendees has already declared!",
            MyError::AttendeesNotDeclared => "Attendees has not declared!",
            MyError::AttendeesNotMatch => "Attendees do not match!",
            MyError::NotAttendee => "Signer is not an attendee!",
            MyError::AttendeesAlreadyVoted => "Attendees has already voted!",
            MyError::AttendeesAlreadyClaimed => "Attendees has already claimed!",
            MyError::EventCompleted => "Event has been completed!",
            MyError::EventNotStarted => "Event has not started!",
        }
    }
}

} // verus!
