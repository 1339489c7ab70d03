//! The lifecycle events of an activity.

use vstd::prelude::*;

use crate::locale::Key;
use crate::text::same_text;

verus! {

/// A lifecycle transition that an activity can undergo.
#[derive(Debug, Clone, Copy, PartialEq, Eq, Hash, Structural)]
pub enum ActivityEvent {
    Activated,
    Deactivated,
    Started,
    Stopped,
}

/// The four events, in their fixed order.
pub open spec fn all_events() -> Seq<ActivityEvent> {
    seq![
        ActivityEvent::Activated,
        ActivityEvent::Deactivated,
        ActivityEvent::Started,
        ActivityEvent::Stopped,
    ]
}

/// The event whose token is `s`, matched case-sensitively.
pub open spec fn event_of_token(s: Seq<char>) -> Option<ActivityEvent> {
    if s == "activated"@ {
        Some(ActivityEvent::Activated)
    } else if s == "deactivated"@ {
        Some(ActivityEvent::Deactivated)
    } else if s == "started"@ {
        Some(ActivityEvent::Started)
    } else if s == "stopped"@ {
        Some(ActivityEvent::Stopped)
    } else {
        None
    }
}

impl ActivityEvent {
    /// The kebab-case token that names the event on disk.
    pub open spec fn spec_token(self) -> Seq<char> {
        match self {
            ActivityEvent::Activated => "activated"@,
            ActivityEvent::Deactivated => "deactivated"@,
            ActivityEvent::Started => "started"@,
            ActivityEvent::Stopped => "stopped"@,
        }
    }

    /// The key of the event's label in the localized text table.
    pub open spec fn spec_key(self) -> Key {
        match self {
            ActivityEvent::Activated => Key::EventActivated,
            ActivityEvent::Deactivated => Key::EventDeactivated,
            ActivityEvent::Started => Key::EventStarted,
            ActivityEvent::Stopped => Key::EventStopped,
        }
    }

    /// The key of the event's label in the localized text table.
    pub fn as_key(&self) -> (r: Key)
        ensures
            r == self.spec_key(),
    {
        match self {
            ActivityEvent::Activated => Key::EventActivated,
            ActivityEvent::Deactivated => Key::EventDeactivated,
            ActivityEvent::Started => Key::EventStarted,
            ActivityEvent::Stopped => Key::EventStopped,
        }
    }

    /// The kebab-case token that names the event on disk.
    pub fn token(&self) -> (r: &'static str)
        ensures
            r@ == self.spec_token(),
    {
        match self {
            ActivityEvent::Activated => "activated",
            ActivityEvent::Deactivated => "deactivated",
            ActivityEvent::Started => "started",
            ActivityEvent::Stopped => "stopped",
        }
    }

    /// The event named by a directory token; `None` for any other name.
    pub fn from_token(s: &str) -> (r: Option<ActivityEvent>)
        ensures
            r == event_of_token(s@),
    {
        if same_text(s, "activated") {
            Some(ActivityEvent::Activated)
        } else if same_text(s, "deactivated") {
            Some(ActivityEvent::Deactivated)
        } else if same_text(s, "started") {
            Some(ActivityEvent::Started)
        } else if same_text(s, "stopped") {
            Some(ActivityEvent::Stopped)
        } else {
            None
        }
    }

    /// The four events, in their fixed order.
    pub fn all() -> (r: Vec<ActivityEvent>)
        ensures
            r@ == all_events(),
    {
        let r = vec![
            ActivityEvent::Activated,
            ActivityEvent::Deactivated,
            ActivityEvent::Started,
            ActivityEvent::Stopped,
        ];
        assert(r@ =~= all_events());
        r
    }
}

/// Each event's token names that event and no other.
pub proof fn lemma_token_round_trip(e: ActivityEvent)
    ensures
        event_of_token(e.spec_token()) == Some(e),
{
    reveal_strlit("activated");
    reveal_strlit("deactivated");
    reveal_strlit("started");
    reveal_strlit("stopped");
    assert("activated"@.len() == 9);
    assert("deactivated"@.len() == 11);
    assert("started"@.len() == 7);
    assert("stopped"@[2] != "started"@[2]);
}

} // verus!
