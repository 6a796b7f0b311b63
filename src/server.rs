use vstd::prelude::*;

use crate::unit::{ImageInfo, NotifyUnit, UnitView, strings_view, image_view};

verus! {

/// Closing reason: the notification expired.
pub const NOTIFICATION_DELETED_BY_EXPIRED: u32 = 1;

/// Closing reason: the user dismissed the notification.
pub const NOTIFICATION_DELETED_BY_USER: u32 = 2;

/// Closing reason: a `CloseNotification` call closed it.
pub const NOTIFICATION_CLOSED_BY_DBUS: u32 = 3;

/// Closing reason: none of the above.
pub const NOTIFICATION_CLOSED_BY_UNKNOWN_REASON: u32 = 4;

/// What the protocol server hands to the application model.
pub enum NotifyMessage {
    UnitAdd(NotifyUnit),
    UnitRemove(u32),
}

/// Answer to `GetServerInformation`.
pub struct VersionInfo {
    pub name: String,
    pub vendor: String,
    pub version: String,
    pub spec_version: String,
}

/// An outbound signal of the notification interface.
pub enum Signal {
    ActionInvoked { id: u32, action_key: String },
    NotificationClosed { id: u32, reason: u32 },
    NotificationReplied { id: u32, text: String },
}

/// A request from the presentation layer to emit a signal.
pub enum NotifyCommand {
    ActionInvoked { id: u32, action_key: String },
    InlineReply { id: u32, text: String },
    NotificationClosed { id: u32, reason: u32 },
}

/// The action key reported when the body of a notification is clicked.
pub open spec fn default_action_key() -> Seq<char> {
    seq!['d', 'e', 'f', 'a', 'u', 'l', 't']
}

/// Builds the action key reported when the body of a notification is clicked.
pub fn default_action() -> (r: String)
    ensures
        r@ == default_action_key(),
{
    let r = String::from_str("default");
    proof {
        reveal_strlit("default");
    }
    assert(r@ =~= default_action_key());
    r
}

impl NotifyCommand {
    /// The signal this command asks for.
    pub open spec fn signal_spec(&self) -> Signal {
        match self {
            NotifyCommand::ActionInvoked { id, action_key } => Signal::ActionInvoked {
                id: *id,
                action_key: *action_key,
            },
            NotifyCommand::InlineReply { id, text } => Signal::NotificationReplied {
                id: *id,
                text: *text,
            },
            NotifyCommand::NotificationClosed { id, reason } => Signal::NotificationClosed {
                id: *id,
                reason: *reason,
            },
        }
    }

    /// Turns the command into the signal to emit.
    pub fn into_signal(self) -> (r: Signal)
        ensures
            r == self.signal_spec(),
    {
        match self {
            NotifyCommand::ActionInvoked { id, action_key } => Signal::ActionInvoked { id, action_key },
            NotifyCommand::InlineReply { id, text } => Signal::NotificationReplied { id, text },
            NotifyCommand::NotificationClosed { id, reason } => Signal::NotificationClosed {
                id,
                reason,
            },
        }
    }
}

/// The protocol server's own state: its static answers. Ids are assigned by
/// the notification stack, which alone knows which are live.
pub struct LaLaMako {
    capabilities: Vec<String>,
    version: VersionInfo,
}

impl LaLaMako {
    /// The capabilities reported by `GetCapabilities`.
    pub closed spec fn capabilities_spec(&self) -> Seq<String> {
        self.capabilities@
    }

    /// A server reporting `capabilities` and `version`.
    pub fn new(capabilities: Vec<String>, version: VersionInfo) -> (r: Self)
        ensures
            r.capabilities_spec() == capabilities@,
            r.version_spec() == version,
    {
        LaLaMako { capabilities, version }
    }

    /// `Notify`: hands the submission to the application model, carrying
    /// `replaces_id` as its id; the stack keeps that id when it names a live
    /// notification and assigns a fresh one otherwise.
    pub fn notify(
        &self,
        app_name: String,
        replaces_id: u32,
        icon: String,
        summery: String,
        body: String,
        actions: Vec<String>,
        timeout: i32,
        urgency: u8,
        inline_reply: bool,
        image: Option<ImageInfo>,
    ) -> (r: NotifyMessage)
        ensures
            match r {
                NotifyMessage::UnitAdd(u) => u@ == (UnitView {
                    app_name: app_name@,
                    id: replaces_id,
                    icon: icon@,
                    summery: summery@,
                    body: body@,
                    actions: strings_view(actions@),
                    timeout,
                    urgency,
                    inline_reply,
                    image: image_view(image),
                }),
                NotifyMessage::UnitRemove(_) => false,
            },
    {
        let unit = NotifyUnit {
            app_name,
            id: replaces_id,
            icon,
            summery,
            body,
            actions,
            timeout,
            urgency,
            inline_reply,
            image,
        };
        NotifyMessage::UnitAdd(unit)
    }

    /// `CloseNotification`: the closed signal to emit, then the removal to hand
    /// to the application model.
    pub fn close_notification(&self, id: u32) -> (r: (Signal, NotifyMessage))
        ensures
            r.0 == (Signal::NotificationClosed { id, reason: NOTIFICATION_CLOSED_BY_DBUS }),
            r.1 == NotifyMessage::UnitRemove(id),
    {
        (
            Signal::NotificationClosed { id, reason: NOTIFICATION_CLOSED_BY_DBUS },
            NotifyMessage::UnitRemove(id),
        )
    }

    /// `GetCapabilities`.
    pub fn get_capabilities(&self) -> (r: Vec<String>)
        ensures
            r@ == self.capabilities_spec(),
    {
        let r = self.capabilities.clone();
        assert(r@ =~= self.capabilities@);
        r
    }

    /// `GetServerInformation`: name, vendor, version and specification version.
    pub fn get_server_information(&self) -> (r: (String, String, String, String))
        ensures
            r.0@ == self.version_spec().name@,
            r.1@ == self.version_spec().vendor@,
            r.2@ == self.version_spec().version@,
            r.3@ == self.version_spec().spec_version@,
    {
        (
            self.version.name.clone(),
            self.version.vendor.clone(),
            self.version.version.clone(),
            self.version.spec_version.clone(),
        )
    }

    /// The version information the server reports.
    pub closed spec fn version_spec(&self) -> VersionInfo {
        self.version
    }
}

/// One step of an existence check.
#[derive(Clone, Copy, Debug, PartialEq, Eq, Structural)]
pub enum CheckStep {
    /// The check is over with this answer.
    Answer(bool),
    /// No reply yet: poll the reply channel once more.
    PollAgain,
}

/// The protocol side of an existence check: a query has been sent to the
/// application model and its reply channel is polled a bounded number of
/// times; no reply counts as "does not exist".
pub struct ExistenceCheck {
    pub attempts_left: u32,
}

impl ExistenceCheck {
    /// A check that polls at most `attempts` times.
    pub fn new(attempts: u32) -> (r: Self)
        ensures
            r.attempts_left == attempts,
    {
        ExistenceCheck { attempts_left: attempts }
    }

    /// After trying to send the query: a query that could not be sent
    /// fails the check.
    pub fn on_sent(&self, sent: bool) -> (r: CheckStep)
        ensures
            r == (if sent && self.attempts_left > 0 {
                CheckStep::PollAgain
            } else {
                CheckStep::Answer(false)
            }),
    {
        if sent && self.attempts_left > 0 {
            CheckStep::PollAgain
        } else {
            CheckStep::Answer(false)
        }
    }

    /// After one poll of the reply channel.
    pub fn on_poll(&mut self, reply: Option<bool>) -> (r: CheckStep)
        ensures
            match reply {
                Some(b) => r == CheckStep::Answer(b) && final(self).attempts_left == old(self).attempts_left,
                None => if old(self).attempts_left > 1 {
                    r == CheckStep::PollAgain && final(self).attempts_left == old(self).attempts_left - 1
                } else {
                    r == CheckStep::Answer(false) && final(self).attempts_left == 0
                },
            },
    {
        match reply {
            Some(b) => CheckStep::Answer(b),
            None => {
                if self.attempts_left > 1 {
                    self.attempts_left = self.attempts_left - 1;
                    CheckStep::PollAgain
                } else {
                    self.attempts_left = 0;
                    CheckStep::Answer(false)
                }
            },
        }
    }
}

} // verus!
