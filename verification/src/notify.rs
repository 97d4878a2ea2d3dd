//! The notification popup: the notifications it shows, newest first, how a
//! new or replacing notification is taken in, how one is closed, and how each
//! is drawn.
use vstd::prelude::*;

use crate::time::{hour_minute, ClockTime};
use crate::text::two_digit;
use crate::Action;

verus! {

/// How urgent a notification is.
#[derive(Clone, Copy, Debug, PartialEq, Eq, Structural)]
pub enum Urgency {
    Low,
    Normal,
    Critical,
}

/// Why a notification was closed, as reported back to its sender.
#[derive(Clone, Copy, Debug, PartialEq, Eq, Structural)]
pub enum CloseReason {
    Expired,
    Dismissed,
    Closed,
    Undefined,
}

/// An action that a notification offers.
#[derive(Debug)]
pub struct NotificationAction {
    /// What is reported back when it is chosen.
    pub key: String,
    /// What its button shows.
    pub label: String,
}

/// A notification, with images of type `I`.
pub struct Notification<I> {
    pub id: u32,
    /// Tells apart the notifications that replaced one another under one id.
    pub generation: u64,
    pub app_name: String,
    pub app_icon: Option<I>,
    pub summary: String,
    pub body: String,
    pub actions: Vec<NotificationAction>,
    pub hint_image: Option<I>,
    pub urgency: Urgency,
    /// When it arrived.
    pub time: ClockTime,
}

/// The notifications shown, newest first, and the connection `C` on which
/// closings and chosen actions are reported, once it is made.
pub struct Notifications<C, I> {
    pub connection: Option<C>,
    pub notifications: Vec<Notification<I>>,
}

/// What arrives from the notification service.
pub enum NotifyMessage<C, I> {
    /// The connection is made.
    Connected(C),
    /// A notification arrived; it replaces one with the same id.
    Notification(Notification<I>),
    /// A notification is to be closed: the first with this id and, when a
    /// generation is given, that generation.
    Close(u32, Option<u64>, CloseReason),
}

/// The outcome of a message: what the interface must do, and the closing to
/// report on the connection, if any.
pub struct NotifyStep {
    pub action: Action,
    pub report: Option<(u32, CloseReason)>,
}

/// `j` is the first position of `s` whose notification has id `id`.
pub open spec fn is_first_with_nid<I>(s: Seq<Notification<I>>, j: int, id: u32) -> bool {
    &&& 0 <= j < s.len()
    &&& s[j].id == id
    &&& forall|i: int| 0 <= i < j ==> s[i].id != id
}

/// The notifications after `n` arrived: it takes the place of the first one
/// with its id, or else goes first.
pub open spec fn upserted<I>(s: Seq<Notification<I>>, n: Notification<I>) -> Seq<Notification<I>> {
    if exists|j: int| is_first_with_nid(s, j, n.id) {
        s.update(choose|j: int| is_first_with_nid(s, j, n.id), n)
    } else {
        s.insert(0, n)
    }
}

/// The notification `n` is the one that a close of `id` with `generation`
/// names.
pub open spec fn close_matches<I>(n: Notification<I>, id: u32, generation: Option<u64>) -> bool {
    n.id == id && (generation matches Some(g) ==> g == n.generation)
}

/// `j` is the first position of `s` that a close names.
pub open spec fn is_first_closed<I>(
    s: Seq<Notification<I>>,
    j: int,
    id: u32,
    generation: Option<u64>,
) -> bool {
    &&& 0 <= j < s.len()
    &&& close_matches(s[j], id, generation)
    &&& forall|i: int| 0 <= i < j ==> !close_matches(s[i], id, generation)
}

/// Some notification of `s` is named by the close.
pub open spec fn close_finds<I>(s: Seq<Notification<I>>, id: u32, generation: Option<u64>) -> bool {
    exists|j: int| is_first_closed(s, j, id, generation)
}

/// The notifications after a close: the first one it names is removed.
pub open spec fn after_close<I>(s: Seq<Notification<I>>, id: u32, generation: Option<u64>) -> Seq<
    Notification<I>,
> {
    if close_finds(s, id, generation) {
        s.remove(choose|j: int| is_first_closed(s, j, id, generation))
    } else {
        s
    }
}

/// No two notifications share an id.
pub open spec fn ids_unique<I>(s: Seq<Notification<I>>) -> bool {
    forall|i: int, j: int| 0 <= i < s.len() && 0 <= j < s.len() && i != j ==> s[i].id != s[j].id
}

proof fn lemma_first_nid_unique<I>(s: Seq<Notification<I>>, a: int, b: int, id: u32)
    requires
        is_first_with_nid(s, a, id),
        is_first_with_nid(s, b, id),
    ensures
        a == b,
{
    if a < b {
        assert(s[a].id != id);
    } else if b < a {
        assert(s[b].id != id);
    }
}

proof fn lemma_first_closed_unique<I>(
    s: Seq<Notification<I>>,
    a: int,
    b: int,
    id: u32,
    generation: Option<u64>,
)
    requires
        is_first_closed(s, a, id, generation),
        is_first_closed(s, b, id, generation),
    ensures
        a == b,
{
    if a < b {
        assert(!close_matches(s[a], id, generation));
    } else if b < a {
        assert(!close_matches(s[b], id, generation));
    }
}

impl<C, I> Notifications<C, I> {
    /// No connection yet and nothing shown.
    pub fn new() -> (data: Self)
        ensures
            data.connection is None,
            data.notifications@.len() == 0,
    {
        Notifications { connection: None, notifications: Vec::new() }
    }

    /// Whether the popup window is shown: while it holds a notification.
    pub fn visible(&self) -> (shown: bool)
        ensures
            shown == (self.notifications@.len() > 0),
    {
        !self.notifications.is_empty()
    }

    /// Takes in a notification: it replaces the first one with its id, or
    /// else goes first.
    fn upsert(&mut self, n: Notification<I>)
        ensures
            final(self).notifications@ == upserted(old(self).notifications@, n),
            final(self).connection == old(self).connection,
    {
        let count = self.notifications.len();
        for i in 0..count
            invariant
                count == self.notifications@.len(),
                self.notifications@ == old(self).notifications@,
                self.connection == old(self).connection,
                forall|j: int| 0 <= j < i ==> self.notifications@[j].id != n.id,
        {
            if self.notifications[i].id == n.id {
                proof {
                    assert(is_first_with_nid(self.notifications@, i as int, n.id));
                    let c = choose|j: int| is_first_with_nid(self.notifications@, j, n.id);
                    lemma_first_nid_unique(self.notifications@, c, i as int, n.id);
                }
                self.notifications.set(i, n);
                return ;
            }
        }
        assert(!exists|j: int| is_first_with_nid(self.notifications@, j, n.id));
        self.notifications.insert(0, n);
    }

    /// Closes the first notification that the close names; returns whether
    /// one was found.
    fn close(&mut self, id: u32, generation: Option<u64>) -> (found: bool)
        ensures
            found == close_finds(old(self).notifications@, id, generation),
            final(self).notifications@ == after_close(old(self).notifications@, id, generation),
            final(self).connection == old(self).connection,
    {
        let count = self.notifications.len();
        for i in 0..count
            invariant
                count == self.notifications@.len(),
                self.notifications@ == old(self).notifications@,
                self.connection == old(self).connection,
                forall|j: int|
                    0 <= j < i ==> !close_matches(self.notifications@[j], id, generation),
        {
            let is_id = self.notifications[i].id == id;
            let is_gen = match generation {
                Some(g) => g == self.notifications[i].generation,
                None => true,
            };
            if is_id && is_gen {
                proof {
                    assert(is_first_closed(self.notifications@, i as int, id, generation));
                    let c = choose|j: int| is_first_closed(self.notifications@, j, id, generation);
                    lemma_first_closed_unique(self.notifications@, c, i as int, id, generation);
                }
                self.notifications.remove(i);
                return true;
            }
        }
        assert(!close_finds(self.notifications@, id, generation));
        false
    }

    /// Handles a message of the notification service. A connection is kept;
    /// a notification is taken in (see [`upserted`]) and the popup rebuilt; a
    /// close removes the first notification it names, reports the closing
    /// when connected, and rebuilds, or does nothing when it names none.
    pub fn handle_event(&mut self, message: Option<NotifyMessage<C, I>>) -> (step: NotifyStep)
        ensures
            match message {
                Some(NotifyMessage::Connected(c)) => {
                    &&& final(self).connection == Some(c)
                    &&& final(self).notifications@ == old(self).notifications@
                    &&& !step.action.rebuild
                    &&& step.report is None
                },
                Some(NotifyMessage::Notification(n)) => {
                    &&& final(self).connection == old(self).connection
                    &&& final(self).notifications@ == upserted(old(self).notifications@, n)
                    &&& step.action.rebuild
                    &&& step.report is None
                },
                Some(NotifyMessage::Close(id, generation, reason)) => {
                    &&& final(self).connection == old(self).connection
                    &&& final(self).notifications@ == after_close(
                        old(self).notifications@,
                        id,
                        generation,
                    )
                    &&& step.action.rebuild == close_finds(old(self).notifications@, id, generation)
                    &&& step.report == (if close_finds(old(self).notifications@, id, generation)
                        && old(self).connection is Some {
                        Some((id, reason))
                    } else {
                        None
                    })
                },
                None => {
                    &&& final(self).connection == old(self).connection
                    &&& final(self).notifications@ == old(self).notifications@
                    &&& !step.action.rebuild
                    &&& step.report is None
                },
            },
    {
        match message {
            Some(NotifyMessage::Connected(c)) => {
                self.connection = Some(c);
                NotifyStep { action: Action { rebuild: false }, report: None }
            },
            Some(NotifyMessage::Notification(n)) => {
                self.upsert(n);
                NotifyStep { action: Action { rebuild: true }, report: None }
            },
            Some(NotifyMessage::Close(id, generation, reason)) => {
                if self.close(id, generation) {
                    let report = if self.connection.is_some() {
                        Some((id, reason))
                    } else {
                        None
                    };
                    NotifyStep { action: Action { rebuild: true }, report }
                } else {
                    NotifyStep { action: Action { rebuild: false }, report: None }
                }
            },
            None => NotifyStep { action: Action { rebuild: false }, report: None },
        }
    }

    /// A click on the button of the action with key `key` of notification
    /// `id`: once connected, the choice is reported; before, nothing happens.
    pub fn action_chosen(&self, id: u32, key: &String) -> (report: Option<(u32, String)>)
        ensures
            report matches Some((rid, rkey)) ==> (self.connection is Some && rid == id && rkey@
                == key@),
            report is None ==> self.connection is None,
    {
        if self.connection.is_some() {
            Some((id, key.clone()))
        } else {
            None
        }
    }
}

/// The style classes of a notification of the given urgency.
pub fn urgency_classes(urgency: Urgency) -> (classes: &'static str)
    ensures
        classes@ == (match urgency {
            Urgency::Low => "notification low"@,
            Urgency::Normal => "notification normal"@,
            Urgency::Critical => "notification critical"@,
        }),
{
    match urgency {
        Urgency::Low => "notification low",
        Urgency::Normal => "notification normal",
        Urgency::Critical => "notification critical",
    }
}

/// The time shown in a notification's header: when it arrived, `HH:MM`.
pub fn notification_time<I>(n: &Notification<I>) -> (label: String)
    ensures
        label@ == two_digit(n.time.hour as nat) + ":"@ + two_digit(n.time.minute as nat),
{
    hour_minute(n.time)
}

/// The urgency a sender asks for with its `urgency` hint: 0 is low, 2 is
/// critical, and anything else, or no hint, is normal.
pub fn urgency_from_hint(level: Option<u64>) -> (urgency: Urgency)
    ensures
        urgency == (match level {
            Some(0) => Urgency::Low,
            Some(2) => Urgency::Critical,
            _ => Urgency::Normal,
        }),
{
    match level {
        Some(0) => Urgency::Low,
        Some(2) => Urgency::Critical,
        _ => Urgency::Normal,
    }
}

/// The id given to an arriving notification: the one it replaces, when it
/// names one (not 0), or else the one after the last id given, starting
/// again at 1 after the largest.
pub fn assigned_id(replaces_id: u32, last_given: u32) -> (id: u32)
    ensures
        id == if replaces_id != 0 {
            replaces_id as int
        } else if last_given == u32::MAX {
            1
        } else {
            last_given + 1
        },
        id != 0,
{
    if replaces_id != 0 {
        replaces_id
    } else if last_given == u32::MAX {
        1
    } else {
        last_given + 1
    }
}

/// How long, in milliseconds, a notification stays before it expires, given
/// the timeout its sender asks for: a negative timeout means the default of
/// five seconds, zero means never.
pub fn expiry_ms(timeout: i32) -> (ms: Option<u64>)
    ensures
        ms == if timeout < 0 {
            Some(5000u64)
        } else if timeout == 0 {
            None
        } else {
            Some(timeout as u64)
        },
{
    if timeout < 0 {
        Some(5000)
    } else if timeout == 0 {
        None
    } else {
        Some(timeout as u64)
    }
}

/// A notification whose id is not shown goes first, before all others in
/// their previous order; one whose id is shown takes the place of the first
/// with that id, and every other notification stays where it was.
pub proof fn law_arrival_position<I>(s: Seq<Notification<I>>, n: Notification<I>, j: int)
    ensures
        (forall|i: int| 0 <= i < s.len() ==> #[trigger] s[i].id != n.id) ==> {
            let t = upserted(s, n);
            &&& t.len() == s.len() + 1
            &&& t[0] == n
            &&& forall|i: int| 0 <= i < s.len() ==> #[trigger] t[i + 1] == s[i]
        },
        (0 <= j < s.len() && s[j].id == n.id && forall|i: int|
            0 <= i < j ==> #[trigger] s[i].id != n.id) ==> {
            let t = upserted(s, n);
            &&& t.len() == s.len()
            &&& t[j] == n
            &&& forall|i: int| 0 <= i < s.len() && i != j ==> #[trigger] t[i] == s[i]
        },
{
    if forall|i: int| 0 <= i < s.len() ==> #[trigger] s[i].id != n.id {
        assert(!exists|f: int| is_first_with_nid(s, f, n.id));
        let t = upserted(s, n);
        assert forall|i: int| 0 <= i < s.len() implies #[trigger] t[i + 1] == s[i] by {}
    }
    if 0 <= j < s.len() && s[j].id == n.id && forall|i: int|
        0 <= i < j ==> #[trigger] s[i].id != n.id {
        assert(is_first_with_nid(s, j, n.id));
        let c = choose|c: int| is_first_with_nid(s, c, n.id);
        lemma_first_nid_unique(s, c, j, n.id);
    }
}

/// A close removes exactly the first notification it names, keeping the
/// others in order; naming none, it changes nothing.
pub proof fn law_close_removes_first_named<I>(
    s: Seq<Notification<I>>,
    id: u32,
    generation: Option<u64>,
    j: int,
)
    ensures
        (0 <= j < s.len() && s[j].id == id && (generation matches Some(g) ==> g
            == s[j].generation) && forall|i: int|
            0 <= i < j ==> !close_matches(#[trigger] s[i], id, generation)) ==> {
            let t = after_close(s, id, generation);
            &&& t.len() == s.len() - 1
            &&& forall|i: int| 0 <= i < j ==> #[trigger] t[i] == s[i]
            &&& forall|i: int| j <= i < t.len() ==> #[trigger] t[i] == s[i + 1]
        },
{
    if 0 <= j < s.len() && s[j].id == id && (generation matches Some(g) ==> g == s[j].generation)
        && forall|i: int| 0 <= i < j ==> !close_matches(#[trigger] s[i], id, generation) {
        assert(is_first_closed(s, j, id, generation));
        let c = choose|c: int| is_first_closed(s, c, id, generation);
        lemma_first_closed_unique(s, c, j, id, generation);
    }
}

/// A close names a notification exactly when some shown notification has
/// its id and, when a generation is given, that generation.
pub proof fn law_close_finds_any_named<I>(s: Seq<Notification<I>>, id: u32, generation: Option<u64>)
    ensures
        close_finds(s, id, generation) <==> exists|j: int|
            0 <= j < s.len() && #[trigger] s[j].id == id && (generation matches Some(g) ==> g
                == s[j].generation),
{
    if exists|j: int|
        0 <= j < s.len() && #[trigger] s[j].id == id && (generation matches Some(g) ==> g
            == s[j].generation) {
        let j = choose|j: int|
            0 <= j < s.len() && #[trigger] s[j].id == id && (generation matches Some(g) ==> g
                == s[j].generation);
        lemma_first_closed_exists(s, id, generation, j);
    }
}

proof fn lemma_first_closed_exists<I>(
    s: Seq<Notification<I>>,
    id: u32,
    generation: Option<u64>,
    j: int,
)
    requires
        0 <= j < s.len(),
        close_matches(s[j], id, generation),
    ensures
        close_finds(s, id, generation),
    decreases j,
{
    if exists|i: int| 0 <= i < j && close_matches(#[trigger] s[i], id, generation) {
        let i = choose|i: int| 0 <= i < j && close_matches(#[trigger] s[i], id, generation);
        lemma_first_closed_exists(s, id, generation, i);
    } else {
        assert(is_first_closed(s, j, id, generation));
    }
}

/// A notification that arrives is the one shown under its id: after it is
/// taken in, the first notification with its id is it.
pub proof fn law_arrival_is_shown<I>(s: Seq<Notification<I>>, n: Notification<I>)
    ensures
        exists|j: int|
            is_first_with_nid(upserted(s, n), j, n.id) && #[trigger] upserted(s, n)[j] == n,
{
    let t = upserted(s, n);
    if exists|j: int| is_first_with_nid(s, j, n.id) {
        let j = choose|j: int| is_first_with_nid(s, j, n.id);
        assert(is_first_with_nid(t, j, n.id));
    } else {
        assert(is_first_with_nid(t, 0, n.id));
    }
}

/// Taking in a notification keeps ids unique, and adds one notification
/// exactly when none had its id.
pub proof fn law_arrival_keeps_ids_unique<I>(s: Seq<Notification<I>>, n: Notification<I>)
    requires
        ids_unique(s),
    ensures
        ids_unique(upserted(s, n)),
        upserted(s, n).len() == if exists|j: int| 0 <= j < s.len() && s[j].id == n.id {
            s.len()
        } else {
            s.len() + 1
        },
{
    let t = upserted(s, n);
    if exists|j: int| is_first_with_nid(s, j, n.id) {
        let k = choose|j: int| is_first_with_nid(s, j, n.id);
        assert forall|i: int, j: int| 0 <= i < t.len() && 0 <= j < t.len() && i != j implies t[i].id
            != t[j].id by {
            if i != k && j != k {
                assert(t[i] == s[i] && t[j] == s[j]);
            } else if i == k {
                assert(t[j] == s[j]);
            } else {
                assert(t[i] == s[i]);
            }
        }
    } else {
        assert forall|j: int| 0 <= j < s.len() implies s[j].id != n.id by {
            if s[j].id == n.id {
                assert(is_first_with_nid(s, j, n.id));
            }
        }
        assert forall|i: int, j: int| 0 <= i < t.len() && 0 <= j < t.len() && i != j implies t[i].id
            != t[j].id by {
            if i > 0 && j > 0 {
                assert(t[i] == s[i - 1] && t[j] == s[j - 1]);
            } else if i == 0 {
                assert(t[j] == s[j - 1]);
            } else {
                assert(t[i] == s[i - 1]);
            }
        }
    }
}

/// A close removes at most one notification and keeps the order and ids of
/// the others, so unique ids stay unique.
pub proof fn law_close_keeps_ids_unique<I>(s: Seq<Notification<I>>, id: u32, generation: Option<u64>)
    requires
        ids_unique(s),
    ensures
        ids_unique(after_close(s, id, generation)),
        after_close(s, id, generation).len() == if close_finds(s, id, generation) {
            s.len() - 1
        } else {
            s.len() as int
        },
{
    if close_finds(s, id, generation) {
        let k = choose|j: int| is_first_closed(s, j, id, generation);
        let t = s.remove(k);
        assert forall|i: int, j: int| 0 <= i < t.len() && 0 <= j < t.len() && i != j implies t[i].id
            != t[j].id by {
            let si = if i < k { i } else { i + 1 };
            let sj = if j < k { j } else { j + 1 };
            assert(t[i] == s[si] && t[j] == s[sj]);
        }
    }
}

/// A close that names no shown notification changes nothing.
pub proof fn law_close_of_unknown_changes_nothing<I>(
    s: Seq<Notification<I>>,
    id: u32,
    generation: Option<u64>,
)
    requires
        forall|j: int| 0 <= j < s.len() ==> !close_matches(#[trigger] s[j], id, generation),
    ensures
        !close_finds(s, id, generation),
        after_close(s, id, generation) == s,
{
}

/// Closing a notification that just arrived, by its id alone or by its id
/// and generation, leaves no notification with its id, when ids were unique.
pub proof fn law_close_removes_arrival<I>(s: Seq<Notification<I>>, n: Notification<I>, by_generation: bool)
    requires
        ids_unique(s),
    ensures
        ({
            let generation = if by_generation { Some(n.generation) } else { None };
            let t = after_close(upserted(s, n), n.id, generation);
            forall|j: int| 0 <= j < t.len() ==> #[trigger] t[j].id != n.id
        }),
{
    let generation = if by_generation { Some(n.generation) } else { None };
    let u = upserted(s, n);
    law_arrival_keeps_ids_unique(s, n);
    law_arrival_is_shown(s, n);
    let p = choose|j: int| is_first_with_nid(u, j, n.id) && u[j] == n;
    assert(is_first_closed(u, p, n.id, generation));
    let k = choose|j: int| is_first_closed(u, j, n.id, generation);
    lemma_first_closed_unique(u, k, p, n.id, generation);
    let t = after_close(u, n.id, generation);
    assert(t == u.remove(p));
    assert forall|j: int| 0 <= j < t.len() implies #[trigger] t[j].id != n.id by {
        let sj = if j < p { j } else { j + 1 };
        assert(t[j] == u[sj]);
        assert(sj != p);
    }
}

} // verus!
