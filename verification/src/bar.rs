//! The state of the bar as a whole: one menu per monitor, the clock, the
//! compositor's state and the media players, and how events change them.
use vstd::prelude::*;

use crate::hyprland::HyprlandData;
use crate::media::{players_after_update, kept_players, names_of, MediaData, MediaPlayer, PlayerUpdate};
use crate::text::views;
use crate::time::ClockTime;
use crate::Action;

verus! {

/// The state of the bar.
pub struct BarData<H> {
    /// Whether the menu beside the bar of each monitor is open.
    pub menus_open: Vec<bool>,
    /// The time the clock shows.
    pub time: ClockTime,
    pub hyprland: HyprlandData,
    pub media: MediaData<H>,
}

/// Some menu is open.
pub open spec fn some_open(menus: Seq<bool>) -> bool {
    exists|i: int| 0 <= i < menus.len() && menus[i]
}

/// What reaches the media part of the bar.
pub enum MediaMessage<H> {
    /// A poll of the bus ended: the unique names found, and the players
    /// started for the new ones (see [`MediaData::new_players`]).
    Polled(Vec<String>, Vec<MediaPlayer<H>>),
    /// A player's watcher reported a change under the player's identity.
    Update(String, PlayerUpdate),
}

/// The menu button of one monitor's bar.
#[derive(Clone, Copy, Debug)]
pub struct MenuButton {
    /// Whether its menu is open.
    pub open: bool,
    pub classes: &'static str,
}

impl<H> BarData<H> {
    /// The bar at start: every menu closed, one per monitor.
    pub fn new(hyprland: HyprlandData, media: MediaData<H>, time: ClockTime) -> (data: Self)
        ensures
            data.menus_open@.len() == hyprland.monitors@.len(),
            forall|i: int| 0 <= i < data.menus_open@.len() ==> !data.menus_open@[i],
            data.time == time,
            data.hyprland == hyprland,
            data.media == media,
    {
        let n = hyprland.monitors.len();
        let menus_open = vec![false; n];
        BarData { menus_open, time, hyprland, media }
    }

    /// Whether some menu is open.
    pub fn menu_open(&self) -> (open: bool)
        ensures
            open == some_open(self.menus_open@),
    {
        let n = self.menus_open.len();
        for i in 0..n
            invariant
                n == self.menus_open@.len(),
                forall|j: int| 0 <= j < i ==> !self.menus_open@[j],
        {
            if self.menus_open[i] {
                return true;
            }
        }
        false
    }

    /// A click on the menu button of monitor `idx`: its menu opens or
    /// closes.
    pub fn toggle_menu(&mut self, idx: usize)
        requires
            idx < old(self).menus_open@.len(),
        ensures
            final(self).menus_open@ == old(self).menus_open@.update(
                idx as int,
                !old(self).menus_open@[idx as int],
            ),
            final(self).time == old(self).time,
            final(self).hyprland == old(self).hyprland,
            final(self).media == old(self).media,
    {
        let open = self.menus_open[idx];
        self.menus_open.set(idx, !open);
    }

    /// The clock ticked: it shows `now` and the bar is rebuilt; without an
    /// event nothing changes.
    pub fn time_event(&mut self, now: Option<ClockTime>) -> (action: Action)
        ensures
            action.rebuild == now is Some,
            final(self).time == (match now {
                Some(t) => t,
                None => old(self).time,
            }),
            final(self).menus_open == old(self).menus_open,
            final(self).hyprland == old(self).hyprland,
            final(self).media == old(self).media,
    {
        match now {
            Some(t) => {
                self.time = t;
                Action { rebuild: true }
            },
            None => Action { rebuild: false },
        }
    }

    /// Takes in what reached the media part; the bar is rebuilt only while a
    /// menu (which shows the players) is open.
    pub fn media_event(&mut self, message: Option<MediaMessage<H>>) -> (action: Action)
        ensures
            action.rebuild == (message is Some && some_open(old(self).menus_open@)),
            final(self).media.players@ == (match message {
                Some(MediaMessage::Polled(found, started)) => kept_players(
                    old(self).media.players@ + started@,
                    views(found@),
                    names_of(old(self).media.players@),
                ),
                Some(MediaMessage::Update(identity, update)) => players_after_update(
                    old(self).media.players@,
                    identity@,
                    update,
                ),
                None => old(self).media.players@,
            }),
            final(self).menus_open == old(self).menus_open,
            final(self).time == old(self).time,
            final(self).hyprland == old(self).hyprland,
    {
        match message {
            Some(MediaMessage::Polled(found, started)) => {
                self.media.finish_poll(&found, started);
                Action { rebuild: self.menu_open() }
            },
            Some(MediaMessage::Update(identity, update)) => {
                self.media.update_player(&identity, update);
                Action { rebuild: self.menu_open() }
            },
            None => Action { rebuild: false },
        }
    }
}

/// The menu button of the bar on monitor `idx`.
pub fn menu_button<H>(data: &BarData<H>, idx: usize) -> (button: MenuButton)
    requires
        idx < data.menus_open@.len(),
    ensures
        button.open == data.menus_open@[idx as int],
        button.classes@ == if data.menus_open@[idx as int] {
            "menu-button open"@
        } else {
            "menu-button closed"@
        },
{
    let open = data.menus_open[idx];
    let classes = if open {
        "menu-button open"
    } else {
        "menu-button closed"
    };
    MenuButton { open, classes }
}

/// Opening or closing a menu twice leaves every menu as it was.
pub proof fn law_toggle_twice_restores(menus: Seq<bool>, idx: int)
    requires
        0 <= idx < menus.len(),
    ensures
        menus.update(idx, !menus[idx]).update(idx, !menus.update(idx, !menus[idx])[idx])
            == menus,
{
    assert(menus.update(idx, !menus[idx]).update(idx, !menus.update(idx, !menus[idx])[idx])
        =~= menus);
}

/// Opening a menu makes some menu open; closing the only open one leaves
/// none open.
pub proof fn law_toggle_and_some_open(menus: Seq<bool>, idx: int)
    requires
        0 <= idx < menus.len(),
    ensures
        !menus[idx] ==> some_open(menus.update(idx, true)),
        (menus[idx] && forall|i: int| 0 <= i < menus.len() && i != idx ==> !menus[i])
            ==> !some_open(menus.update(idx, false)),
{
    if !menus[idx] {
        assert(menus.update(idx, true)[idx]);
    }
}

} // verus!
