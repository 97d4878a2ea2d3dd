# deskbar

A Wayland desktop shell made of two programs: a status bar beside each
monitor (workspace buttons, a clock, a menu with the media players) and a
notification popup.

- `src/` is the library, verified with Verus: everything the shell decides.
  - `hyprland`: the ten workspace slots, the style classes of each button,
    the request a click sends to the compositor, the icon layout of a button,
    and which refetches a compositor event triggers.
  - `icons`: the distinct icons of a workspace, ordered by their paths
    component by component.
  - `media`: which media players are tracked after a poll of the session bus,
    how a player's reported changes are taken in, and the labels and controls
    of a player.
  - `notify`: the notifications shown, newest first; arrivals replace by id,
    closes remove by id and generation; the service's choices of urgency,
    id and expiry.
  - `bar`: the state of the bar as a whole (menus, clock, players).
  - `overview`: the plain workspace list.
  - `text`, `time`: decimal numbers, two-digit fields, joined lists, clock
    labels.
- `tests/` runs the library on concrete values.
- `app/` is the program: it reads the compositor, the session bus and the
  clock, draws with ori, and hands the library plain values.
