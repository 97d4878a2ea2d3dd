//! The workspace column of the bar: which of the ten workspaces exist, how
//! each button is styled, what a click asks of the compositor, and how the
//! icons of a workspace's windows are laid out.
use vstd::prelude::*;

use crate::text::{decimal, decimal_string};
use crate::Action;

verus! {

/// The number of workspace slots shown in the column.
pub const WORKSPACE_SLOTS: i32 = 10;

/// What the bar reads of a workspace of the compositor.
#[derive(Clone, Copy, Debug, PartialEq, Eq, Structural)]
pub struct WorkspaceInfo {
    pub id: i32,
    /// The number of windows on it.
    pub windows: u16,
}

/// What the bar reads of a monitor.
#[derive(Clone, Copy, Debug, PartialEq, Eq, Structural)]
pub struct MonitorInfo {
    pub id: i128,
    /// The id of the workspace shown on it.
    pub active_workspace: i32,
}

/// What the bar reads of a window.
#[derive(Debug)]
pub struct ClientInfo {
    /// The id of the workspace it is on.
    pub workspace: i32,
    /// Its window class, by which its icon is looked up.
    pub class: String,
}

/// How workspaces are drawn.
#[derive(Clone, Copy, Debug, PartialEq, Eq, Hash, Structural)]
pub enum WorkspaceMode {
    Icons,
    Line,
}

/// `j` is the first position of `s` that holds the workspace `id`.
pub open spec fn is_first_with_id(s: Seq<WorkspaceInfo>, j: int, id: int) -> bool {
    &&& 0 <= j < s.len()
    &&& s[j].id == id
    &&& forall|i: int| 0 <= i < j ==> s[i].id != id
}

/// The first workspace of `s` with the given id, if there is one.
pub open spec fn first_with_id(s: Seq<WorkspaceInfo>, id: int) -> Option<WorkspaceInfo> {
    if exists|j: int| is_first_with_id(s, j, id) {
        Some(s[choose|j: int| is_first_with_id(s, j, id)])
    } else {
        None
    }
}

/// The slots of the column: slot `k` holds the workspace numbered `k + 1`.
pub open spec fn arranged(actual: Seq<WorkspaceInfo>) -> Seq<Option<WorkspaceInfo>> {
    Seq::new(WORKSPACE_SLOTS as nat, |k: int| first_with_id(actual, k + 1))
}

proof fn lemma_first_unique(s: Seq<WorkspaceInfo>, a: int, b: int, id: int)
    requires
        is_first_with_id(s, a, id),
        is_first_with_id(s, b, id),
    ensures
        a == b,
{
    if a < b {
        assert(s[a].id != id);
    } else if b < a {
        assert(s[b].id != id);
    }
}

/// A workspace with the given id has a first one.
proof fn lemma_first_exists(s: Seq<WorkspaceInfo>, j: int, id: int)
    requires
        0 <= j < s.len(),
        s[j].id == id,
    ensures
        exists|f: int| is_first_with_id(s, f, id),
    decreases j,
{
    if exists|i: int| 0 <= i < j && s[i].id == id {
        let i = choose|i: int| 0 <= i < j && s[i].id == id;
        lemma_first_exists(s, i, id);
    } else {
        assert(is_first_with_id(s, j, id));
    }
}

/// Each slot of the column holds a reported workspace numbered after the
/// slot, and every reported workspace numbered 1 to 10 fills its slot.
pub proof fn law_slots_hold_their_number(actual: Seq<WorkspaceInfo>)
    ensures
        arranged(actual).len() == WORKSPACE_SLOTS,
        forall|k: int|
            0 <= k < WORKSPACE_SLOTS ==> (#[trigger] arranged(actual)[k] matches Some(w) ==> (w.id
                == k + 1 && actual.contains(w))),
        forall|i: int|
            0 <= i < actual.len() && 1 <= #[trigger] actual[i].id <= WORKSPACE_SLOTS
                ==> arranged(actual)[actual[i].id - 1] is Some,
{
    assert forall|k: int| 0 <= k < WORKSPACE_SLOTS implies (#[trigger] arranged(actual)[k] matches Some(
        w,
    ) ==> (w.id == k + 1 && actual.contains(w))) by {
        let id = k + 1;
        if exists|j: int| is_first_with_id(actual, j, id) {
            let j = choose|j: int| is_first_with_id(actual, j, id);
            assert(arranged(actual)[k] == Some(actual[j]));
        }
    }
    assert forall|i: int|
        0 <= i < actual.len() && 1 <= #[trigger] actual[i].id <= WORKSPACE_SLOTS
            implies arranged(actual)[actual[i].id - 1] is Some by {
        lemma_first_exists(actual, i, actual[i].id as int);
    }
}

/// Finds the first workspace with the given id.
fn find_workspace(actual: &Vec<WorkspaceInfo>, id: i32) -> (r: Option<WorkspaceInfo>)
    ensures
        r == first_with_id(actual@, id as int),
{
    let n = actual.len();
    for i in 0..n
        invariant
            n == actual@.len(),
            forall|j: int| 0 <= j < i ==> actual@[j].id != id,
    {
        if actual[i].id == id {
            let w = actual[i];
            proof {
                assert(is_first_with_id(actual@, i as int, id as int));
                let c = choose|j: int| is_first_with_id(actual@, j, id as int);
                lemma_first_unique(actual@, c, i as int, id as int);
            }
            return Some(w);
        }
    }
    assert(!exists|j: int| is_first_with_id(actual@, j, id as int));
    None
}

/// Puts the workspaces the compositor reports into the ten slots of the
/// column: slot `k` holds the first reported workspace numbered `k + 1`, or
/// nothing when there is none.
pub fn arrange_workspaces(actual: &Vec<WorkspaceInfo>) -> (slots: Vec<Option<WorkspaceInfo>>)
    ensures
        slots@ == arranged(actual@),
{
    let mut slots: Vec<Option<WorkspaceInfo>> = Vec::new();
    let mut id: i32 = 1;
    while id <= WORKSPACE_SLOTS
        invariant
            1 <= id <= WORKSPACE_SLOTS + 1,
            slots@.len() == id - 1,
            forall|k: int| 0 <= k < id - 1 ==> slots@[k] == first_with_id(actual@, k + 1),
        decreases WORKSPACE_SLOTS + 1 - id,
    {
        let w = find_workspace(actual, id);
        slots.push(w);
        id = id + 1;
    }
    assert(slots@ =~= arranged(actual@));
    slots
}

/// Some monitor of the list shows the workspace `id`.
pub open spec fn shown_on_some(monitors: Seq<MonitorInfo>, id: int) -> bool {
    exists|i: int| 0 <= i < monitors.len() && monitors[i].active_workspace == id
}

/// The style classes of a workspace's button: `base`, then `active` when the
/// bar's own monitor shows it, else `other` when another monitor shows it,
/// else `used` when it holds windows.
pub open spec fn classes_of(
    monitors: Seq<MonitorInfo>,
    monitor: MonitorInfo,
    workspace: WorkspaceInfo,
    base: Seq<char>,
) -> Seq<char> {
    if monitor.active_workspace == workspace.id {
        base + " active"@
    } else if shown_on_some(monitors, workspace.id as int) {
        base + " other"@
    } else if workspace.windows > 0 {
        base + " used"@
    } else {
        base
    }
}

/// Which class a workspace button gets: `active` exactly when the bar's own
/// monitor shows the workspace; otherwise `other` exactly when some monitor
/// of the list shows it, whatever its windows; otherwise `used` exactly when
/// it holds windows; otherwise the base class alone.
pub proof fn law_workspace_class_precedence(
    monitors: Seq<MonitorInfo>,
    monitor: MonitorInfo,
    workspace: WorkspaceInfo,
    base: Seq<char>,
)
    ensures
        monitor.active_workspace == workspace.id ==> classes_of(monitors, monitor, workspace, base)
            == base + " active"@,
        (monitor.active_workspace != workspace.id && exists|i: int|
            0 <= i < monitors.len() && #[trigger] monitors[i].active_workspace == workspace.id)
            ==> classes_of(monitors, monitor, workspace, base) == base + " other"@,
        (monitor.active_workspace != workspace.id && (forall|i: int|
            0 <= i < monitors.len() ==> #[trigger] monitors[i].active_workspace != workspace.id)
            && workspace.windows > 0) ==> classes_of(monitors, monitor, workspace, base) == base
            + " used"@,
        (monitor.active_workspace != workspace.id && (forall|i: int|
            0 <= i < monitors.len() ==> #[trigger] monitors[i].active_workspace != workspace.id)
            && workspace.windows == 0) ==> classes_of(monitors, monitor, workspace, base) == base,
{
}

/// Whether some monitor of the list shows the workspace `id`.
fn any_shows(monitors: &Vec<MonitorInfo>, id: i32) -> (r: bool)
    ensures
        r == shown_on_some(monitors@, id as int),
{
    let n = monitors.len();
    for i in 0..n
        invariant
            n == monitors@.len(),
            forall|j: int| 0 <= j < i ==> monitors@[j].active_workspace != id,
    {
        if monitors[i].active_workspace == id {
            return true;
        }
    }
    false
}

/// The style classes of a workspace's button on the bar of `monitor`.
pub fn workspace_classes(
    monitors: &Vec<MonitorInfo>,
    monitor: &MonitorInfo,
    workspace: &WorkspaceInfo,
    base: &str,
) -> (classes: String)
    ensures
        classes@ == classes_of(monitors@, *monitor, *workspace, base@),
{
    let mut classes = String::new();
    classes.append(base);
    if monitor.active_workspace == workspace.id {
        classes.append(" active");
    } else if any_shows(monitors, workspace.id) {
        classes.append(" other");
    } else if workspace.windows > 0 {
        classes.append(" used");
    }
    classes
}

/// A request to the compositor's dispatcher.
#[derive(Debug)]
pub struct DispatchRequest {
    pub dispatcher: String,
    pub argument: String,
}

/// The request a click on the button of workspace `id` sends: show that
/// workspace on the monitor that has the focus.
pub fn focus_workspace(id: i32) -> (request: DispatchRequest)
    ensures
        request.dispatcher@ == "focusworkspaceoncurrentmonitor"@,
        request.argument@ == decimal(id as int),
{
    let mut dispatcher = String::new();
    dispatcher.append("focusworkspaceoncurrentmonitor");
    DispatchRequest { dispatcher, argument: decimal_string(id) }
}

/// The class that a workspace button starts with when the workspace holds
/// something.
pub open spec fn occupied_base(mode: WorkspaceMode) -> Seq<char> {
    match mode {
        WorkspaceMode::Icons => "workspace-icons"@,
        WorkspaceMode::Line => "workspace-line"@,
    }
}

/// The class of a workspace button when the workspace does not exist.
pub open spec fn empty_class(mode: WorkspaceMode) -> Seq<char> {
    match mode {
        WorkspaceMode::Icons => "workspace"@,
        WorkspaceMode::Line => "workspace-line"@,
    }
}

/// The space between the buttons of the column, where one is set.
pub open spec fn column_spacing(mode: WorkspaceMode) -> Option<u32> {
    match mode {
        WorkspaceMode::Icons => Some(10),
        WorkspaceMode::Line => None,
    }
}

/// One button of the workspace column.
#[derive(Debug)]
pub struct WorkspaceButton {
    /// The workspace that a click shows.
    pub workspace: i32,
    /// Whether the workspace exists (its button then shows its windows).
    pub occupied: bool,
    /// Its style classes.
    pub classes: String,
}

/// The workspace column of one monitor's bar.
#[derive(Debug)]
pub struct WorkspaceColumn {
    /// The space between buttons, where one is set.
    pub spacing: Option<u32>,
    /// One button per slot, top to bottom.
    pub buttons: Vec<WorkspaceButton>,
}

/// The button of slot `k` holding `slot`.
pub open spec fn is_button_for(
    b: WorkspaceButton,
    mode: WorkspaceMode,
    monitors: Seq<MonitorInfo>,
    monitor: MonitorInfo,
    slot: Option<WorkspaceInfo>,
    k: int,
) -> bool {
    match slot {
        Some(w) => {
            &&& b.workspace == w.id
            &&& b.occupied
            &&& b.classes@ == classes_of(monitors, monitor, w, occupied_base(mode))
        },
        None => {
            &&& b.workspace == k + 1
            &&& !b.occupied
            &&& b.classes@ == empty_class(mode)
        },
    }
}

/// The state of the bar's view of the compositor.
pub struct HyprlandData {
    pub workspace_mode: WorkspaceMode,
    /// The slots of the column (see [`arrange_workspaces`]).
    pub workspaces: Vec<Option<WorkspaceInfo>>,
    pub monitors: Vec<MonitorInfo>,
    pub clients: Vec<ClientInfo>,
}

/// The data refetched from the compositor after it reported a change.
pub enum HyprlandRefresh {
    Workspaces(Vec<WorkspaceInfo>),
    Monitors(Vec<MonitorInfo>),
    Clients(Vec<ClientInfo>),
}

impl HyprlandData {
    /// The state built from what the compositor reports at start: the
    /// column drawn as lines, its slots filled from `workspaces`.
    pub fn new(
        workspaces: Vec<WorkspaceInfo>,
        monitors: Vec<MonitorInfo>,
        clients: Vec<ClientInfo>,
    ) -> (data: Self)
        ensures
            data.workspace_mode == WorkspaceMode::Line,
            data.workspaces@ == arranged(workspaces@),
            data.monitors@ == monitors@,
            data.clients@ == clients@,
    {
        HyprlandData {
            workspace_mode: WorkspaceMode::Line,
            workspaces: arrange_workspaces(&workspaces),
            monitors,
            clients,
        }
    }

    /// Takes in what was refetched after a change; without an event nothing
    /// changes and nothing is rebuilt.
    pub fn handle_event(&mut self, refresh: Option<HyprlandRefresh>) -> (action: Action)
        ensures
            action.rebuild == refresh is Some,
            final(self).workspace_mode == old(self).workspace_mode,
            final(self).workspaces@ == (match refresh {
                Some(HyprlandRefresh::Workspaces(w)) => arranged(w@),
                _ => old(self).workspaces@,
            }),
            final(self).monitors@ == (match refresh {
                Some(HyprlandRefresh::Monitors(m)) => m@,
                _ => old(self).monitors@,
            }),
            final(self).clients@ == (match refresh {
                Some(HyprlandRefresh::Clients(c)) => c@,
                _ => old(self).clients@,
            }),
    {
        match refresh {
            Some(HyprlandRefresh::Workspaces(w)) => {
                self.workspaces = arrange_workspaces(&w);
                Action { rebuild: true }
            },
            Some(HyprlandRefresh::Monitors(m)) => {
                self.monitors = m;
                Action { rebuild: true }
            },
            Some(HyprlandRefresh::Clients(c)) => {
                self.clients = c;
                Action { rebuild: true }
            },
            None => Action { rebuild: false },
        }
    }
}

/// The workspace column of the bar on `monitor`: one button per slot, in the
/// drawing mode of `data`.
pub fn workspaces(data: &HyprlandData, monitor: &MonitorInfo) -> (column: WorkspaceColumn)
    requires
        data.workspaces@.len() <= i32::MAX,
    ensures
        column.spacing == column_spacing(data.workspace_mode),
        column.buttons@.len() == data.workspaces@.len(),
        forall|k: int|
            0 <= k < data.workspaces@.len() ==> is_button_for(
                #[trigger] column.buttons@[k],
                data.workspace_mode,
                data.monitors@,
                *monitor,
                data.workspaces@[k],
                k,
            ),
{
    let mode = data.workspace_mode;
    let mut buttons: Vec<WorkspaceButton> = Vec::new();
    let n = data.workspaces.len();
    for i in 0..n
        invariant
            n == data.workspaces@.len(),
            n <= i32::MAX,
            mode == data.workspace_mode,
            buttons@.len() == i,
            forall|k: int|
                0 <= k < i ==> is_button_for(
                    #[trigger] buttons@[k],
                    mode,
                    data.monitors@,
                    *monitor,
                    data.workspaces@[k],
                    k,
                ),
    {
        let button = match data.workspaces[i] {
            Some(w) => {
                let base = match mode {
                    WorkspaceMode::Icons => "workspace-icons",
                    WorkspaceMode::Line => "workspace-line",
                };
                let classes = workspace_classes(&data.monitors, monitor, &w, base);
                WorkspaceButton { workspace: w.id, occupied: true, classes }
            },
            None => {
                let mut classes = String::new();
                match mode {
                    WorkspaceMode::Icons => classes.append("workspace"),
                    WorkspaceMode::Line => classes.append("workspace-line"),
                }
                WorkspaceButton { workspace: i as i32 + 1, occupied: false, classes }
            },
        };
        buttons.push(button);
    }
    let spacing = match mode {
        WorkspaceMode::Icons => Some(10),
        WorkspaceMode::Line => None,
    };
    WorkspaceColumn { spacing, buttons }
}

/// Slot `k` holds the first reported workspace numbered `k + 1`: no
/// workspace reported before it has that number.
pub proof fn law_slot_holds_first_reported(actual: Seq<WorkspaceInfo>, k: int)
    requires
        0 <= k < WORKSPACE_SLOTS,
    ensures
        arranged(actual)[k] matches Some(w) ==> exists|j: int|
            0 <= j < actual.len() && #[trigger] actual[j] == w && forall|i: int|
                0 <= i < j ==> #[trigger] actual[i].id != k + 1,
{
    let id = k + 1;
    if exists|j: int| is_first_with_id(actual, j, id) {
        let j = choose|j: int| is_first_with_id(actual, j, id);
        assert(actual[j] == actual[j]);
    }
}

/// The buttons of the column: an empty slot's button has the class
/// `workspace` when drawn with icons and `workspace-line` when drawn as a
/// line; an occupied one starts with `workspace-icons` or `workspace-line`;
/// only the icon column sets a spacing, of 10.
pub proof fn law_column_classes(
    b: WorkspaceButton,
    mode: WorkspaceMode,
    monitors: Seq<MonitorInfo>,
    monitor: MonitorInfo,
    slot: Option<WorkspaceInfo>,
    k: int,
)
    requires
        is_button_for(b, mode, monitors, monitor, slot, k),
    ensures
        slot is None ==> b.classes@ == (if mode == WorkspaceMode::Icons {
            "workspace"@
        } else {
            "workspace-line"@
        }),
        slot matches Some(w) ==> b.classes@ == classes_of(
            monitors,
            monitor,
            w,
            if mode == WorkspaceMode::Icons {
                "workspace-icons"@
            } else {
                "workspace-line"@
            },
        ),
        column_spacing(mode) == (if mode == WorkspaceMode::Icons {
            Some(10u32)
        } else {
            None
        }),
{
}

/// In a column drawn from arranged slots, a click on the button of slot `k`
/// always shows workspace `k + 1`, whether or not it exists.
pub proof fn law_button_focuses_its_number(
    actual: Seq<WorkspaceInfo>,
    b: WorkspaceButton,
    mode: WorkspaceMode,
    monitors: Seq<MonitorInfo>,
    monitor: MonitorInfo,
    k: int,
)
    requires
        0 <= k < WORKSPACE_SLOTS,
        is_button_for(b, mode, monitors, monitor, arranged(actual)[k], k),
    ensures
        b.workspace == k + 1,
{
    law_slots_hold_their_number(actual);
    assert(arranged(actual)[k] == arranged(actual)[k]);
}

/// The classes of the windows on workspace `id`, in the order of `clients`.
pub open spec fn classes_on(clients: Seq<ClientInfo>, id: int) -> Seq<Seq<char>>
    decreases clients.len(),
{
    if clients.len() == 0 {
        Seq::empty()
    } else {
        let rest = classes_on(clients.drop_last(), id);
        if clients.last().workspace == id {
            rest.push(clients.last().class@)
        } else {
            rest
        }
    }
}

/// The classes looked up for a workspace are exactly those of the windows on
/// it: windows on other workspaces, and the order of the windows, do not
/// change which classes are looked up.
pub proof fn law_classes_on_members(clients: Seq<ClientInfo>, id: int)
    ensures
        forall|x: Seq<char>|
            classes_on(clients, id).contains(x) <==> exists|i: int|
                0 <= i < clients.len() && #[trigger] clients[i].workspace == id && clients[i].class@
                    == x,
    decreases clients.len(),
{
    if clients.len() > 0 {
        let d = clients.drop_last();
        law_classes_on_members(d, id);
        let rest = classes_on(d, id);
        let all = classes_on(clients, id);
        assert forall|x: Seq<char>| all.contains(x) <==> exists|i: int|
            0 <= i < clients.len() && #[trigger] clients[i].workspace == id && clients[i].class@
                == x by {
            if all.contains(x) {
                let j = choose|j: int| 0 <= j < all.len() && all[j] == x;
                if j < rest.len() {
                    assert(all[j] == rest[j]);
                    assert(rest.contains(x));
                    let i = choose|i: int|
                        0 <= i < d.len() && #[trigger] d[i].workspace == id && d[i].class@ == x;
                    assert(clients[i] == d[i]);
                } else {
                    assert(clients[clients.len() - 1].workspace == id);
                }
            }
            if exists|i: int|
                0 <= i < clients.len() && #[trigger] clients[i].workspace == id && clients[i].class@
                    == x {
                let i = choose|i: int|
                    0 <= i < clients.len() && #[trigger] clients[i].workspace == id
                        && clients[i].class@ == x;
                if i < d.len() {
                    assert(d[i] == clients[i]);
                    assert(rest.contains(x));
                    let j = choose|j: int| 0 <= j < rest.len() && rest[j] == x;
                    assert(all[j] == x);
                } else {
                    assert(all[rest.len() as int] == x);
                }
            }
        }
    }
}

/// The classes looked up for a workspace are those of the windows on it, in
/// the order of the windows: the window list filtered by workspace, read for
/// its classes.
pub proof fn law_classes_on_in_order(clients: Seq<ClientInfo>, id: int)
    ensures
        classes_on(clients, id) == clients.filter(|c: ClientInfo| c.workspace == id).map_values(
            |c: ClientInfo| c.class@,
        ),
    decreases clients.len(),
{
    reveal(Seq::filter);
    if clients.len() > 0 {
        law_classes_on_in_order(clients.drop_last(), id);
        let f = clients.drop_last().filter(|c: ClientInfo| c.workspace == id);
        if clients.last().workspace == id {
            assert(f.push(clients.last()).map_values(|c: ClientInfo| c.class@) =~= f.map_values(
                |c: ClientInfo| c.class@,
            ).push(clients.last().class@));
        }
    }
}

/// The classes of the windows on workspace `id`, by which their icons are
/// looked up.
pub fn workspace_client_classes(clients: &Vec<ClientInfo>, id: i32) -> (classes: Vec<String>)
    ensures
        crate::text::views(classes@) == classes_on(clients@, id as int),
{
    let mut classes: Vec<String> = Vec::new();
    let n = clients.len();
    assert(clients@.take(0) =~= Seq::<ClientInfo>::empty());
    assert(crate::text::views(classes@) =~= Seq::<Seq<char>>::empty());
    for i in 0..n
        invariant
            n == clients@.len(),
            crate::text::views(classes@) == classes_on(clients@.take(i as int), id as int),
    {
        assert(clients@.take(i + 1).drop_last() =~= clients@.take(i as int));
        if clients[i].workspace == id {
            let ghost before = classes@;
            classes.push(clients[i].class.clone());
            assert(crate::text::views(classes@) =~= crate::text::views(before).push(
                clients@[i as int].class@,
            ));
        }
    }
    assert(clients@.take(n as int) =~= clients@);
    classes
}

/// How the icons of a workspace's windows are laid out in its button.
pub enum IconGrid<T> {
    /// No icon.
    Empty,
    /// One row of one or two icons.
    Row(Vec<T>),
    /// A row of two icons above a row of the rest.
    Rows(T, T, Vec<T>),
}

/// Lays out up to four distinct icons: none, one row of one or two, or two
/// rows of which the first holds the first two icons.
pub fn icon_grid<T>(icons: Vec<T>) -> (grid: IconGrid<T>)
    requires
        icons@.len() <= 4,
    ensures
        icons@.len() == 0 ==> grid is Empty,
        1 <= icons@.len() <= 2 ==> (grid matches IconGrid::Row(row) && row@ == icons@),
        3 <= icons@.len() ==> (grid matches IconGrid::Rows(a, b, rest) && seq![a, b] + rest@
            == icons@),
{
    let n = icons.len();
    if n == 0 {
        IconGrid::Empty
    } else if n <= 2 {
        IconGrid::Row(icons)
    } else {
        let ghost all = icons@;
        let mut rest = icons;
        let a = rest.remove(0);
        let b = rest.remove(0);
        assert(seq![a, b] + rest@ =~= all);
        IconGrid::Rows(a, b, rest)
    }
}

/// An event of the compositor that the bar listens to.
#[derive(Clone, Copy, Debug, PartialEq, Eq, Structural)]
pub enum CompositorEvent {
    WorkspaceChanged,
    WindowOpened,
    WindowMoved,
    WindowClosed,
}

/// A change of the compositor's state that the bar must refetch.
#[derive(Clone, Copy, Debug, PartialEq, Eq, Structural)]
pub enum HyprlandMessage {
    ClientsChanged,
    WorkspacesChanged,
    MonitorsChanged,
}

/// The changes an event of the compositor signals, in the order they are
/// sent: a workspace change refetches the workspaces and then the monitors;
/// a window opened, moved or closed refetches the windows.
pub fn listener_messages(event: CompositorEvent) -> (messages: Vec<HyprlandMessage>)
    ensures
        messages@ == (match event {
            CompositorEvent::WorkspaceChanged => seq![
                HyprlandMessage::WorkspacesChanged,
                HyprlandMessage::MonitorsChanged,
            ],
            _ => seq![HyprlandMessage::ClientsChanged],
        }),
{
    let mut messages = Vec::new();
    match event {
        CompositorEvent::WorkspaceChanged => {
            messages.push(HyprlandMessage::WorkspacesChanged);
            messages.push(HyprlandMessage::MonitorsChanged);
        },
        _ => {
            messages.push(HyprlandMessage::ClientsChanged);
        },
    }
    assert(messages@ =~= (match event {
        CompositorEvent::WorkspaceChanged => seq![
            HyprlandMessage::WorkspacesChanged,
            HyprlandMessage::MonitorsChanged,
        ],
        _ => seq![HyprlandMessage::ClientsChanged],
    }));
    messages
}

} // verus!
