//! The state of the compositor, in one shape for all of them.
//!
//! Each supported compositor has a module that maps what it says onto these shapes. This one
//! decides which is asked, and in which order the result stands.

pub mod hyprland;
pub mod ipc;
pub mod niri;
pub mod sway;
pub mod wmctrl;

use vstd::prelude::*;
use vstd::string::*;

use crate::amount::{amount_of, same_number, worth, worth_of_text, Amount};
use crate::compositor::ipc::{
    hypr_window_dispatch, hypr_workspace_dispatch, is_window_dispatch, is_workspace_dispatch,
    Dispatch,
};
use crate::json::{Json, Number, Value};
use crate::number::{decimal, decimal_int, parse_i64, signed_of, write_i64};
use crate::order::{
    before, comes_before, comes_before_is_weak, index_before, is_arrangement, picked, reorder,
    sorted_order, Ranked,
};
use crate::text::{
    after_first, before_first, contains, first_of, has, lower_of, lowercase, maybe, occurs_at,
    same, split_first, texts,
};

verus! {

/// How many milliseconds lie between two looks at a compositor that reports no events.
pub const POLL_INTERVAL_MS: u64 = 500;

/// A window.
#[derive(Debug)]
pub struct Window {
    /// The handle with its backend in front, such as `hypr:0x5a6557dd9b40`.
    pub id: String,
    pub app_id: String,
    pub title: String,
    /// The name of the workspace, empty where it is not reported.
    pub workspace: String,
    /// The name of the monitor, empty where it is not reported.
    pub monitor: String,
    pub focused: bool,
    pub floating: bool,
    /// The position on the workspace, zero where it is not reported.
    pub x: i64,
    pub y: i64,
}

/// What a window is.
#[verifier::ext_equal]
pub struct WindowModel {
    pub id: Seq<char>,
    pub app_id: Seq<char>,
    pub title: Seq<char>,
    pub workspace: Seq<char>,
    pub monitor: Seq<char>,
    pub focused: bool,
    pub floating: bool,
    pub x: int,
    pub y: int,
}

impl View for Window {
    type V = WindowModel;

    open spec fn view(&self) -> WindowModel {
        WindowModel {
            id: self.id@,
            app_id: self.app_id@,
            title: self.title@,
            workspace: self.workspace@,
            monitor: self.monitor@,
            focused: self.focused,
            floating: self.floating,
            x: self.x as int,
            y: self.y as int,
        }
    }
}

/// Where a window is on screen, in pixels of the layout of the outputs.
#[derive(Debug)]
pub struct WindowRegion {
    pub id: String,
    pub app_id: String,
    pub title: String,
    pub monitor: String,
    pub focused: bool,
    pub x: i64,
    pub y: i64,
    pub width: i64,
    pub height: i64,
}

/// What the region of a window is.
#[verifier::ext_equal]
pub struct RegionModel {
    pub id: Seq<char>,
    pub app_id: Seq<char>,
    pub title: Seq<char>,
    pub monitor: Seq<char>,
    pub focused: bool,
    pub x: int,
    pub y: int,
    pub width: int,
    pub height: int,
}

impl View for WindowRegion {
    type V = RegionModel;

    open spec fn view(&self) -> RegionModel {
        RegionModel {
            id: self.id@,
            app_id: self.app_id@,
            title: self.title@,
            monitor: self.monitor@,
            focused: self.focused,
            x: self.x as int,
            y: self.y as int,
            width: self.width as int,
            height: self.height as int,
        }
    }
}

/// A rectangle as the tools that select and capture write it.
pub open spec fn geometry_text(x: int, y: int, width: int, height: int) -> Seq<char> {
    decimal_int(x) + ","@ + decimal_int(y) + " "@ + decimal_int(width) + "x"@ + decimal_int(height)
}

impl WindowRegion {
    /// The rectangle as the tools that select and capture write it.
    pub fn geometry(&self) -> (r: String)
        ensures
            r@ == geometry_text(
                self.x as int,
                self.y as int,
                self.width as int,
                self.height as int,
            ),
    {
        let mut out = write_i64(self.x);
        out.append(",");
        out.append(write_i64(self.y).as_str());
        out.append(" ");
        out.append(write_i64(self.width).as_str());
        out.append("x");
        out.append(write_i64(self.height).as_str());
        out
    }
}

/// A workspace.
#[derive(Debug)]
pub struct Workspace {
    pub id: String,
    pub name: String,
    pub monitor: String,
    pub active: bool,
    pub urgent: bool,
    pub windows: u32,
}

/// What a workspace is.
#[verifier::ext_equal]
pub struct WorkspaceModel {
    pub id: Seq<char>,
    pub name: Seq<char>,
    pub monitor: Seq<char>,
    pub active: bool,
    pub urgent: bool,
    pub windows: int,
}

impl View for Workspace {
    type V = WorkspaceModel;

    open spec fn view(&self) -> WorkspaceModel {
        WorkspaceModel {
            id: self.id@,
            name: self.name@,
            monitor: self.monitor@,
            active: self.active,
            urgent: self.urgent,
            windows: self.windows as int,
        }
    }
}

/// A monitor.
#[derive(Debug)]
pub struct Monitor {
    pub id: String,
    pub name: String,
    pub width: i64,
    pub height: i64,
    /// The scale as it was reported.
    pub scale: Number,
    pub focused: bool,
}

/// What a monitor is.
#[verifier::ext_equal]
pub struct MonitorModel {
    pub id: Seq<char>,
    pub name: Seq<char>,
    pub width: int,
    pub height: int,
    /// What the scale is worth, however it was written.
    pub scale: Amount,
    pub focused: bool,
}

impl View for Monitor {
    type V = MonitorModel;

    open spec fn view(&self) -> MonitorModel {
        MonitorModel {
            id: self.id@,
            name: self.name@,
            width: self.width as int,
            height: self.height as int,
            scale: amount_of(self.scale),
            focused: self.focused,
        }
    }
}

/// The scale that a field reports, or one where it reports none.
pub open spec fn scale_of(field: Option<Json>) -> Amount {
    match field {
        Some(Json::Whole(n)) => worth(
            n < 0,
            decimal(
                if n < 0 {
                    (-n) as nat
                } else {
                    n as nat
                },
            ),
            0,
        ),
        Some(Json::Decimal(s)) => worth_of_text(s),
        _ => worth_of_text("1.0"@),
    }
}

/// The scale that a field reports.
pub fn read_scale(field: Option<&Value>) -> (r: Number)
    ensures
        amount_of(r) == scale_of(
            match field {
                Some(v) => Some(v@),
                None => None,
            },
        ),
{
    match field {
        Some(Value::Number(Number::Unsigned(n))) => Number::Unsigned(*n),
        Some(Value::Number(Number::Negative(n))) => Number::Negative(*n),
        Some(Value::Number(Number::Decimal(s))) => Number::Decimal(s.clone()),
        _ => Number::Decimal("1.0".to_owned()),
    }
}

/// What windows are.
pub open spec fn window_models(windows: Seq<Window>) -> Seq<WindowModel> {
    windows.map_values(|w: Window| w@)
}

/// What workspaces are.
pub open spec fn workspace_models(workspaces: Seq<Workspace>) -> Seq<WorkspaceModel> {
    workspaces.map_values(|w: Workspace| w@)
}

/// What monitors are.
pub open spec fn monitor_models(monitors: Seq<Monitor>) -> Seq<MonitorModel> {
    monitors.map_values(|m: Monitor| m@)
}

/// What regions are.
pub open spec fn region_models(regions: Seq<WindowRegion>) -> Seq<RegionModel> {
    regions.map_values(|r: WindowRegion| r@)
}

/// The compositors that are supported.
#[derive(Debug, Clone, Copy, PartialEq, Eq, Structural)]
pub enum Backend {
    Hypr,
    Niri,
    Sway,
    Wmctrl,
}

/// The name of a backend, which stands in front of every id that it hands out.
pub open spec fn backend_name(backend: Backend) -> Seq<char> {
    match backend {
        Backend::Hypr => "hypr"@,
        Backend::Niri => "niri"@,
        Backend::Sway => "sway"@,
        Backend::Wmctrl => "wmctrl"@,
    }
}

impl Backend {
    /// The name of the backend.
    pub fn name(self) -> (r: &'static str)
        ensures
            r@ == backend_name(self),
    {
        match self {
            Backend::Hypr => "hypr",
            Backend::Niri => "niri",
            Backend::Sway => "sway",
            Backend::Wmctrl => "wmctrl",
        }
    }
}

/// The compositor that the desktop's name points to.
pub open spec fn desktop_backend(desktop: Option<Seq<char>>) -> Option<Backend> {
    match desktop {
        None => None,
        Some(name) => if has(lower_of(name), "hypr"@) {
            Some(Backend::Hypr)
        } else if has(lower_of(name), "sway"@) {
            Some(Backend::Sway)
        } else if has(lower_of(name), "niri"@) {
            Some(Backend::Niri)
        } else {
            None
        },
    }
}

/// The compositor that the environment advertises, given which variables are set.
pub open spec fn advertised(
    hypr: bool,
    sway: bool,
    niri: bool,
    desktop: Option<Seq<char>>,
) -> Option<Backend> {
    if hypr {
        Some(Backend::Hypr)
    } else if sway {
        Some(Backend::Sway)
    } else if niri {
        Some(Backend::Niri)
    } else {
        desktop_backend(desktop)
    }
}

/// The compositor that the environment advertises: by the variable of one of them, and otherwise
/// by the name of the desktop.
pub fn preferred_from_env(hypr: bool, sway: bool, niri: bool, desktop: Option<&str>) -> (r: Option<
    Backend,
>)
    ensures
        r == advertised(hypr, sway, niri, maybe(desktop)),
{
    if hypr {
        return Some(Backend::Hypr);
    }
    if sway {
        return Some(Backend::Sway);
    }
    if niri {
        return Some(Backend::Niri);
    }
    match desktop {
        None => None,
        Some(name) => {
            let lower = lowercase(name);
            if contains(lower.as_str(), "hypr") {
                Some(Backend::Hypr)
            } else if contains(lower.as_str(), "sway") {
                Some(Backend::Sway)
            } else if contains(lower.as_str(), "niri") {
                Some(Backend::Niri)
            } else {
                None
            }
        },
    }
}

/// Every backend, in the order in which they are asked.
pub open spec fn asking_order(preferred: Option<Backend>) -> Seq<Backend> {
    match preferred {
        Some(Backend::Sway) => seq![
            Backend::Sway,
            Backend::Hypr,
            Backend::Niri,
            Backend::Wmctrl,
        ],
        Some(Backend::Niri) => seq![
            Backend::Niri,
            Backend::Hypr,
            Backend::Sway,
            Backend::Wmctrl,
        ],
        _ => seq![Backend::Hypr, Backend::Niri, Backend::Sway, Backend::Wmctrl],
    }
}

/// Every backend, in the order in which they are asked: the one that is advertised first. The rest
/// follow, because a service need not have the variables, and whether one answers is the only
/// test.
pub fn backends(preferred: Option<Backend>) -> (r: Vec<Backend>)
    ensures
        r@ == asking_order(preferred),
{
    let r = match preferred {
        Some(Backend::Sway) => vec![Backend::Sway, Backend::Hypr, Backend::Niri, Backend::Wmctrl],
        Some(Backend::Niri) => vec![Backend::Niri, Backend::Hypr, Backend::Sway, Backend::Wmctrl],
        _ => vec![Backend::Hypr, Backend::Niri, Backend::Sway, Backend::Wmctrl],
    };
    assert(r@ =~= asking_order(preferred));
    r
}

/// Whatever is advertised, every backend is asked, each once, and the one that is advertised
/// first unless it is the last resort.
pub proof fn every_backend_is_asked_once(preferred: Option<Backend>, backend: Backend)
    ensures
        asking_order(preferred).contains(backend),
        asking_order(preferred).no_duplicates(),
        preferred is Some && preferred->0 != Backend::Wmctrl ==> asking_order(preferred)[0]
            == preferred->0,
{
    let all = asking_order(preferred);
    assert(all[0] == backend || all[1] == backend || all[2] == backend || all[3] == backend);
}

/// Where a workspace stands: numbers first and in their order, and names after them.
#[verifier::ext_equal]
pub struct WorkspacePlace {
    pub named: bool,
    pub number: int,
    pub name: Seq<char>,
}

/// Where a workspace stands.
pub open spec fn place_of(name: Seq<char>) -> WorkspacePlace {
    match signed_of(name) {
        Some(number) => WorkspacePlace { named: false, number, name: Seq::empty() },
        None => WorkspacePlace { named: true, number: 0, name: lower_of(name) },
    }
}

impl WorkspacePlace {
    /// Whether one place is ahead of another.
    pub open spec fn ahead(self, other: WorkspacePlace) -> bool {
        if self.named != other.named {
            !self.named
        } else if self.number != other.number {
            self.number < other.number
        } else {
            comes_before(self.name, other.name)
        }
    }
}

/// Where a workspace stands, as a key.
#[derive(Debug)]
pub struct WorkspaceKey {
    pub named: bool,
    pub number: i64,
    pub name: String,
}

impl WorkspaceKey {
    /// The place that the key stands for.
    pub open spec fn place(self) -> WorkspacePlace {
        WorkspacePlace { named: self.named, number: self.number as int, name: self.name@ }
    }
}

/// Where a workspace stands: by its number where its name is one, and by its name after those.
pub fn workspace_order(name: &str) -> (r: WorkspaceKey)
    ensures
        r.place() == place_of(name@),
{
    match parse_i64(name) {
        Some(number) => {
            let r = WorkspaceKey { named: false, number, name: String::new() };
            assert(r.place() =~= place_of(name@));
            r
        },
        None => WorkspaceKey { named: true, number: 0, name: lowercase(name) },
    }
}

impl Ranked for WorkspaceKey {
    open spec fn ahead(self, other: WorkspaceKey) -> bool {
        self.place().ahead(other.place())
    }

    proof fn ahead_is_an_order(a: WorkspaceKey, b: WorkspaceKey, c: WorkspaceKey) {
        comes_before_is_weak(a.name@, b.name@, c.name@);
    }

    fn is_ahead(&self, other: &WorkspaceKey) -> (r: bool) {
        if self.named != other.named {
            !self.named
        } else if self.number != other.number {
            self.number < other.number
        } else {
            before(self.name.as_str(), other.name.as_str())
        }
    }
}

/// Where a window stands, as a key.
#[derive(Debug)]
pub struct WindowKey {
    pub workspace: WorkspaceKey,
    pub x: i64,
    pub y: i64,
    pub id: String,
}

/// Whether a window stands before another: by workspace, then from left to right, then from top to
/// bottom, then by id.
pub open spec fn window_ahead(a: WindowModel, b: WindowModel) -> bool {
    let p = place_of(a.workspace);
    let q = place_of(b.workspace);
    if p.ahead(q) || q.ahead(p) {
        p.ahead(q)
    } else if a.x != b.x {
        a.x < b.x
    } else if a.y != b.y {
        a.y < b.y
    } else {
        comes_before(a.id, b.id)
    }
}

impl Ranked for WindowKey {
    open spec fn ahead(self, other: WindowKey) -> bool {
        let p = self.workspace.place();
        let q = other.workspace.place();
        if p.ahead(q) || q.ahead(p) {
            p.ahead(q)
        } else if self.x != other.x {
            self.x < other.x
        } else if self.y != other.y {
            self.y < other.y
        } else {
            comes_before(self.id@, other.id@)
        }
    }

    proof fn ahead_is_an_order(a: WindowKey, b: WindowKey, c: WindowKey) {
        comes_before_is_weak(a.id@, b.id@, c.id@);
        let (x, y, z) = (a.workspace.name@, b.workspace.name@, c.workspace.name@);
        comes_before_is_weak(x, y, z);
        comes_before_is_weak(x, z, y);
        comes_before_is_weak(y, x, z);
        comes_before_is_weak(y, z, x);
        comes_before_is_weak(z, x, y);
        comes_before_is_weak(z, y, x);
        crate::order::comes_before_is_total(x, y);
        crate::order::comes_before_is_total(y, z);
        crate::order::comes_before_is_total(x, z);
    }

    fn is_ahead(&self, other: &WindowKey) -> (r: bool) {
        if self.workspace.is_ahead(&other.workspace) {
            proof {
                WorkspaceKey::ahead_is_an_order(self.workspace, other.workspace, self.workspace);
            }
            true
        } else if other.workspace.is_ahead(&self.workspace) {
            false
        } else if self.x != other.x {
            self.x < other.x
        } else if self.y != other.y {
            self.y < other.y
        } else {
            before(self.id.as_str(), other.id.as_str())
        }
    }
}

/// Whether the window at `i` comes before that at `j`, windows that are equal staying in order.
pub open spec fn window_before(windows: Seq<Window>, i: usize, j: usize) -> bool {
    window_ahead(windows[i as int]@, windows[j as int]@) || (!window_ahead(
        windows[j as int]@,
        windows[i as int]@,
    ) && i < j)
}

/// Whether `after` is `before` as the windows stand on screen.
pub open spec fn is_window_order(before: Seq<Window>, after: Seq<Window>) -> bool {
    exists|order: Seq<usize>| #[trigger]
        is_arrangement(order, before.len()) && after == picked(before, order) && in_window_order(
            before,
            order,
        )
}

/// Whether the order puts each window before those that come after it.
pub open spec fn in_window_order(windows: Seq<Window>, order: Seq<usize>) -> bool {
    forall|a: int, b: int|
        0 <= a < b < order.len() ==> #[trigger] window_before(windows, order[a], order[b])
}

/// Sorts windows as they stand on screen.
pub fn sort_windows(windows: &mut Vec<Window>)
    ensures
        is_window_order(old(windows)@, final(windows)@),
{
    let ghost all = windows@;
    let mut keys: Vec<WindowKey> = Vec::new();
    let mut i: usize = 0;
    while i < windows.len()
        invariant
            i <= windows@.len(),
            windows@ == all,
            keys@.len() == i,
            forall|k: int|
                0 <= k < i ==> is_key_of(#[trigger] keys@[k], all[k]),
        decreases windows.len() - i,
    {
        let key = WindowKey {
            workspace: workspace_order(windows[i].workspace.as_str()),
            x: windows[i].x,
            y: windows[i].y,
            id: windows[i].id.clone(),
        };
        assert(is_key_of(key, all[i as int]));
        keys.push(key);
        i += 1;
    }
    let order = sorted_order(&keys);
    let mut taken: Vec<Window> = Vec::new();
    std::mem::swap(&mut taken, windows);
    *windows = reorder(taken, &order);
    proof {
        assert forall|a: int, b: int| 0 <= a < b < order@.len() implies #[trigger] window_before(
            all,
            order@[a],
            order@[b],
        ) by {
            assert(index_before(keys@, order@[a], order@[b]));
            assert(is_key_of(keys@[order@[a] as int], all[order@[a] as int]));
            assert(is_key_of(keys@[order@[b] as int], all[order@[b] as int]));
        }
        assert(is_arrangement(order@, all.len()));
    }
}

/// Whether the key is that of a window.
spec fn is_key_of(key: WindowKey, window: Window) -> bool {
    &&& key.workspace.place() == place_of(window.workspace@)
    &&& key.x == window.x
    &&& key.y == window.y
    &&& key.id@ == window.id@
}

/// Whether the workspace at `i` comes before that at `j`.
pub open spec fn workspace_before(workspaces: Seq<Workspace>, i: usize, j: usize) -> bool {
    let p = place_of(workspaces[i as int].name@);
    let q = place_of(workspaces[j as int].name@);
    p.ahead(q) || (!q.ahead(p) && i < j)
}

/// Whether `after` is `before` in the order of their places.
pub open spec fn is_workspace_order(before: Seq<Workspace>, after: Seq<Workspace>) -> bool {
    exists|order: Seq<usize>| #[trigger]
        is_arrangement(order, before.len()) && after == picked(before, order) && forall|
            a: int,
            b: int,
        |
            0 <= a < b < order.len() ==> #[trigger] workspace_before(before, order[a], order[b])
}

/// The workspaces that a backend reported, in the order of their places. None where it did not
/// answer.
fn ordered_workspaces(answer: Option<Vec<Workspace>>) -> (r: Vec<Workspace>)
    ensures
        match answer {
            Some(all) => is_workspace_order(all@, r@),
            None => r@.len() == 0,
        },
{
    let all = match answer {
        Some(all) => all,
        None => return Vec::new(),
    };
    let ghost list = all@;
    let mut keys: Vec<WorkspaceKey> = Vec::new();
    let mut i: usize = 0;
    while i < all.len()
        invariant
            i <= all@.len(),
            keys@.len() == i,
            forall|k: int|
                0 <= k < i ==> (#[trigger] keys@[k]).place() == place_of(all@[k].name@),
        decreases all.len() - i,
    {
        keys.push(workspace_order(all[i].name.as_str()));
        i += 1;
    }
    let order = sorted_order(&keys);
    let r = reorder(all, &order);
    proof {
        assert forall|a: int, b: int| 0 <= a < b < order@.len() implies #[trigger] workspace_before(
            list,
            order@[a],
            order@[b],
        ) by {
            assert(index_before(keys@, order@[a], order@[b]));
        }
        assert(is_arrangement(order@, list.len()));
    }
    r
}

/// The windows that a backend reported, as they stand on screen. None where it did not answer.
fn ordered_windows(answer: Option<Vec<Window>>) -> (r: Vec<Window>)
    ensures
        match answer {
            Some(all) => is_window_order(all@, r@),
            None => r@.len() == 0,
        },
{
    match answer {
        Some(all) => {
            let mut all = all;
            sort_windows(&mut all);
            all
        },
        None => Vec::new(),
    }
}

/// The index of the first answer that there is, or the number of those asked.
pub open spec fn answer_index<T>(answers: Seq<Option<T>>) -> int
    decreases answers.len(),
{
    if answers.len() == 0 || answers[0] is Some {
        0
    } else {
        1 + answer_index(answers.drop_first())
    }
}

/// The first answer that there is.
pub open spec fn answer_of<T>(answers: Seq<Option<T>>) -> Option<T> {
    if answer_index(answers) < answers.len() {
        answers[answer_index(answers)]
    } else {
        None
    }
}

/// The first answer that there is, of the backends in the order in which they are asked. One that
/// says that there is nothing is an answer too.
pub fn first_answer<T>(answers: Vec<Option<T>>) -> (r: Option<T>)
    ensures
        r == answer_of(answers@),
{
    let ghost all = answers@;
    assert(all.skip(0) =~= all);
    let number: usize = answers.len();
    let mut i: usize = 0;
    for answer in it: answers
        invariant
            it.seq() == all,
            i == it.index(),
            i <= all.len() == number,
            answer_index(all) == i + answer_index(all.skip(i as int)),
    {
        assert(all.skip(i as int)[0] == answer);
        assert(all.skip(i as int).drop_first() =~= all.skip(i + 1));
        if answer.is_some() {
            return answer;
        }
        i += 1;
    }
    None
}

/// The first answer is an answer, and none of those asked before gave one.
pub proof fn the_first_answer_counts<T>(answers: Seq<Option<T>>)
    ensures
        0 <= answer_index(answers) <= answers.len(),
        answer_index(answers) < answers.len() ==> answers[answer_index(answers)] is Some,
        forall|i: int| 0 <= i < answer_index(answers) ==> (#[trigger] answers[i]) is None,
    decreases answers.len(),
{
    if answers.len() > 0 && answers[0] is None {
        the_first_answer_counts(answers.drop_first());
        assert forall|i: int| 0 <= i < answer_index(answers) implies (#[trigger] answers[i]) is None by {
            if i > 0 {
                assert(answers.drop_first()[i - 1] == answers[i]);
            }
        }
    }
}

/// The windows as they stand on screen, of the first of the backends that answers. None where none
/// does.
pub fn windows(answers: Vec<Option<Vec<Window>>>) -> (r: Vec<Window>)
    ensures
        match answer_of(answers@) {
            Some(all) => is_window_order(all@, r@),
            None => r@.len() == 0,
        },
{
    ordered_windows(first_answer(answers))
}

/// The workspaces in the order of their places, of the first of the backends that answers. None where
/// none does.
pub fn workspaces(answers: Vec<Option<Vec<Workspace>>>) -> (r: Vec<Workspace>)
    ensures
        match answer_of(answers@) {
            Some(all) => is_workspace_order(all@, r@),
            None => r@.len() == 0,
        },
{
    ordered_workspaces(first_answer(answers))
}

/// The monitors that the first of the backends to answer reports. None where none does.
pub fn monitors(answers: Vec<Option<Vec<Monitor>>>) -> (r: Vec<Monitor>)
    ensures
        match answer_of(answers@) {
            Some(all) => r == all,
            None => r@.len() == 0,
        },
{
    match first_answer(answers) {
        Some(all) => all,
        None => Vec::new(),
    }
}

/// The index of the first window that has the focus, or the number of windows.
pub open spec fn focused_index(windows: Seq<Window>) -> int
    decreases windows.len(),
{
    if windows.len() == 0 || windows[0].focused {
        0
    } else {
        1 + focused_index(windows.drop_first())
    }
}

impl Window {
    /// A window that is described in the same way.
    pub fn copy(&self) -> (r: Window)
        ensures
            r == *self,
    {
        Window {
            id: self.id.clone(),
            app_id: self.app_id.clone(),
            title: self.title.clone(),
            workspace: self.workspace.clone(),
            monitor: self.monitor.clone(),
            focused: self.focused,
            floating: self.floating,
            x: self.x,
            y: self.y,
        }
    }
}

/// Whether this is the first window that has the focus.
pub open spec fn is_active(r: Option<Window>, windows: Seq<Window>) -> bool {
    match r {
        Some(window) => focused_index(windows) < windows.len() && window
            == windows[focused_index(windows)],
        None => focused_index(windows) >= windows.len(),
    }
}

/// The first window that has the focus.
pub fn active_window(windows: &Vec<Window>) -> (r: Option<Window>)
    ensures
        is_active(r, windows@),
{
    let mut i: usize = 0;
    assert(windows@.skip(0) =~= windows@);
    while i < windows.len()
        invariant
            i <= windows@.len(),
            focused_index(windows@) == i + focused_index(windows@.skip(i as int)),
        decreases windows.len() - i,
    {
        assert(windows@.skip(i as int).drop_first() =~= windows@.skip(i + 1));
        if windows[i].focused {
            return Some(windows[i].copy());
        }
        i += 1;
    }
    None
}

/// The index of the first monitor that has the focus, or the number of monitors.
pub open spec fn focused_monitor_index(monitors: Seq<Monitor>) -> int
    decreases monitors.len(),
{
    if monitors.len() == 0 || monitors[0].focused {
        0
    } else {
        1 + focused_monitor_index(monitors.drop_first())
    }
}

/// Whether this is the name of the monitor that has the focus, where it has one.
pub open spec fn is_focused_monitor(r: Option<String>, monitors: Seq<Monitor>) -> bool {
    let i = focused_monitor_index(monitors);
    match r {
        Some(name) => i < monitors.len() && name == monitors[i].name && name@.len() > 0,
        None => i >= monitors.len() || monitors[i].name@.len() == 0,
    }
}

/// The name of the monitor that has the focus, where it has one.
pub fn focused_monitor(monitors: &Vec<Monitor>) -> (r: Option<String>)
    ensures
        is_focused_monitor(r, monitors@),
{
    let mut i: usize = 0;
    assert(monitors@.skip(0) =~= monitors@);
    while i < monitors.len()
        invariant
            i <= monitors@.len(),
            focused_monitor_index(monitors@) == i + focused_monitor_index(
                monitors@.skip(i as int),
            ),
        decreases monitors.len() - i,
    {
        assert(monitors@.skip(i as int).drop_first() =~= monitors@.skip(i + 1));
        if monitors[i].focused {
            if monitors[i].name.as_str().is_empty() {
                return None;
            }
            return Some(monitors[i].name.clone());
        }
        i += 1;
    }
    None
}

/// What is known of a compositor, all together.
#[derive(Debug)]
pub struct State {
    pub backend: String,
    pub windows: Vec<Window>,
    pub workspaces: Vec<Workspace>,
    pub monitors: Vec<Monitor>,
    pub active_window: Option<Window>,
}

/// The state of a compositor from what it answered.
pub fn state_of(
    backend: Backend,
    windows_answer: Option<Vec<Window>>,
    workspaces_answer: Option<Vec<Workspace>>,
    monitors_answer: Option<Vec<Monitor>>,
) -> (r: State)
    ensures
        r.backend@ == backend_name(backend),
        match windows_answer {
            Some(all) => is_window_order(all@, r.windows@),
            None => r.windows@.len() == 0,
        },
        match workspaces_answer {
            Some(all) => is_workspace_order(all@, r.workspaces@),
            None => r.workspaces@.len() == 0,
        },
        match monitors_answer {
            Some(all) => r.monitors == all,
            None => r.monitors@.len() == 0,
        },
        is_active(r.active_window, r.windows@),
{
    let all = ordered_windows(windows_answer);
    let active = active_window(&all);
    State {
        backend: backend.name().to_owned(),
        active_window: active,
        windows: all,
        workspaces: ordered_workspaces(workspaces_answer),
        monitors: match monitors_answer {
            Some(all) => all,
            None => Vec::new(),
        },
    }
}

impl Window {
    /// Whether two windows are described in the same way.
    pub fn same_as(&self, other: &Window) -> (r: bool)
        ensures
            r == (self@ == other@),
    {
        let equal = same(self.id.as_str(), other.id.as_str()) && same(
            self.app_id.as_str(),
            other.app_id.as_str(),
        ) && same(self.title.as_str(), other.title.as_str()) && same(
            self.workspace.as_str(),
            other.workspace.as_str(),
        ) && same(self.monitor.as_str(), other.monitor.as_str()) && self.focused == other.focused
            && self.floating == other.floating && self.x == other.x && self.y == other.y;
        assert(equal ==> self@ =~= other@);
        equal
    }
}

impl Workspace {
    /// Whether two workspaces are described in the same way.
    pub fn same_as(&self, other: &Workspace) -> (r: bool)
        ensures
            r == (self@ == other@),
    {
        let equal = same(self.id.as_str(), other.id.as_str()) && same(
            self.name.as_str(),
            other.name.as_str(),
        ) && same(self.monitor.as_str(), other.monitor.as_str()) && self.active == other.active
            && self.urgent == other.urgent && self.windows == other.windows;
        assert(equal ==> self@ =~= other@);
        equal
    }
}

impl Monitor {
    /// Whether two monitors are described in the same way.
    pub fn same_as(&self, other: &Monitor) -> (r: bool)
        ensures
            r == (self@ == other@),
    {
        let equal = same(self.id.as_str(), other.id.as_str()) && same(
            self.name.as_str(),
            other.name.as_str(),
        ) && self.width == other.width && self.height == other.height && same_number(
            &self.scale,
            &other.scale,
        ) && self.focused == other.focused;
        assert(equal ==> self@ =~= other@);
        equal
    }
}

/// Whether two states are described in the same way.
pub open spec fn same_state(a: State, b: State) -> bool {
    &&& a.backend@ == b.backend@
    &&& window_models(a.windows@) == window_models(b.windows@)
    &&& workspace_models(a.workspaces@) == workspace_models(b.workspaces@)
    &&& monitor_models(a.monitors@) == monitor_models(b.monitors@)
    &&& match (a.active_window, b.active_window) {
        (Some(x), Some(y)) => x@ == y@,
        (None, None) => true,
        _ => false,
    }
}

fn same_windows(a: &Vec<Window>, b: &Vec<Window>) -> (r: bool)
    ensures
        r == (window_models(a@) == window_models(b@)),
{
    if a.len() != b.len() {
        assert(window_models(a@).len() != window_models(b@).len());
        return false;
    }
    let mut i: usize = 0;
    while i < a.len()
        invariant
            a@.len() == b@.len(),
            i <= a@.len(),
            forall|k: int| 0 <= k < i ==> window_models(a@)[k] == window_models(b@)[k],
        decreases a.len() - i,
    {
        if !a[i].same_as(&b[i]) {
            assert(window_models(a@)[i as int] != window_models(b@)[i as int]);
            return false;
        }
        i += 1;
    }
    assert(window_models(a@) =~= window_models(b@));
    true
}

fn same_workspaces(a: &Vec<Workspace>, b: &Vec<Workspace>) -> (r: bool)
    ensures
        r == (workspace_models(a@) == workspace_models(b@)),
{
    if a.len() != b.len() {
        assert(workspace_models(a@).len() != workspace_models(b@).len());
        return false;
    }
    let mut i: usize = 0;
    while i < a.len()
        invariant
            a@.len() == b@.len(),
            i <= a@.len(),
            forall|k: int| 0 <= k < i ==> workspace_models(a@)[k] == workspace_models(b@)[k],
        decreases a.len() - i,
    {
        if !a[i].same_as(&b[i]) {
            assert(workspace_models(a@)[i as int] != workspace_models(b@)[i as int]);
            return false;
        }
        i += 1;
    }
    assert(workspace_models(a@) =~= workspace_models(b@));
    true
}

fn same_monitors(a: &Vec<Monitor>, b: &Vec<Monitor>) -> (r: bool)
    ensures
        r == (monitor_models(a@) == monitor_models(b@)),
{
    if a.len() != b.len() {
        assert(monitor_models(a@).len() != monitor_models(b@).len());
        return false;
    }
    let mut i: usize = 0;
    while i < a.len()
        invariant
            a@.len() == b@.len(),
            i <= a@.len(),
            forall|k: int| 0 <= k < i ==> monitor_models(a@)[k] == monitor_models(b@)[k],
        decreases a.len() - i,
    {
        if !a[i].same_as(&b[i]) {
            assert(monitor_models(a@)[i as int] != monitor_models(b@)[i as int]);
            return false;
        }
        i += 1;
    }
    assert(monitor_models(a@) =~= monitor_models(b@));
    true
}

/// Whether a state is worth telling: it differs from the one that was told last. A compositor
/// reports several events for one action, and some change nothing that is shown.
pub fn worth_telling(last: &State, current: &State) -> (r: bool)
    ensures
        r == !same_state(*last, *current),
{
    let active = match (&last.active_window, &current.active_window) {
        (Some(x), Some(y)) => x.same_as(y),
        (None, None) => true,
        _ => false,
    };
    !(same(last.backend.as_str(), current.backend.as_str()) && same_windows(
        &last.windows,
        &current.windows,
    ) && same_workspaces(&last.workspaces, &current.workspaces) && same_monitors(
        &last.monitors,
        &current.monitors,
    ) && active)
}

/// What is done to a compositor.
#[derive(Debug)]
pub enum Order {
    /// Messages to Hyprland.
    Send(Dispatch),
    /// A line for the shell, which has to succeed.
    Run(String),
}

/// The backend of that name.
pub open spec fn backend_named(name: Seq<char>) -> Option<Backend> {
    if name == "hypr"@ {
        Some(Backend::Hypr)
    } else if name == "niri"@ {
        Some(Backend::Niri)
    } else if name == "sway"@ {
        Some(Backend::Sway)
    } else if name == "wmctrl"@ {
        Some(Backend::Wmctrl)
    } else {
        None
    }
}

/// The backend and the handle that an id names, or what is wrong with it.
pub open spec fn resolved(id: Seq<char>) -> Result<(Backend, Seq<char>), Seq<char>> {
    if first_of(id, ':') >= id.len() {
        Err("expected a backend-qualified id like \"hypr:0x1234\""@)
    } else {
        match backend_named(before_first(id, ':')) {
            Some(backend) => Ok((backend, after_first(id, ':'))),
            None => Err("unknown compositor backend \""@ + before_first(id, ':') + "\""@),
        }
    }
}

/// The backend and the handle that an id names.
pub fn resolve(id: &str) -> (r: Result<(Backend, String), String>)
    ensures
        match r {
            Ok((backend, handle)) => resolved(id@) == Ok::<(Backend, Seq<char>), Seq<char>>(
                (backend, handle@),
            ),
            Err(message) => resolved(id@) == Err::<(Backend, Seq<char>), Seq<char>>(message@),
        },
{
    let (name, handle) = match split_first(id, ':') {
        (name, Some(handle)) => (name, handle),
        (_, None) => {
            return Err("expected a backend-qualified id like \"hypr:0x1234\"".to_owned());
        },
    };
    let backend = if same(name.as_str(), "hypr") {
        Backend::Hypr
    } else if same(name.as_str(), "niri") {
        Backend::Niri
    } else if same(name.as_str(), "sway") {
        Backend::Sway
    } else if same(name.as_str(), "wmctrl") {
        Backend::Wmctrl
    } else {
        let mut message = "unknown compositor backend \"".to_owned();
        message.append(name.as_str());
        message.append("\"");
        return Err(message);
    };
    Ok((backend, handle))
}

/// Whether the order gives the focus to a window.
pub open spec fn is_focus_order(
    order: Order,
    backend: Backend,
    handle: Seq<char>,
    niri: Seq<char>,
) -> bool {
    match backend {
        Backend::Hypr => order matches Order::Send(d) && is_window_dispatch(
            d,
            "focuswindow"@,
            "hl.dsp.focus({ window = w })"@,
            handle,
        ),
        Backend::Niri => order matches Order::Run(l) && l@ == niri
            + " msg action focus-window --id "@ + handle,
        Backend::Sway => order matches Order::Run(l) && l@ == "swaymsg '[con_id="@ + handle
            + "] focus'"@,
        Backend::Wmctrl => order matches Order::Run(l) && l@ == "wmctrl -ia "@ + handle,
    }
}

/// Whether the order closes a window.
pub open spec fn is_close_order(
    order: Order,
    backend: Backend,
    handle: Seq<char>,
    niri: Seq<char>,
) -> bool {
    match backend {
        Backend::Hypr => order matches Order::Send(d) && is_window_dispatch(
            d,
            "closewindow"@,
            "hl.dsp.window.close({ window = w })"@,
            handle,
        ),
        Backend::Niri => order matches Order::Run(l) && l@ == niri
            + " msg action close-window --id "@ + handle,
        Backend::Sway => order matches Order::Run(l) && l@ == "swaymsg '[con_id="@ + handle
            + "] kill'"@,
        Backend::Wmctrl => order matches Order::Run(l) && l@ == "wmctrl -ic "@ + handle,
    }
}

/// What gives the focus to a window, given how niri is called.
pub fn focus_window(id: &str, niri: &str) -> (r: Result<Order, String>)
    ensures
        match resolved(id@) {
            Ok((backend, handle)) => r matches Ok(order) && is_focus_order(
                order,
                backend,
                handle,
                niri@,
            ),
            Err(message) => r matches Err(m) && m@ == message,
        },
        resolved(id@) matches Ok((Backend::Hypr, handle)) ==> (r matches Ok(Order::Send(d))
            && d.attempts@.len() == 2 && texts(d.attempts@[0]@) == seq![
            "dispatch"@,
            "focuswindow"@,
            "address:"@ + handle,
        ]),
{
    let (backend, handle) = match resolve(id) {
        Ok(found) => found,
        Err(message) => return Err(message),
    };
    let h = handle.as_str();
    Ok(
        match backend {
            Backend::Hypr => Order::Send(
                hypr_window_dispatch("focuswindow", "hl.dsp.focus({ window = w })", h),
            ),
            Backend::Niri => {
                let mut line = niri.to_owned();
                line.append(" msg action focus-window --id ");
                line.append(h);
                Order::Run(line)
            },
            Backend::Sway => {
                let mut line = "swaymsg '[con_id=".to_owned();
                line.append(h);
                line.append("] focus'");
                Order::Run(line)
            },
            Backend::Wmctrl => {
                let mut line = "wmctrl -ia ".to_owned();
                line.append(h);
                Order::Run(line)
            },
        },
    )
}

/// What closes a window, given how niri is called.
pub fn close_window(id: &str, niri: &str) -> (r: Result<Order, String>)
    ensures
        match resolved(id@) {
            Ok((backend, handle)) => r matches Ok(order) && is_close_order(
                order,
                backend,
                handle,
                niri@,
            ),
            Err(message) => r matches Err(m) && m@ == message,
        },
        resolved(id@) matches Ok((Backend::Hypr, handle)) ==> (r matches Ok(Order::Send(d))
            && d.attempts@.len() == 2 && texts(d.attempts@[0]@) == seq![
            "dispatch"@,
            "closewindow"@,
            "address:"@ + handle,
        ]),
{
    let (backend, handle) = match resolve(id) {
        Ok(found) => found,
        Err(message) => return Err(message),
    };
    let h = handle.as_str();
    Ok(
        match backend {
            Backend::Hypr => Order::Send(
                hypr_window_dispatch("closewindow", "hl.dsp.window.close({ window = w })", h),
            ),
            Backend::Niri => {
                let mut line = niri.to_owned();
                line.append(" msg action close-window --id ");
                line.append(h);
                Order::Run(line)
            },
            Backend::Sway => {
                let mut line = "swaymsg '[con_id=".to_owned();
                line.append(h);
                line.append("] kill'");
                Order::Run(line)
            },
            Backend::Wmctrl => {
                let mut line = "wmctrl -ic ".to_owned();
                line.append(h);
                Order::Run(line)
            },
        },
    )
}

/// Whether the result is the order that switches to a workspace.
pub open spec fn is_switch_order(
    r: Result<Order, String>,
    backend: Backend,
    handle: Seq<char>,
    niri: Seq<char>,
) -> bool {
    match backend {
        Backend::Hypr => r matches Ok(Order::Send(d)) && is_workspace_dispatch(d, handle),
        Backend::Niri => r matches Ok(Order::Run(l)) && l@ == niri
            + " msg action focus-workspace "@ + handle,
        Backend::Sway => r matches Ok(Order::Run(l)) && l@ == "swaymsg workspace "@ + handle,
        Backend::Wmctrl => r matches Err(m) && m@ == "wmctrl cannot switch workspaces"@,
    }
}

/// What switches a backend to a workspace.
fn switch_workspace(backend: Backend, handle: &str, niri: &str) -> (r: Result<Order, String>)
    ensures
        is_switch_order(r, backend, handle@, niri@),
{
    match backend {
        Backend::Hypr => Ok(Order::Send(hypr_workspace_dispatch(handle))),
        Backend::Niri => {
            let mut line = niri.to_owned();
            line.append(" msg action focus-workspace ");
            line.append(handle);
            Ok(Order::Run(line))
        },
        Backend::Sway => {
            let mut line = "swaymsg workspace ".to_owned();
            line.append(handle);
            Ok(Order::Run(line))
        },
        Backend::Wmctrl => Err("wmctrl cannot switch workspaces".to_owned()),
    }
}

/// What switches to a workspace by an id, given which compositor is running.
pub open spec fn is_switched(
    r: Result<Order, String>,
    id: Seq<char>,
    running: Option<Backend>,
    niri: Seq<char>,
) -> bool {
    match resolved(id) {
        Ok((backend, handle)) => is_switch_order(r, backend, handle, niri),
        Err(_) => match running {
            Some(backend) => is_switch_order(r, backend, id, niri),
            None => r matches Err(m) && m@ == "no supported compositor is responding"@,
        },
    }
}

/// What switches to a workspace: by its id, or by a bare name or number on the compositor that is
/// running, so that a key binding need not know which it is.
pub fn focus_workspace(id: &str, running: Option<Backend>, niri: &str) -> (r: Result<Order, String>)
    ensures
        is_switched(r, id@, running, niri@),
{
    match resolve(id) {
        Ok((backend, handle)) => switch_workspace(backend, handle.as_str(), niri),
        Err(_) => match running {
            Some(backend) => switch_workspace(backend, id, niri),
            None => Err("no supported compositor is responding".to_owned()),
        },
    }
}

/// An id with the name of a backend in front leads back to that backend and the handle.
pub proof fn a_qualified_id_leads_back(backend: Backend, handle: Seq<char>)
    ensures
        resolved(backend_name(backend) + ":"@ + handle) == Ok::<(Backend, Seq<char>), Seq<char>>(
            (backend, handle),
        ),
{
    reveal_strlit("hypr");
    reveal_strlit("niri");
    reveal_strlit("sway");
    reveal_strlit("wmctrl");
    reveal_strlit(":");
    let name = backend_name(backend);
    let id = name + ":"@ + handle;
    assert("hypr"@.len() == 4 && "niri"@.len() == 4 && "sway"@.len() == 4 && "wmctrl"@.len() == 6);
    assert("hypr"@ =~= seq!['h', 'y', 'p', 'r']);
    assert("niri"@ =~= seq!['n', 'i', 'r', 'i']);
    assert("sway"@ =~= seq!['s', 'w', 'a', 'y']);
    assert("wmctrl"@ =~= seq!['w', 'm', 'c', 't', 'r', 'l']);
    assert("hypr"@[0] == 'h' && "niri"@[0] == 'n' && "sway"@[0] == 's');
    assert(forall|j: int| 0 <= j < name.len() ==> name[j] != ':');
    crate::text::first_of_is_unique(id, ':', name.len() as int);
    assert(before_first(id, ':') =~= name);
    assert(after_first(id, ':') =~= handle);
}

/// Workspaces whose names are numbers stand in the order of the numbers, and before all others.
pub proof fn numbered_workspaces_come_first(a: i64, b: i64, name: Seq<char>)
    requires
        signed_of(name) is None,
    ensures
        place_of(decimal_int(a as int)).ahead(place_of(decimal_int(b as int))) == (a < b),
        place_of(decimal_int(a as int)).ahead(place_of(name)),
        !place_of(name).ahead(place_of(decimal_int(a as int))),
{
    crate::number::signed_reads_back(a);
    crate::number::signed_reads_back(b);
    crate::order::comes_before_is_total(Seq::<char>::empty(), Seq::<char>::empty());
}

/// To close a window is not to give it the focus: whatever the backend and the handle, what is sent
/// or run for the one differs from what is sent or run for the other.
pub proof fn to_close_is_not_to_focus(
    close: Order,
    focus: Order,
    backend: Backend,
    handle: Seq<char>,
    niri: Seq<char>,
)
    requires
        is_close_order(close, backend, handle, niri),
        is_focus_order(focus, backend, handle, niri),
    ensures
        close != focus,
        match (close, focus) {
            (Order::Send(a), Order::Send(b)) => texts(a.attempts@[0]@) != texts(b.attempts@[0]@)
                && texts(a.attempts@[1]@) != texts(b.attempts@[1]@),
            (Order::Run(a), Order::Run(b)) => a@ != b@,
            _ => false,
        },
{
    match backend {
        Backend::Hypr => {
            let a = close->Send_0;
            let b = focus->Send_0;
            reveal_strlit("closewindow");
            reveal_strlit("focuswindow");
            assert("closewindow"@[0] == 'c' && "focuswindow"@[0] == 'f');
            assert(texts(a.attempts@[0]@)[1] == "closewindow"@);
            assert(texts(b.attempts@[0]@)[1] == "focuswindow"@);
            reveal_strlit("hl.dsp.window.close({ window = w })");
            reveal_strlit("hl.dsp.focus({ window = w })");
            assert("hl.dsp.window.close({ window = w })"@.len() == 35);
            assert("hl.dsp.focus({ window = w })"@.len() == 28);
            assert(texts(a.attempts@[1]@)[1].len() == texts(b.attempts@[1]@)[1].len() + 7);
        },
        Backend::Niri => {
            reveal_strlit(" msg action close-window --id ");
            reveal_strlit(" msg action focus-window --id ");
            let at = niri.len() as int + 12;
            assert(close->Run_0@[at] == 'c');
            assert(focus->Run_0@[at] == 'f');
        },
        Backend::Sway => {
            reveal_strlit("] kill'");
            reveal_strlit("] focus'");
            assert("] kill'"@.len() == 7 && "] focus'"@.len() == 8);
            assert(close->Run_0@.len() + 1 == focus->Run_0@.len());
        },
        Backend::Wmctrl => {
            reveal_strlit("wmctrl -ia ");
            reveal_strlit("wmctrl -ic ");
            assert(close->Run_0@[9] == 'c');
            assert(focus->Run_0@[9] == 'a');
        },
    }
}

/// A window is closed by its handle: what is sent or run is the compositor's own way to close one.
pub proof fn a_window_is_closed_by_its_handle(
    order: Order,
    backend: Backend,
    handle: Seq<char>,
    niri: Seq<char>,
)
    requires
        is_close_order(order, backend, handle, niri),
    ensures
        backend == Backend::Hypr ==> (order matches Order::Send(d) && d.attempts@.len() == 2
            && texts(d.attempts@[0]@) == seq!["dispatch"@, "closewindow"@, "address:"@ + handle]
            && texts(d.attempts@[1]@) == seq![
            "repl"@,
            "for _, w in ipairs(hl.get_windows()) do if w.address == \""@ + handle
                + "\" then hl.dispatch("@ + "hl.dsp.window.close({ window = w })"@
                + ") return \"ok\" end end return \"no window\""@,
        ]),
        backend == Backend::Niri ==> (order matches Order::Run(l) && l@ == niri
            + " msg action close-window --id "@ + handle),
        backend == Backend::Sway ==> (order matches Order::Run(l) && l@ == "swaymsg '[con_id="@
            + handle + "] kill'"@),
        backend == Backend::Wmctrl ==> (order matches Order::Run(l) && l@ == "wmctrl -ic "@ + handle),
{
}

/// A window gets the focus by its handle: what is sent or run is the compositor's own way to give it.
pub proof fn a_window_is_focused_by_its_handle(
    order: Order,
    backend: Backend,
    handle: Seq<char>,
    niri: Seq<char>,
)
    requires
        is_focus_order(order, backend, handle, niri),
    ensures
        backend == Backend::Hypr ==> (order matches Order::Send(d) && d.attempts@.len() == 2
            && texts(d.attempts@[0]@) == seq!["dispatch"@, "focuswindow"@, "address:"@ + handle]
            && texts(d.attempts@[1]@) == seq![
            "repl"@,
            "for _, w in ipairs(hl.get_windows()) do if w.address == \""@ + handle
                + "\" then hl.dispatch("@ + "hl.dsp.focus({ window = w })"@
                + ") return \"ok\" end end return \"no window\""@,
        ]),
        backend == Backend::Niri ==> (order matches Order::Run(l) && l@ == niri
            + " msg action focus-window --id "@ + handle),
        backend == Backend::Sway ==> (order matches Order::Run(l) && l@ == "swaymsg '[con_id="@
            + handle + "] focus'"@),
        backend == Backend::Wmctrl ==> (order matches Order::Run(l) && l@ == "wmctrl -ia "@ + handle),
{
}

/// Different windows are closed, and get the focus, by different orders.
pub proof fn orders_are_for_one_window(
    a: Order,
    b: Order,
    backend: Backend,
    first: Seq<char>,
    second: Seq<char>,
    niri: Seq<char>,
)
    requires
        first != second,
        (is_close_order(a, backend, first, niri) && is_close_order(b, backend, second, niri)) || (
        is_focus_order(a, backend, first, niri) && is_focus_order(b, backend, second, niri)),
    ensures
        a != b,
{
    match backend {
        Backend::Hypr => {
            let x = a->Send_0;
            let y = b->Send_0;
            assert(texts(x.attempts@[0]@)[2] == "address:"@ + first);
            assert(texts(y.attempts@[0]@)[2] == "address:"@ + second);
            middle_tells("address:"@, first, second, Seq::empty());
            assert("address:"@ + first =~= "address:"@ + first + Seq::empty());
            assert("address:"@ + second =~= "address:"@ + second + Seq::empty());
        },
        Backend::Niri => {
            middle_tells(niri + " msg action close-window --id "@, first, second, Seq::empty());
            middle_tells(niri + " msg action focus-window --id "@, first, second, Seq::empty());
            assert(a->Run_0@ =~= a->Run_0@ + Seq::empty());
            assert(b->Run_0@ =~= b->Run_0@ + Seq::empty());
        },
        Backend::Sway => {
            middle_tells("swaymsg '[con_id="@, first, second, "] kill'"@);
            middle_tells("swaymsg '[con_id="@, first, second, "] focus'"@);
        },
        Backend::Wmctrl => {
            middle_tells("wmctrl -ic "@, first, second, Seq::empty());
            middle_tells("wmctrl -ia "@, first, second, Seq::empty());
            assert(a->Run_0@ =~= a->Run_0@ + Seq::empty());
            assert(b->Run_0@ =~= b->Run_0@ + Seq::empty());
        },
    }
}

/// Texts that differ make a difference between the same beginning and end.
proof fn middle_tells(head: Seq<char>, a: Seq<char>, b: Seq<char>, tail: Seq<char>)
    requires
        a != b,
    ensures
        head + a + tail != head + b + tail,
{
    let x = head + a + tail;
    let y = head + b + tail;
    if x == y {
        assert(x.len() == y.len());
        assert forall|i: int| 0 <= i < a.len() implies a[i] == b[i] by {
            assert(x[head.len() + i] == a[i]);
            assert(y[head.len() + i] == b[i]);
        }
        assert(a =~= b);
    }
}

/// A workspace is switched to on the backend that its id names, and a bare name on the one that is
/// running, by the compositor's own way to do so.
pub proof fn a_workspace_is_switched_to_where_it_is(
    r: Result<Order, String>,
    backend: Backend,
    handle: Seq<char>,
    running: Option<Backend>,
    niri: Seq<char>,
)
    requires
        is_switched(r, backend_name(backend) + ":"@ + handle, running, niri) || (is_switched(
            r,
            handle,
            running,
            niri,
        ) && resolved(handle) is Err && running == Some(backend)),
    ensures
        backend == Backend::Hypr ==> (r matches Ok(Order::Send(d)) && d.attempts@.len() == 2
            && texts(d.attempts@[0]@) == seq![
            "dispatch"@,
            match signed_of(handle) {
                Some(number) => "workspace "@ + decimal_int(number),
                None => "workspace name:"@ + handle,
            },
        ]),
        backend == Backend::Niri ==> (r matches Ok(Order::Run(l)) && l@ == niri
            + " msg action focus-workspace "@ + handle),
        backend == Backend::Sway ==> (r matches Ok(Order::Run(l)) && l@ == "swaymsg workspace "@
            + handle),
        backend == Backend::Wmctrl ==> r is Err,
{
    a_qualified_id_leads_back(backend, handle);
}

/// Windows stand as they do on screen: no window of a numbered workspace stands after one of a
/// workspace with a greater number, or after one of a workspace with a name; and on one workspace
/// none stands after one to the right of it, or after one below it that is no further left. None is
/// lost, and none is made up.
pub proof fn windows_stand_as_on_screen(before: Seq<Window>, after: Seq<Window>, i: int, j: int)
    requires
        is_window_order(before, after),
        0 <= i < j < after.len(),
    ensures
        after.len() == before.len(),
        before.contains(after[i]) && before.contains(after[j]),
        signed_of(after[j].workspace@) is Some ==> signed_of(after[i].workspace@) is Some
            && signed_of(after[i].workspace@)->0 <= signed_of(after[j].workspace@)->0,
        after[i].workspace@ == after[j].workspace@ ==> after[i].x <= after[j].x,
        after[i].workspace@ == after[j].workspace@ && after[i].x == after[j].x ==> after[i].y
            <= after[j].y,
{
    let order = choose|order: Seq<usize>| #[trigger]
        is_arrangement(order, before.len()) && after == picked(before, order) && in_window_order(
            before,
            order,
        );
    assert(window_before(before, order[i], order[j]));
    assert(after[i] == before[order[i] as int] && after[j] == before[order[j] as int]);
    let p = place_of(after[i].workspace@);
    let q = place_of(after[j].workspace@);
    crate::order::comes_before_is_total(p.name, q.name);
}

/// Every window that was reported stands somewhere in the order.
pub proof fn no_window_is_lost(before: Seq<Window>, after: Seq<Window>, i: int)
    requires
        is_window_order(before, after),
        0 <= i < before.len() <= usize::MAX,
    ensures
        after.len() == before.len(),
        after.contains(before[i]),
{
    let order = choose|order: Seq<usize>| #[trigger]
        is_arrangement(order, before.len()) && after == picked(before, order) && in_window_order(
            before,
            order,
        );
    crate::order::an_arrangement_keeps_everything(before, order, i);
}

/// Workspaces stand in the order of their numbers, and those with names after them. None is lost.
pub proof fn workspaces_stand_by_number(
    before: Seq<Workspace>,
    after: Seq<Workspace>,
    i: int,
    j: int,
)
    requires
        is_workspace_order(before, after),
        0 <= i < j < after.len(),
    ensures
        after.len() == before.len(),
        before.contains(after[i]) && before.contains(after[j]),
        signed_of(after[j].name@) is Some ==> signed_of(after[i].name@) is Some && signed_of(
            after[i].name@,
        )->0 <= signed_of(after[j].name@)->0,
        signed_of(after[i].name@) is None && signed_of(after[j].name@) is None ==> !comes_before(
            lower_of(after[j].name@),
            lower_of(after[i].name@),
        ),
{
    let order = choose|order: Seq<usize>| #[trigger]
        is_arrangement(order, before.len()) && after == picked(before, order) && forall|
            a: int,
            b: int,
        |
            0 <= a < b < order.len() ==> #[trigger] workspace_before(before, order[a], order[b]);
    assert(workspace_before(before, order[i], order[j]));
    assert(after[i] == before[order[i] as int] && after[j] == before[order[j] as int]);
    let p = place_of(after[i].name@);
    let q = place_of(after[j].name@);
    crate::order::comes_before_is_total(p.name, q.name);
}

/// The first window that has the focus is found.
proof fn focused_index_is_first(windows: Seq<Window>)
    ensures
        0 <= focused_index(windows) <= windows.len(),
        focused_index(windows) < windows.len() ==> windows[focused_index(windows)].focused,
        forall|j: int| 0 <= j < focused_index(windows) ==> !(#[trigger] windows[j]).focused,
    decreases windows.len(),
{
    if windows.len() > 0 && !windows[0].focused {
        let rest = windows.drop_first();
        focused_index_is_first(rest);
        assert forall|j: int| 0 <= j < focused_index(windows) implies !(
        #[trigger] windows[j]).focused by {
            if j > 0 {
                assert(rest[j - 1] == windows[j]);
            }
        }
    }
}

/// The active window is the first that has the focus, and there is none only where none has it.
pub proof fn the_active_window_has_the_focus(r: Option<Window>, windows: Seq<Window>)
    requires
        is_active(r, windows),
    ensures
        r matches Some(window) ==> window.focused && exists|i: int|
            0 <= i < windows.len() && window == #[trigger] windows[i] && forall|j: int|
                0 <= j < i ==> !(#[trigger] windows[j]).focused,
        r is None ==> forall|i: int| 0 <= i < windows.len() ==> !(#[trigger] windows[i]).focused,
{
    focused_index_is_first(windows);
    if r is Some {
        assert(windows[focused_index(windows)] == r->0);
    }
}

/// The first monitor that has the focus is found.
proof fn focused_monitor_index_is_first(monitors: Seq<Monitor>)
    ensures
        0 <= focused_monitor_index(monitors) <= monitors.len(),
        focused_monitor_index(monitors) < monitors.len() ==> monitors[focused_monitor_index(
            monitors,
        )].focused,
        forall|j: int|
            0 <= j < focused_monitor_index(monitors) ==> !(#[trigger] monitors[j]).focused,
    decreases monitors.len(),
{
    if monitors.len() > 0 && !monitors[0].focused {
        let rest = monitors.drop_first();
        focused_monitor_index_is_first(rest);
        assert forall|j: int| 0 <= j < focused_monitor_index(monitors) implies !(
        #[trigger] monitors[j]).focused by {
            if j > 0 {
                assert(rest[j - 1] == monitors[j]);
            }
        }
    }
}

/// The monitor that is named is the first that has the focus, and none is only where none has it or
/// the one that has it has no name.
pub proof fn the_focused_monitor_has_the_focus(r: Option<String>, monitors: Seq<Monitor>)
    requires
        is_focused_monitor(r, monitors),
    ensures
        r matches Some(name) ==> name@.len() > 0 && exists|i: int|
            0 <= i < monitors.len() && (#[trigger] monitors[i]).focused && monitors[i].name == name
                && forall|j: int| 0 <= j < i ==> !(#[trigger] monitors[j]).focused,
        r is None && (forall|i: int|
            0 <= i < monitors.len() ==> (#[trigger] monitors[i]).name@.len() > 0) ==> forall|i: int|
            0 <= i < monitors.len() ==> !(#[trigger] monitors[i]).focused,
{
    focused_monitor_index_is_first(monitors);
    if r is Some {
        assert(monitors[focused_monitor_index(monitors)].name == r->0);
    }
}

/// The variable of a compositor tells which one runs, and Hyprland's goes first; without any the name
/// of the desktop tells, in whatever case it is written.
pub proof fn what_is_advertised_is_preferred(
    hypr: bool,
    sway: bool,
    niri: bool,
    desktop: Option<Seq<char>>,
)
    ensures
        hypr ==> advertised(hypr, sway, niri, desktop) == Some(Backend::Hypr),
        !hypr && sway ==> advertised(hypr, sway, niri, desktop) == Some(Backend::Sway),
        !hypr && !sway && niri ==> advertised(hypr, sway, niri, desktop) == Some(Backend::Niri),
        !hypr && !sway && !niri ==> (match advertised(hypr, sway, niri, desktop) {
            Some(Backend::Hypr) => desktop is Some && has(lower_of(desktop->0), "hypr"@),
            Some(Backend::Sway) => desktop is Some && has(lower_of(desktop->0), "sway"@),
            Some(Backend::Niri) => desktop is Some && has(lower_of(desktop->0), "niri"@),
            Some(Backend::Wmctrl) => false,
            None => desktop is None || !(has(lower_of(desktop->0), "hypr"@) || has(
                lower_of(desktop->0),
                "sway"@,
            ) || has(lower_of(desktop->0), "niri"@)),
        }),
{
}

/// A change of any window, workspace or monitor is told, and so is a window that comes or goes.
pub proof fn a_change_is_told(a: State, b: State, i: int)
    requires
        (0 <= i < a.windows@.len() && i < b.windows@.len() && a.windows@[i]@ != b.windows@[i]@)
            || a.windows@.len() != b.windows@.len() || (0 <= i < a.workspaces@.len() && i
            < b.workspaces@.len() && a.workspaces@[i]@ != b.workspaces@[i]@)
            || a.workspaces@.len() != b.workspaces@.len() || (0 <= i < a.monitors@.len() && i
            < b.monitors@.len() && a.monitors@[i]@ != b.monitors@[i]@) || a.monitors@.len()
            != b.monitors@.len() || (a.active_window is Some) != (b.active_window is Some),
    ensures
        !same_state(a, b),
        same_state(a, a) && same_state(b, b),
{
    if 0 <= i < a.windows@.len() && i < b.windows@.len() {
        assert(window_models(a.windows@)[i] == a.windows@[i]@);
        assert(window_models(b.windows@)[i] == b.windows@[i]@);
    }
    if 0 <= i < a.workspaces@.len() && i < b.workspaces@.len() {
        assert(workspace_models(a.workspaces@)[i] == a.workspaces@[i]@);
        assert(workspace_models(b.workspaces@)[i] == b.workspaces@[i]@);
    }
    if 0 <= i < a.monitors@.len() && i < b.monitors@.len() {
        assert(monitor_models(a.monitors@)[i] == a.monitors@[i]@);
        assert(monitor_models(b.monitors@)[i] == b.monitors@[i]@);
    }
    assert(window_models(a.windows@).len() == a.windows@.len());
    assert(window_models(b.windows@).len() == b.windows@.len());
    assert(workspace_models(a.workspaces@).len() == a.workspaces@.len());
    assert(workspace_models(b.workspaces@).len() == b.workspaces@.len());
    assert(monitor_models(a.monitors@).len() == a.monitors@.len());
    assert(monitor_models(b.monitors@).len() == b.monitors@.len());
}

/// A desktop is told by its name, in whatever case and among other names.
pub proof fn a_desktop_is_told_by_its_name(name: Seq<char>)
    ensures
        has(lower_of(name), "hypr"@) ==> desktop_backend(Some(name)) == Some(Backend::Hypr),
        !(has(lower_of(name), "hypr"@)) && has(lower_of(name), "sway"@) ==> desktop_backend(Some(name))
            == Some(Backend::Sway),
        lower_of(name) == "niri"@ ==> desktop_backend(Some(name)) == Some(Backend::Niri),
        lower_of(name).len() < 4 ==> desktop_backend(Some(name)) is None,
        desktop_backend(None) is None,
{
    reveal_strlit("hypr");
    reveal_strlit("sway");
    reveal_strlit("niri");
    let s = lower_of(name);
    if s == "niri"@ {
        assert(s.subrange(0, 4) =~= "niri"@);
        assert(occurs_at(s, "niri"@, 0));
        if has(s, "hypr"@) {
            let i = choose|i: int| occurs_at(s, "hypr"@, i);
            assert(i == 0 && s.subrange(0, 4)[0] == 'n' && "hypr"@[0] == 'h');
        }
        if has(s, "sway"@) {
            let i = choose|i: int| occurs_at(s, "sway"@, i);
            assert(i == 0 && s.subrange(0, 4)[0] == 'n' && "sway"@[0] == 's');
        }
    }
}

} // verus!
