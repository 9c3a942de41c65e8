//! Menu state: which page shows, keyboard navigation, the window mode toggle, and how the
//! buttons of the controls table are linked for gamepad navigation.

use vstd::prelude::*;

verus! {

/// The tabs of the settings page.
#[derive(Debug, PartialEq, Eq, Structural, Clone, Copy)]
pub enum SettingsTab {
    Controls,
    Sound,
}

impl Default for SettingsTab {
    /// The settings page opens on the controls.
    fn default() -> (t: SettingsTab)
        ensures
            t == SettingsTab::Controls,
    {
        SettingsTab::Controls
    }
}

impl SettingsTab {
    /// The tabs in the order they are shown, each with the name of its label.
    pub fn tabs() -> (tabs: Vec<(SettingsTab, &'static str)>)
        ensures
            tabs@.len() == 2,
            tabs@[0].0 == SettingsTab::Controls && tabs@[0].1@ == "controls"@,
            tabs@[1].0 == SettingsTab::Sound && tabs@[1].1@ == "sound"@,
    {
        let mut tabs = Vec::new();
        tabs.push((SettingsTab::Controls, "controls"));
        tabs.push((SettingsTab::Sound, "sound"));
        tabs
    }
}

/// The page of the main menu that shows.
#[derive(Debug, PartialEq, Eq, Structural, Clone, Copy)]
pub enum MenuPage {
    Main,
    Settings { tab: SettingsTab },
}

impl Default for MenuPage {
    /// The menu opens on the main page.
    fn default() -> (p: MenuPage)
        ensures
            p == MenuPage::Main,
    {
        MenuPage::Main
    }
}

impl MenuPage {
    /// The page after pressing "back": the settings go back to the main page.
    pub fn back(self) -> (p: MenuPage)
        ensures
            p == MenuPage::Main,
    {
        MenuPage::Main
    }

    /// Whether pressing "back" on this page leaves it (and so clears the focus).
    pub fn back_leaves(&self) -> (res: bool)
        ensures
            res == (*self is Settings),
    {
        match self {
            MenuPage::Settings { .. } => true,
            MenuPage::Main => false,
        }
    }
}

/// A button clicked on the settings page.
#[derive(Debug, PartialEq, Eq, Structural, Clone, Copy)]
pub enum SettingsClick {
    /// One of the tabs at the top.
    Tab(SettingsTab),
    /// "Cancel": leave without saving.
    Cancel,
    /// "Save": store the modified settings and leave.
    Save,
}

/// The page after a click on the settings page, and whether the modified settings are
/// saved: a tab shows that tab, "Cancel" and "Save" go back to the main page (clearing the
/// focus), and only "Save" saves. Off the settings page no such button shows, and nothing
/// changes.
pub open spec fn spec_settings_click(page: MenuPage, click: SettingsClick) -> (MenuPage, bool) {
    match page {
        MenuPage::Main => (page, false),
        MenuPage::Settings { .. } => match click {
            SettingsClick::Tab(tab) => (MenuPage::Settings { tab }, false),
            SettingsClick::Cancel => (MenuPage::Main, false),
            SettingsClick::Save => (MenuPage::Main, true),
        },
    }
}

/// Handles a click on the settings page.
pub fn settings_click(page: MenuPage, click: SettingsClick) -> (res: (MenuPage, bool))
    ensures
        res == spec_settings_click(page, click),
{
    match page {
        MenuPage::Main => (page, false),
        MenuPage::Settings { .. } => match click {
            SettingsClick::Tab(tab) => (MenuPage::Settings { tab }, false),
            SettingsClick::Cancel => (MenuPage::Main, false),
            SettingsClick::Save => (MenuPage::Main, true),
        },
    }
}

/// How the game window is shown.
#[derive(Debug, PartialEq, Eq, Structural, Clone, Copy)]
pub enum WindowMode {
    Windowed,
    BorderlessFullscreen,
    SizedFullscreen,
    Fullscreen,
}

/// The window mode after toggling full screen: borderless full screen goes back to a
/// window, anything else goes to borderless full screen.
pub fn toggled_window_mode(mode: WindowMode) -> (m: WindowMode)
    ensures
        m == if mode == WindowMode::BorderlessFullscreen { WindowMode::Windowed } else { WindowMode::BorderlessFullscreen },
{
    match mode {
        WindowMode::BorderlessFullscreen => WindowMode::Windowed,
        _ => WindowMode::BorderlessFullscreen,
    }
}

/// A key press fed to the menu.
#[derive(Debug, PartialEq, Eq, Structural, Clone, Copy)]
pub enum MenuKey {
    /// Enter.
    Enter,
    /// Tab, to the next widget.
    Tab,
    /// Shift and tab, to the previous widget.
    ShiftTab,
}

/// The key presses that menu navigation input stands for, in this order: confirm, next,
/// previous.
pub open spec fn spec_menu_keys(confirm: bool, next: bool, previous: bool) -> Seq<MenuKey> {
    (if confirm { seq![MenuKey::Enter] } else { Seq::empty() })
        + (if next { seq![MenuKey::Tab] } else { Seq::empty() })
        + (if previous { seq![MenuKey::ShiftTab] } else { Seq::empty() })
}

/// Turns menu navigation input into the key presses the menu understands.
pub fn menu_keys(confirm: bool, next: bool, previous: bool) -> (keys: Vec<MenuKey>)
    ensures
        keys@ == spec_menu_keys(confirm, next, previous),
{
    let mut keys = Vec::new();
    if confirm {
        keys.push(MenuKey::Enter);
    }
    if next {
        keys.push(MenuKey::Tab);
    }
    if previous {
        keys.push(MenuKey::ShiftTab);
    }
    assert(keys@ =~= spec_menu_keys(confirm, next, previous));
    keys
}

/// A widget of the controls settings page.
#[derive(Debug, PartialEq, Eq, Structural, Clone, Copy)]
pub enum Widget {
    /// A settings tab, by position.
    Tab(usize),
    /// An input binding button, by position in the table read row by row.
    Input(usize),
    /// The save button.
    Save,
}

/// `upper` sits right above `lower` for gamepad navigation.
#[derive(Debug, PartialEq, Eq, Structural, Clone, Copy)]
pub struct Adjacency {
    pub upper: Widget,
    pub lower: Widget,
}

/// Every tab sits above input button `button`.
pub open spec fn tabs_above(button: int, n_tabs: int) -> Seq<Adjacency> {
    Seq::new(n_tabs as nat, |t: int| Adjacency { upper: Widget::Tab(t as usize), lower: Widget::Input(button as usize) })
}

/// The links made for table row `row` of `rows`: the first row hangs below the tabs (its
/// last column first), the last row sits above the save button, and every row but the
/// first sits below the row before it.
pub open spec fn row_adjacencies(row: int, rows: int, n_tabs: int) -> Seq<Adjacency> {
    if row == 0 {
        tabs_above(2, n_tabs) + tabs_above(1, n_tabs) + tabs_above(0, n_tabs)
    } else if row == rows - 1 {
        Seq::new(6, |k: int| {
            let i = k / 2;
            if k % 2 == 0 {
                Adjacency { upper: Widget::Input((row * 3 + i) as usize), lower: Widget::Save }
            } else {
                Adjacency { upper: Widget::Input(((row - 1) * 3 + i) as usize), lower: Widget::Input((row * 3 + i) as usize) }
            }
        })
    } else {
        Seq::new(3, |i: int| Adjacency { upper: Widget::Input(((row - 1) * 3 + i) as usize), lower: Widget::Input((row * 3 + i) as usize) })
    }
}

/// The links of the first `r` rows, row by row.
pub open spec fn adjacencies_upto(r: int, rows: int, n_tabs: int) -> Seq<Adjacency>
    decreases r,
{
    if r <= 0 {
        Seq::empty()
    } else {
        adjacencies_upto(r - 1, rows, n_tabs) + row_adjacencies(r - 1, rows, n_tabs)
    }
}

/// Links every tab above input button `button`.
fn push_tabs_above(adj: &mut Vec<Adjacency>, button: usize, n_tabs: usize)
    ensures
        final(adj)@ == old(adj)@ + tabs_above(button as int, n_tabs as int),
{
    let mut t: usize = 0;
    while t < n_tabs
        invariant
            t <= n_tabs,
            adj@ == old(adj)@ + tabs_above(button as int, t as int),
        decreases n_tabs - t,
    {
        adj.push(Adjacency { upper: Widget::Tab(t), lower: Widget::Input(button) });
        t = t + 1;
        assert(adj@ =~= old(adj)@ + tabs_above(button as int, t as int));
    }
}

/// The gamepad navigation links of a controls table of `rows` rows of input buttons (three
/// columns) under `n_tabs` settings tabs and above the save button, row by row.
pub fn control_adjacencies(rows: usize, n_tabs: usize) -> (adj: Vec<Adjacency>)
    requires
        rows <= usize::MAX / 3,
    ensures
        adj@ == adjacencies_upto(rows as int, rows as int, n_tabs as int),
{
    let mut adj: Vec<Adjacency> = Vec::new();
    let mut row: usize = 0;
    while row < rows
        invariant
            row <= rows,
            rows <= usize::MAX / 3,
            adj@ == adjacencies_upto(row as int, rows as int, n_tabs as int),
        decreases rows - row,
    {
        let ghost before = adj@;
        if row == 0 {
            push_tabs_above(&mut adj, 2, n_tabs);
            push_tabs_above(&mut adj, 1, n_tabs);
            push_tabs_above(&mut adj, 0, n_tabs);
            assert(adj@ =~= before + row_adjacencies(row as int, rows as int, n_tabs as int));
        } else if row == rows - 1 {
            let mut i: usize = 0;
            while i < 3
                invariant
                    0 < row < rows,
                    row == rows - 1,
                    rows <= usize::MAX / 3,
                    i <= 3,
                    adj@ == before + row_adjacencies(row as int, rows as int, n_tabs as int).take(2 * i),
                decreases 3 - i,
            {
                adj.push(Adjacency { upper: Widget::Input(row * 3 + i), lower: Widget::Save });
                adj.push(Adjacency { upper: Widget::Input((row - 1) * 3 + i), lower: Widget::Input(row * 3 + i) });
                proof {
                    let s = row_adjacencies(row as int, rows as int, n_tabs as int);
                    assert((2 * i) / 2 == i && (2 * i) % 2 == 0) by (nonlinear_arith);
                    assert((2 * i + 1) / 2 == i && (2 * i + 1) % 2 == 1) by (nonlinear_arith);
                    assert(s.take(2 * i + 2) =~= s.take(2 * i).push(s[2 * i]).push(s[2 * i + 1]));
                }
                i = i + 1;
            }
            assert(row_adjacencies(row as int, rows as int, n_tabs as int).take(6)
                =~= row_adjacencies(row as int, rows as int, n_tabs as int));
        } else {
            let mut i: usize = 0;
            while i < 3
                invariant
                    0 < row < rows - 1,
                    rows <= usize::MAX / 3,
                    i <= 3,
                    adj@ == before + row_adjacencies(row as int, rows as int, n_tabs as int).take(i as int),
                decreases 3 - i,
            {
                adj.push(Adjacency { upper: Widget::Input((row - 1) * 3 + i), lower: Widget::Input(row * 3 + i) });
                proof {
                    let s = row_adjacencies(row as int, rows as int, n_tabs as int);
                    assert(s.take(i + 1) =~= s.take(i as int).push(s[i as int]));
                }
                i = i + 1;
            }
            assert(row_adjacencies(row as int, rows as int, n_tabs as int).take(3)
                =~= row_adjacencies(row as int, rows as int, n_tabs as int));
        }
        row = row + 1;
    }
    adj
}

} // verus!
