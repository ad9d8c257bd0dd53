//! Key bindings the file manager handles itself.
//!
//! The defaults below are the full set, the one the application window uses. The
//! desktop and the file chooser dialog carry fewer: [`allowed`] filters the
//! resolved map down to what the mode can actually perform, so a user rebinding an
//! action does not smuggle it into a mode that has no place for it.
//!
//! How the user's map is layered over the defaults, and how a binding becomes a
//! key press, belong to the toolkit; the layered map comes in here as a list.

use vstd::prelude::*;
use crate::text::chars_of;
use crate::text::string_of;

verus! {

/// A modifier key of a binding.
#[derive(Clone, Copy, Debug, PartialEq, Eq, Structural, Hash, PartialOrd, Ord)]
pub enum ModifierName {
    Super,
    Ctrl,
    Alt,
    Shift,
}

/// A key combination as it is stored: modifiers and the key's spelling.
#[derive(Clone, Debug)]
pub struct Binding {
    pub modifiers: Vec<ModifierName>,
    pub key: String,
}

impl Binding {
    pub fn new(modifiers: Vec<ModifierName>, key: &str) -> (r: Binding)
        ensures
            r.modifiers@ == modifiers@,
            r.key@ == key@,
    {
        Binding { modifiers, key: string_of(chars_of(key).as_slice()) }
    }
}

/// The window, the desktop, or the file chooser dialog.
#[derive(Clone, Copy, Debug, PartialEq, Eq, Structural)]
pub enum Mode {
    App,
    Desktop,
    Dialog,
}

/// What a key press asks the file manager to do.
#[derive(Clone, Copy, Debug, PartialEq, Eq, Structural, Hash)]
pub enum Action {
    AddToSidebar,
    Copy,
    CopyPath,
    Cut,
    Delete,
    EditLocation,
    Gallery,
    HistoryNext,
    HistoryPrevious,
    ItemDown,
    ItemLeft,
    ItemPageDown,
    ItemPageUp,
    ItemRight,
    ItemUp,
    LocationUp,
    NewFolder,
    Open,
    OpenInNewTab,
    OpenInNewWindow,
    Paste,
    PermanentlyDelete,
    Preview,
    Reload,
    Rename,
    SearchActivate,
    SelectAll,
    SelectFirst,
    SelectLast,
    Settings,
    TabClose,
    TabNew,
    TabNext,
    TabPrev,
    TabViewGrid,
    TabViewList,
    ToggleShowHidden,
    WindowClose,
    WindowNew,
    ZoomDefault,
    ZoomIn,
    ZoomOut,
}

/// An action a key combination can be bound to.
///
/// Kept apart from [`Action`] so that the storable set is explicit and can carry
/// `Disable`, which takes a shipped binding away instead of running anything.
#[derive(Clone, Copy, Debug, PartialEq, Eq, Structural, Hash, PartialOrd, Ord)]
pub enum KeyBindAction {
    Disable,
    AddToSidebar,
    Copy,
    CopyPath,
    Cut,
    Delete,
    EditLocation,
    Gallery,
    HistoryNext,
    HistoryPrevious,
    ItemDown,
    ItemLeft,
    ItemPageDown,
    ItemPageUp,
    ItemRight,
    ItemUp,
    LocationUp,
    NewFolder,
    Open,
    OpenInNewTab,
    OpenInNewWindow,
    Paste,
    PermanentlyDelete,
    Preview,
    Reload,
    Rename,
    SearchActivate,
    SelectAll,
    SelectFirst,
    SelectLast,
    Settings,
    TabClose,
    TabNew,
    TabNext,
    TabPrev,
    TabViewGrid,
    TabViewList,
    ToggleShowHidden,
    WindowClose,
    WindowNew,
    ZoomDefault,
    ZoomIn,
    ZoomOut,
}

/// The action a stored action runs; `Disable` runs none.
pub open spec fn action_for(k: KeyBindAction) -> Option<Action> {
    match k {
        KeyBindAction::Disable => None,
        KeyBindAction::AddToSidebar => Some(Action::AddToSidebar),
        KeyBindAction::Copy => Some(Action::Copy),
        KeyBindAction::CopyPath => Some(Action::CopyPath),
        KeyBindAction::Cut => Some(Action::Cut),
        KeyBindAction::Delete => Some(Action::Delete),
        KeyBindAction::EditLocation => Some(Action::EditLocation),
        KeyBindAction::Gallery => Some(Action::Gallery),
        KeyBindAction::HistoryNext => Some(Action::HistoryNext),
        KeyBindAction::HistoryPrevious => Some(Action::HistoryPrevious),
        KeyBindAction::ItemDown => Some(Action::ItemDown),
        KeyBindAction::ItemLeft => Some(Action::ItemLeft),
        KeyBindAction::ItemPageDown => Some(Action::ItemPageDown),
        KeyBindAction::ItemPageUp => Some(Action::ItemPageUp),
        KeyBindAction::ItemRight => Some(Action::ItemRight),
        KeyBindAction::ItemUp => Some(Action::ItemUp),
        KeyBindAction::LocationUp => Some(Action::LocationUp),
        KeyBindAction::NewFolder => Some(Action::NewFolder),
        KeyBindAction::Open => Some(Action::Open),
        KeyBindAction::OpenInNewTab => Some(Action::OpenInNewTab),
        KeyBindAction::OpenInNewWindow => Some(Action::OpenInNewWindow),
        KeyBindAction::Paste => Some(Action::Paste),
        KeyBindAction::PermanentlyDelete => Some(Action::PermanentlyDelete),
        KeyBindAction::Preview => Some(Action::Preview),
        KeyBindAction::Reload => Some(Action::Reload),
        KeyBindAction::Rename => Some(Action::Rename),
        KeyBindAction::SearchActivate => Some(Action::SearchActivate),
        KeyBindAction::SelectAll => Some(Action::SelectAll),
        KeyBindAction::SelectFirst => Some(Action::SelectFirst),
        KeyBindAction::SelectLast => Some(Action::SelectLast),
        KeyBindAction::Settings => Some(Action::Settings),
        KeyBindAction::TabClose => Some(Action::TabClose),
        KeyBindAction::TabNew => Some(Action::TabNew),
        KeyBindAction::TabNext => Some(Action::TabNext),
        KeyBindAction::TabPrev => Some(Action::TabPrev),
        KeyBindAction::TabViewGrid => Some(Action::TabViewGrid),
        KeyBindAction::TabViewList => Some(Action::TabViewList),
        KeyBindAction::ToggleShowHidden => Some(Action::ToggleShowHidden),
        KeyBindAction::WindowClose => Some(Action::WindowClose),
        KeyBindAction::WindowNew => Some(Action::WindowNew),
        KeyBindAction::ZoomDefault => Some(Action::ZoomDefault),
        KeyBindAction::ZoomIn => Some(Action::ZoomIn),
        KeyBindAction::ZoomOut => Some(Action::ZoomOut),
    }
}

impl KeyBindAction {
    /// Whether this entry takes a binding away.
    pub fn is_disable(&self) -> (r: bool)
        ensures
            r == (*self == KeyBindAction::Disable),
    {
        *self == KeyBindAction::Disable
    }

    /// The action this runs, `None` for `Disable`.
    pub fn to_action(self) -> (r: Option<Action>)
        ensures
            r == action_for(self),
    {
        Some(
            match self {
                KeyBindAction::Disable => return None,
                KeyBindAction::AddToSidebar => Action::AddToSidebar,
                KeyBindAction::Copy => Action::Copy,
                KeyBindAction::CopyPath => Action::CopyPath,
                KeyBindAction::Cut => Action::Cut,
                KeyBindAction::Delete => Action::Delete,
                KeyBindAction::EditLocation => Action::EditLocation,
                KeyBindAction::Gallery => Action::Gallery,
                KeyBindAction::HistoryNext => Action::HistoryNext,
                KeyBindAction::HistoryPrevious => Action::HistoryPrevious,
                KeyBindAction::ItemDown => Action::ItemDown,
                KeyBindAction::ItemLeft => Action::ItemLeft,
                KeyBindAction::ItemPageDown => Action::ItemPageDown,
                KeyBindAction::ItemPageUp => Action::ItemPageUp,
                KeyBindAction::ItemRight => Action::ItemRight,
                KeyBindAction::ItemUp => Action::ItemUp,
                KeyBindAction::LocationUp => Action::LocationUp,
                KeyBindAction::NewFolder => Action::NewFolder,
                KeyBindAction::Open => Action::Open,
                KeyBindAction::OpenInNewTab => Action::OpenInNewTab,
                KeyBindAction::OpenInNewWindow => Action::OpenInNewWindow,
                KeyBindAction::Paste => Action::Paste,
                KeyBindAction::PermanentlyDelete => Action::PermanentlyDelete,
                KeyBindAction::Preview => Action::Preview,
                KeyBindAction::Reload => Action::Reload,
                KeyBindAction::Rename => Action::Rename,
                KeyBindAction::SearchActivate => Action::SearchActivate,
                KeyBindAction::SelectAll => Action::SelectAll,
                KeyBindAction::SelectFirst => Action::SelectFirst,
                KeyBindAction::SelectLast => Action::SelectLast,
                KeyBindAction::Settings => Action::Settings,
                KeyBindAction::TabClose => Action::TabClose,
                KeyBindAction::TabNew => Action::TabNew,
                KeyBindAction::TabNext => Action::TabNext,
                KeyBindAction::TabPrev => Action::TabPrev,
                KeyBindAction::TabViewGrid => Action::TabViewGrid,
                KeyBindAction::TabViewList => Action::TabViewList,
                KeyBindAction::ToggleShowHidden => Action::ToggleShowHidden,
                KeyBindAction::WindowClose => Action::WindowClose,
                KeyBindAction::WindowNew => Action::WindowNew,
                KeyBindAction::ZoomDefault => Action::ZoomDefault,
                KeyBindAction::ZoomIn => Action::ZoomIn,
                KeyBindAction::ZoomOut => Action::ZoomOut,
            },
        )
    }
}

/// Actions that need tabs or the application window.
pub open spec fn app_only(a: Action) -> bool {
    a == Action::AddToSidebar || a == Action::OpenInNewTab || a == Action::Settings || a == Action::TabClose || a == Action::TabNew || a == Action::TabNext || a == Action::TabPrev || a == Action::WindowClose || a == Action::WindowNew
}

/// Actions on files that the dialog does not perform.
pub open spec fn file_changing(a: Action) -> bool {
    a == Action::Copy || a == Action::CopyPath || a == Action::Cut || a == Action::Delete || a == Action::OpenInNewWindow || a == Action::Paste || a == Action::PermanentlyDelete || a == Action::Rename
}

/// Navigation that the desktop does not have.
pub open spec fn navigating(a: Action) -> bool {
    a == Action::EditLocation || a == Action::HistoryNext || a == Action::HistoryPrevious || a == Action::LocationUp || a == Action::SearchActivate
}

/// Whether a mode can perform an action at all: the desktop has no tabs and no
/// settings window; the file chooser dialog neither copies files nor renames them.
pub open spec fn can_perform(a: Action, mode: Mode) -> bool {
    if app_only(a) {
        mode == Mode::App
    } else if file_changing(a) {
        mode == Mode::App || mode == Mode::Desktop
    } else if navigating(a) {
        mode == Mode::App || mode == Mode::Dialog
    } else {
        true
    }
}

/// Whether a mode can perform an action at all.
///
/// The desktop has no tabs and no settings window; the file chooser dialog neither
/// copies files nor renames them. A binding for something the mode cannot do is
/// dropped rather than left to fire into nothing.
pub fn allowed(action: Action, mode: &Mode) -> (r: bool)
    ensures
        r == can_perform(action, *mode),
{
    match action {
        Action::AddToSidebar
        | Action::OpenInNewTab
        | Action::Settings
        | Action::TabClose
        | Action::TabNew
        | Action::TabNext
        | Action::TabPrev
        | Action::WindowClose
        | Action::WindowNew => *mode == Mode::App,
        Action::Copy
        | Action::CopyPath
        | Action::Cut
        | Action::Delete
        | Action::OpenInNewWindow
        | Action::Paste
        | Action::PermanentlyDelete
        | Action::Rename => *mode == Mode::App || *mode == Mode::Desktop,
        Action::EditLocation
        | Action::HistoryNext
        | Action::HistoryPrevious
        | Action::LocationUp
        | Action::SearchActivate => *mode == Mode::App || *mode == Mode::Dialog,
        _ => true,
    }
}

/// The bindings a mode matches key presses against, from the resolved map: each
/// entry's action where it runs one the mode can perform, in order.
pub open spec fn resolved_binds(entries: Seq<(Binding, KeyBindAction)>, mode: Mode) -> Seq<(Binding, Action)>
    decreases entries.len(),
{
    if entries.len() == 0 {
        seq![]
    } else {
        let init = resolved_binds(entries.drop_last(), mode);
        let e = entries.last();
        match action_for(e.1) {
            Some(a) => if can_perform(a, mode) {
                init.push((e.0, a))
            } else {
                init
            },
            None => init,
        }
    }
}

/// Resolves the layered map (the user's bindings over [`fallback_shortcuts`]) into
/// the bindings the given mode matches key presses against.
pub fn key_binds(mode: &Mode, resolved: Vec<(Binding, KeyBindAction)>) -> (r: Vec<(Binding, Action)>)
    ensures
        r@ == resolved_binds(resolved@, *mode),
{
    let ghost all = resolved@;
    let n = resolved.len();
    let mut rest: Vec<(Binding, KeyBindAction)> = Vec::new();
    let mut resolved = resolved;
    while resolved.len() > 0
        invariant
            resolved@.len() + rest@.len() == all.len(),
            forall|j: int| 0 <= j < resolved@.len() ==> #[trigger] resolved@[j] == all[j],
            forall|j: int| 0 <= j < rest@.len() ==> #[trigger] rest@[j] == all[all.len() - 1 - j],
        decreases resolved@.len(),
    {
        let x = resolved.pop().unwrap();
        rest.push(x);
    }
    let mut out: Vec<(Binding, Action)> = Vec::new();
    let mut done: usize = 0;
    while rest.len() > 0
        invariant
            done + rest@.len() == all.len(),
            all.len() == n,
            forall|j: int| 0 <= j < rest@.len() ==> #[trigger] rest@[j] == all[all.len() - 1 - j],
            out@ == resolved_binds(all.take(done as int), *mode),
        decreases rest@.len(),
    {
        let (binding, action) = rest.pop().unwrap();
        proof {
            assert(all.take(done + 1).drop_last() == all.take(done as int));
            assert(all.take(done + 1).last() == all[done as int]);
        }
        match action.to_action() {
            Some(a) => {
                if allowed(a, mode) {
                    out.push((binding, a));
                }
            },
            None => {},
        }
        done = done + 1;
    }
    proof {
        assert(all.take(done as int) == all);
    }
    out
}

/// The stored map: key combinations and what they are bound to.
pub struct Shortcuts(pub Vec<(Binding, KeyBindAction)>);

/// How a stored map reads in contracts.
pub open spec fn shortcuts_view(s: Seq<(Binding, KeyBindAction)>) -> Seq<(Seq<ModifierName>, Seq<char>, KeyBindAction)> {
    s.map_values(|e: (Binding, KeyBindAction)| (e.0.modifiers@, e.0.key@, e.1))
}

impl Shortcuts {
    pub fn new() -> (r: Shortcuts)
        ensures
            r.0@.len() == 0,
    {
        Shortcuts(Vec::new())
    }
}

/// The bindings the application ships, in the order they are declared.
pub open spec fn shipped() -> Seq<(Seq<ModifierName>, Seq<char>, KeyBindAction)> {
    seq![
        (Seq::<ModifierName>::empty(), "ArrowDown"@, KeyBindAction::ItemDown),
        (Seq::<ModifierName>::empty(), "ArrowLeft"@, KeyBindAction::ItemLeft),
        (Seq::<ModifierName>::empty(), "ArrowRight"@, KeyBindAction::ItemRight),
        (Seq::<ModifierName>::empty(), "ArrowUp"@, KeyBindAction::ItemUp),
        (Seq::<ModifierName>::empty(), "F5"@, KeyBindAction::Reload),
        (Seq::<ModifierName>::empty(), "Home"@, KeyBindAction::SelectFirst),
        (Seq::<ModifierName>::empty(), "End"@, KeyBindAction::SelectLast),
        (Seq::<ModifierName>::empty(), "PageDown"@, KeyBindAction::ItemPageDown),
        (Seq::<ModifierName>::empty(), "PageUp"@, KeyBindAction::ItemPageUp),
        (seq![ModifierName::Shift], "ArrowDown"@, KeyBindAction::ItemDown),
        (seq![ModifierName::Shift], "ArrowLeft"@, KeyBindAction::ItemLeft),
        (seq![ModifierName::Shift], "ArrowRight"@, KeyBindAction::ItemRight),
        (seq![ModifierName::Shift], "ArrowUp"@, KeyBindAction::ItemUp),
        (seq![ModifierName::Shift], "Home"@, KeyBindAction::SelectFirst),
        (seq![ModifierName::Shift], "End"@, KeyBindAction::SelectLast),
        (seq![ModifierName::Shift], "PageDown"@, KeyBindAction::ItemPageDown),
        (seq![ModifierName::Shift], "PageUp"@, KeyBindAction::ItemPageUp),
        (seq![ModifierName::Ctrl, ModifierName::Shift], "N"@, KeyBindAction::NewFolder),
        (Seq::<ModifierName>::empty(), "Enter"@, KeyBindAction::Open),
        (seq![ModifierName::Ctrl], "Space"@, KeyBindAction::Preview),
        (Seq::<ModifierName>::empty(), "Space"@, KeyBindAction::Gallery),
        (seq![ModifierName::Ctrl], "H"@, KeyBindAction::ToggleShowHidden),
        (seq![ModifierName::Ctrl], "A"@, KeyBindAction::SelectAll),
        (seq![ModifierName::Ctrl], "="@, KeyBindAction::ZoomIn),
        (seq![ModifierName::Ctrl], "+"@, KeyBindAction::ZoomIn),
        (seq![ModifierName::Ctrl], "0"@, KeyBindAction::ZoomDefault),
        (seq![ModifierName::Ctrl], "-"@, KeyBindAction::ZoomOut),
        (seq![ModifierName::Ctrl], "1"@, KeyBindAction::TabViewList),
        (seq![ModifierName::Ctrl], "2"@, KeyBindAction::TabViewGrid),
        (seq![ModifierName::Ctrl], "D"@, KeyBindAction::AddToSidebar),
        (seq![ModifierName::Ctrl], "Enter"@, KeyBindAction::OpenInNewTab),
        (seq![ModifierName::Ctrl], ","@, KeyBindAction::Settings),
        (seq![ModifierName::Ctrl], "W"@, KeyBindAction::TabClose),
        (seq![ModifierName::Ctrl], "T"@, KeyBindAction::TabNew),
        (seq![ModifierName::Ctrl], "Tab"@, KeyBindAction::TabNext),
        (seq![ModifierName::Ctrl, ModifierName::Shift], "Tab"@, KeyBindAction::TabPrev),
        (seq![ModifierName::Ctrl], "Q"@, KeyBindAction::WindowClose),
        (seq![ModifierName::Ctrl], "N"@, KeyBindAction::WindowNew),
        (seq![ModifierName::Ctrl], "C"@, KeyBindAction::Copy),
        (seq![ModifierName::Ctrl, ModifierName::Shift], "C"@, KeyBindAction::CopyPath),
        (seq![ModifierName::Ctrl], "X"@, KeyBindAction::Cut),
        (Seq::<ModifierName>::empty(), "Delete"@, KeyBindAction::Delete),
        (seq![ModifierName::Shift], "Delete"@, KeyBindAction::PermanentlyDelete),
        (seq![ModifierName::Shift], "Enter"@, KeyBindAction::OpenInNewWindow),
        (seq![ModifierName::Ctrl], "V"@, KeyBindAction::Paste),
        (Seq::<ModifierName>::empty(), "F2"@, KeyBindAction::Rename),
        (seq![ModifierName::Ctrl], "L"@, KeyBindAction::EditLocation),
        (seq![ModifierName::Alt], "ArrowRight"@, KeyBindAction::HistoryNext),
        (seq![ModifierName::Alt], "ArrowLeft"@, KeyBindAction::HistoryPrevious),
        (Seq::<ModifierName>::empty(), "Backspace"@, KeyBindAction::HistoryPrevious),
        (seq![ModifierName::Alt], "ArrowUp"@, KeyBindAction::LocationUp),
        (seq![ModifierName::Ctrl], "F"@, KeyBindAction::SearchActivate),
    ]
}

fn no_modifiers() -> (r: Vec<ModifierName>)
    ensures
        r@ == Seq::<ModifierName>::empty(),
{
    Vec::new()
}

fn one_modifier(a: ModifierName) -> (r: Vec<ModifierName>)
    ensures
        r@ == seq![a],
{
    let mut v = Vec::new();
    v.push(a);
    proof {
        assert(v@ =~= seq![a]);
    }
    v
}

fn two_modifiers(a: ModifierName, b: ModifierName) -> (r: Vec<ModifierName>)
    ensures
        r@ == seq![a, b],
{
    let mut v = Vec::new();
    v.push(a);
    v.push(b);
    proof {
        assert(v@ =~= seq![a, b]);
    }
    v
}

fn bind(shortcuts: &mut Shortcuts, modifiers: Vec<ModifierName>, key: &str, action: KeyBindAction)
    ensures
        shortcuts_view(final(shortcuts).0@) == shortcuts_view(old(shortcuts).0@).push((modifiers@, key@, action)),
{
    let ghost m = modifiers@;
    let b = Binding::new(modifiers, key);
    shortcuts.0.push((b, action));
    proof {
        assert(shortcuts_view(shortcuts.0@) =~= shortcuts_view(old(shortcuts).0@).push((m, key@, action)));
    }
}

/// The bindings the application ships.
///
/// Single latin letters are written upper case, which is how a captured key is
/// spelled: a user rebinding one has to land on this very entry and replace it,
/// not settle beside it.
pub fn fallback_shortcuts() -> (r: Shortcuts)
    ensures
        shortcuts_view(r.0@) == shipped(),
        forall|i: int, j: int|
            0 <= i < j < r.0@.len() ==> (#[trigger] r.0@[i]).0.modifiers@ != (#[trigger] r.0@[j]).0.modifiers@
                || r.0@[i].0.key@ != r.0@[j].0.key@,
{
    let mut shortcuts = Shortcuts::new();
    proof {
        assert(shortcuts_view(shortcuts.0@) =~= Seq::<(Seq<ModifierName>, Seq<char>, KeyBindAction)>::empty());
    }
    bind(&mut shortcuts, no_modifiers(), "ArrowDown", KeyBindAction::ItemDown);
    bind(&mut shortcuts, no_modifiers(), "ArrowLeft", KeyBindAction::ItemLeft);
    bind(&mut shortcuts, no_modifiers(), "ArrowRight", KeyBindAction::ItemRight);
    bind(&mut shortcuts, no_modifiers(), "ArrowUp", KeyBindAction::ItemUp);
    bind(&mut shortcuts, no_modifiers(), "F5", KeyBindAction::Reload);
    bind(&mut shortcuts, no_modifiers(), "Home", KeyBindAction::SelectFirst);
    bind(&mut shortcuts, no_modifiers(), "End", KeyBindAction::SelectLast);
    bind(&mut shortcuts, no_modifiers(), "PageDown", KeyBindAction::ItemPageDown);
    bind(&mut shortcuts, no_modifiers(), "PageUp", KeyBindAction::ItemPageUp);
    bind(&mut shortcuts, one_modifier(ModifierName::Shift), "ArrowDown", KeyBindAction::ItemDown);
    bind(&mut shortcuts, one_modifier(ModifierName::Shift), "ArrowLeft", KeyBindAction::ItemLeft);
    bind(&mut shortcuts, one_modifier(ModifierName::Shift), "ArrowRight", KeyBindAction::ItemRight);
    bind(&mut shortcuts, one_modifier(ModifierName::Shift), "ArrowUp", KeyBindAction::ItemUp);
    bind(&mut shortcuts, one_modifier(ModifierName::Shift), "Home", KeyBindAction::SelectFirst);
    bind(&mut shortcuts, one_modifier(ModifierName::Shift), "End", KeyBindAction::SelectLast);
    bind(&mut shortcuts, one_modifier(ModifierName::Shift), "PageDown", KeyBindAction::ItemPageDown);
    bind(&mut shortcuts, one_modifier(ModifierName::Shift), "PageUp", KeyBindAction::ItemPageUp);
    bind(&mut shortcuts, two_modifiers(ModifierName::Ctrl, ModifierName::Shift), "N", KeyBindAction::NewFolder);
    bind(&mut shortcuts, no_modifiers(), "Enter", KeyBindAction::Open);
    bind(&mut shortcuts, one_modifier(ModifierName::Ctrl), "Space", KeyBindAction::Preview);
    bind(&mut shortcuts, no_modifiers(), "Space", KeyBindAction::Gallery);
    bind(&mut shortcuts, one_modifier(ModifierName::Ctrl), "H", KeyBindAction::ToggleShowHidden);
    bind(&mut shortcuts, one_modifier(ModifierName::Ctrl), "A", KeyBindAction::SelectAll);
    bind(&mut shortcuts, one_modifier(ModifierName::Ctrl), "=", KeyBindAction::ZoomIn);
    bind(&mut shortcuts, one_modifier(ModifierName::Ctrl), "+", KeyBindAction::ZoomIn);
    bind(&mut shortcuts, one_modifier(ModifierName::Ctrl), "0", KeyBindAction::ZoomDefault);
    bind(&mut shortcuts, one_modifier(ModifierName::Ctrl), "-", KeyBindAction::ZoomOut);
    bind(&mut shortcuts, one_modifier(ModifierName::Ctrl), "1", KeyBindAction::TabViewList);
    bind(&mut shortcuts, one_modifier(ModifierName::Ctrl), "2", KeyBindAction::TabViewGrid);
    bind(&mut shortcuts, one_modifier(ModifierName::Ctrl), "D", KeyBindAction::AddToSidebar);
    bind(&mut shortcuts, one_modifier(ModifierName::Ctrl), "Enter", KeyBindAction::OpenInNewTab);
    bind(&mut shortcuts, one_modifier(ModifierName::Ctrl), ",", KeyBindAction::Settings);
    bind(&mut shortcuts, one_modifier(ModifierName::Ctrl), "W", KeyBindAction::TabClose);
    bind(&mut shortcuts, one_modifier(ModifierName::Ctrl), "T", KeyBindAction::TabNew);
    bind(&mut shortcuts, one_modifier(ModifierName::Ctrl), "Tab", KeyBindAction::TabNext);
    bind(&mut shortcuts, two_modifiers(ModifierName::Ctrl, ModifierName::Shift), "Tab", KeyBindAction::TabPrev);
    bind(&mut shortcuts, one_modifier(ModifierName::Ctrl), "Q", KeyBindAction::WindowClose);
    bind(&mut shortcuts, one_modifier(ModifierName::Ctrl), "N", KeyBindAction::WindowNew);
    bind(&mut shortcuts, one_modifier(ModifierName::Ctrl), "C", KeyBindAction::Copy);
    bind(&mut shortcuts, two_modifiers(ModifierName::Ctrl, ModifierName::Shift), "C", KeyBindAction::CopyPath);
    bind(&mut shortcuts, one_modifier(ModifierName::Ctrl), "X", KeyBindAction::Cut);
    bind(&mut shortcuts, no_modifiers(), "Delete", KeyBindAction::Delete);
    bind(&mut shortcuts, one_modifier(ModifierName::Shift), "Delete", KeyBindAction::PermanentlyDelete);
    bind(&mut shortcuts, one_modifier(ModifierName::Shift), "Enter", KeyBindAction::OpenInNewWindow);
    bind(&mut shortcuts, one_modifier(ModifierName::Ctrl), "V", KeyBindAction::Paste);
    bind(&mut shortcuts, no_modifiers(), "F2", KeyBindAction::Rename);
    bind(&mut shortcuts, one_modifier(ModifierName::Ctrl), "L", KeyBindAction::EditLocation);
    bind(&mut shortcuts, one_modifier(ModifierName::Alt), "ArrowRight", KeyBindAction::HistoryNext);
    bind(&mut shortcuts, one_modifier(ModifierName::Alt), "ArrowLeft", KeyBindAction::HistoryPrevious);
    bind(&mut shortcuts, no_modifiers(), "Backspace", KeyBindAction::HistoryPrevious);
    bind(&mut shortcuts, one_modifier(ModifierName::Alt), "ArrowUp", KeyBindAction::LocationUp);
    bind(&mut shortcuts, one_modifier(ModifierName::Ctrl), "F", KeyBindAction::SearchActivate);
    proof {
        assert(shortcuts_view(shortcuts.0@) =~= shipped());
        lemma_no_combination_shipped_twice();
        let v = shortcuts.0@;
        assert forall|i: int, j: int| 0 <= i < j < v.len() implies (#[trigger] v[i]).0.modifiers@
            != (#[trigger] v[j]).0.modifiers@ || v[i].0.key@ != v[j].0.key@ by {
            assert(shipped()[i] == shortcuts_view(v)[i]);
            assert(shipped()[j] == shortcuts_view(v)[j]);
        }
    }
    shortcuts
}


/// Every shipped key that is a single character is not a lower-case latin letter:
/// letters are spelled the way a captured key is.
pub proof fn lemma_shipped_letters_are_upper_case()
    ensures
        forall|i: int|
            0 <= i < shipped().len() && (#[trigger] shipped()[i]).1.len() == 1 ==> !('a' <= shipped()[i].1[0]
                && shipped()[i].1[0] <= 'z'),
{
    reveal_strlit("+");
    reveal_strlit(",");
    reveal_strlit("-");
    reveal_strlit("0");
    reveal_strlit("1");
    reveal_strlit("2");
    reveal_strlit("=");
    reveal_strlit("A");
    reveal_strlit("ArrowDown");
    reveal_strlit("ArrowLeft");
    reveal_strlit("ArrowRight");
    reveal_strlit("ArrowUp");
    reveal_strlit("Backspace");
    reveal_strlit("C");
    reveal_strlit("D");
    reveal_strlit("Delete");
    reveal_strlit("End");
    reveal_strlit("Enter");
    reveal_strlit("F");
    reveal_strlit("F2");
    reveal_strlit("F5");
    reveal_strlit("H");
    reveal_strlit("Home");
    reveal_strlit("L");
    reveal_strlit("N");
    reveal_strlit("PageDown");
    reveal_strlit("PageUp");
    reveal_strlit("Q");
    reveal_strlit("Space");
    reveal_strlit("T");
    reveal_strlit("Tab");
    reveal_strlit("V");
    reveal_strlit("W");
    reveal_strlit("X");
}

/// Every action the file manager can bind has a shipped binding.
pub proof fn lemma_every_action_shipped(a: Action)
    ensures
        exists|i: int| 0 <= i < shipped().len() && action_for(#[trigger] shipped()[i].2) == Some(a),
{
    let s = shipped();
    match a {
        Action::AddToSidebar => { assert(action_for(s[29].2) == Some(a)); },
        Action::Copy => { assert(action_for(s[38].2) == Some(a)); },
        Action::CopyPath => { assert(action_for(s[39].2) == Some(a)); },
        Action::Cut => { assert(action_for(s[40].2) == Some(a)); },
        Action::Delete => { assert(action_for(s[41].2) == Some(a)); },
        Action::EditLocation => { assert(action_for(s[46].2) == Some(a)); },
        Action::Gallery => { assert(action_for(s[20].2) == Some(a)); },
        Action::HistoryNext => { assert(action_for(s[47].2) == Some(a)); },
        Action::HistoryPrevious => { assert(action_for(s[48].2) == Some(a)); },
        Action::ItemDown => { assert(action_for(s[0].2) == Some(a)); },
        Action::ItemLeft => { assert(action_for(s[1].2) == Some(a)); },
        Action::ItemPageDown => { assert(action_for(s[7].2) == Some(a)); },
        Action::ItemPageUp => { assert(action_for(s[8].2) == Some(a)); },
        Action::ItemRight => { assert(action_for(s[2].2) == Some(a)); },
        Action::ItemUp => { assert(action_for(s[3].2) == Some(a)); },
        Action::LocationUp => { assert(action_for(s[50].2) == Some(a)); },
        Action::NewFolder => { assert(action_for(s[17].2) == Some(a)); },
        Action::Open => { assert(action_for(s[18].2) == Some(a)); },
        Action::OpenInNewTab => { assert(action_for(s[30].2) == Some(a)); },
        Action::OpenInNewWindow => { assert(action_for(s[43].2) == Some(a)); },
        Action::Paste => { assert(action_for(s[44].2) == Some(a)); },
        Action::PermanentlyDelete => { assert(action_for(s[42].2) == Some(a)); },
        Action::Preview => { assert(action_for(s[19].2) == Some(a)); },
        Action::Reload => { assert(action_for(s[4].2) == Some(a)); },
        Action::Rename => { assert(action_for(s[45].2) == Some(a)); },
        Action::SearchActivate => { assert(action_for(s[51].2) == Some(a)); },
        Action::SelectAll => { assert(action_for(s[22].2) == Some(a)); },
        Action::SelectFirst => { assert(action_for(s[5].2) == Some(a)); },
        Action::SelectLast => { assert(action_for(s[6].2) == Some(a)); },
        Action::Settings => { assert(action_for(s[31].2) == Some(a)); },
        Action::TabClose => { assert(action_for(s[32].2) == Some(a)); },
        Action::TabNew => { assert(action_for(s[33].2) == Some(a)); },
        Action::TabNext => { assert(action_for(s[34].2) == Some(a)); },
        Action::TabPrev => { assert(action_for(s[35].2) == Some(a)); },
        Action::TabViewGrid => { assert(action_for(s[28].2) == Some(a)); },
        Action::TabViewList => { assert(action_for(s[27].2) == Some(a)); },
        Action::ToggleShowHidden => { assert(action_for(s[21].2) == Some(a)); },
        Action::WindowClose => { assert(action_for(s[36].2) == Some(a)); },
        Action::WindowNew => { assert(action_for(s[37].2) == Some(a)); },
        Action::ZoomDefault => { assert(action_for(s[25].2) == Some(a)); },
        Action::ZoomIn => { assert(action_for(s[23].2) == Some(a)); },
        Action::ZoomOut => { assert(action_for(s[26].2) == Some(a)); },
    }
}

/// The bindings of a mode only run actions the mode can perform, and never
/// `Disable`.
pub proof fn lemma_key_binds_only_what_the_mode_can_do(entries: Seq<(Binding, KeyBindAction)>, mode: Mode)
    ensures
        forall|i: int|
            0 <= i < resolved_binds(entries, mode).len() ==> can_perform(
                (#[trigger] resolved_binds(entries, mode)[i]).1,
                mode,
            ),
    decreases entries.len(),
{
    if entries.len() > 0 {
        let init = resolved_binds(entries.drop_last(), mode);
        let r = resolved_binds(entries, mode);
        lemma_key_binds_only_what_the_mode_can_do(entries.drop_last(), mode);
        assert forall|i: int| 0 <= i < r.len() implies can_perform((#[trigger] r[i]).1, mode) by {
            if i < init.len() {
                assert(r[i] == init[i]);
            }
        }
    }
}

/// The application window can perform every action, so it keeps every binding
/// that runs one.
pub proof fn lemma_app_keeps_every_binding(entries: Seq<(Binding, KeyBindAction)>)
    ensures
        resolved_binds(entries, Mode::App).len() == entries.len() - disabled_count(entries),
    decreases entries.len(),
{
    if entries.len() > 0 {
        lemma_app_keeps_every_binding(entries.drop_last());
    }
}

/// How many entries are `Disable`.
pub open spec fn disabled_count(entries: Seq<(Binding, KeyBindAction)>) -> int
    decreases entries.len(),
{
    if entries.len() == 0 {
        0
    } else {
        disabled_count(entries.drop_last()) + if entries.last().1 == KeyBindAction::Disable {
            1int
        } else {
            0int
        }
    }
}

/// Distinct stored actions run distinct actions.
pub proof fn lemma_action_for_injective(a: KeyBindAction, b: KeyBindAction)
    requires
        action_for(a) is Some,
        action_for(a) == action_for(b),
    ensures
        a == b,
{
}


/// A number for a set of modifiers, the same for equal sets written in the same order.
spec fn modifiers_code(m: Seq<ModifierName>) -> int {
    if m.len() == 0 {
        0
    } else if m.len() == 1 {
        modifier_rank(m[0])
    } else {
        5 * modifier_rank(m[0]) + modifier_rank(m[1])
    }
}

spec fn modifier_rank(m: ModifierName) -> int {
    match m {
        ModifierName::Super => 1,
        ModifierName::Ctrl => 2,
        ModifierName::Alt => 3,
        ModifierName::Shift => 4,
    }
}

/// Where a combination stands in the shipped table, told apart by its modifiers
/// and the length, first and last character of its key.
spec fn shipped_slot(m: Seq<ModifierName>, k: Seq<char>) -> int {
    let c = modifiers_code(m);
    let n = k.len();
    let f = k[0];
    let l = k[n - 1];
    if c == 0 && n == 9 && f == 'A' && l == 'n' {
        0
    } else if c == 0 && n == 9 && f == 'A' && l == 't' {
        1
    } else if c == 0 && n == 10 && f == 'A' && l == 't' {
        2
    } else if c == 0 && n == 7 && f == 'A' && l == 'p' {
        3
    } else if c == 0 && n == 2 && f == 'F' && l == '5' {
        4
    } else if c == 0 && n == 4 && f == 'H' && l == 'e' {
        5
    } else if c == 0 && n == 3 && f == 'E' && l == 'd' {
        6
    } else if c == 0 && n == 8 && f == 'P' && l == 'n' {
        7
    } else if c == 0 && n == 6 && f == 'P' && l == 'p' {
        8
    } else if c == 4 && n == 9 && f == 'A' && l == 'n' {
        9
    } else if c == 4 && n == 9 && f == 'A' && l == 't' {
        10
    } else if c == 4 && n == 10 && f == 'A' && l == 't' {
        11
    } else if c == 4 && n == 7 && f == 'A' && l == 'p' {
        12
    } else if c == 4 && n == 4 && f == 'H' && l == 'e' {
        13
    } else if c == 4 && n == 3 && f == 'E' && l == 'd' {
        14
    } else if c == 4 && n == 8 && f == 'P' && l == 'n' {
        15
    } else if c == 4 && n == 6 && f == 'P' && l == 'p' {
        16
    } else if c == 14 && n == 1 && f == 'N' && l == 'N' {
        17
    } else if c == 0 && n == 5 && f == 'E' && l == 'r' {
        18
    } else if c == 2 && n == 5 && f == 'S' && l == 'e' {
        19
    } else if c == 0 && n == 5 && f == 'S' && l == 'e' {
        20
    } else if c == 2 && n == 1 && f == 'H' && l == 'H' {
        21
    } else if c == 2 && n == 1 && f == 'A' && l == 'A' {
        22
    } else if c == 2 && n == 1 && f == '=' && l == '=' {
        23
    } else if c == 2 && n == 1 && f == '+' && l == '+' {
        24
    } else if c == 2 && n == 1 && f == '0' && l == '0' {
        25
    } else if c == 2 && n == 1 && f == '-' && l == '-' {
        26
    } else if c == 2 && n == 1 && f == '1' && l == '1' {
        27
    } else if c == 2 && n == 1 && f == '2' && l == '2' {
        28
    } else if c == 2 && n == 1 && f == 'D' && l == 'D' {
        29
    } else if c == 2 && n == 5 && f == 'E' && l == 'r' {
        30
    } else if c == 2 && n == 1 && f == ',' && l == ',' {
        31
    } else if c == 2 && n == 1 && f == 'W' && l == 'W' {
        32
    } else if c == 2 && n == 1 && f == 'T' && l == 'T' {
        33
    } else if c == 2 && n == 3 && f == 'T' && l == 'b' {
        34
    } else if c == 14 && n == 3 && f == 'T' && l == 'b' {
        35
    } else if c == 2 && n == 1 && f == 'Q' && l == 'Q' {
        36
    } else if c == 2 && n == 1 && f == 'N' && l == 'N' {
        37
    } else if c == 2 && n == 1 && f == 'C' && l == 'C' {
        38
    } else if c == 14 && n == 1 && f == 'C' && l == 'C' {
        39
    } else if c == 2 && n == 1 && f == 'X' && l == 'X' {
        40
    } else if c == 0 && n == 6 && f == 'D' && l == 'e' {
        41
    } else if c == 4 && n == 6 && f == 'D' && l == 'e' {
        42
    } else if c == 4 && n == 5 && f == 'E' && l == 'r' {
        43
    } else if c == 2 && n == 1 && f == 'V' && l == 'V' {
        44
    } else if c == 0 && n == 2 && f == 'F' && l == '2' {
        45
    } else if c == 2 && n == 1 && f == 'L' && l == 'L' {
        46
    } else if c == 3 && n == 10 && f == 'A' && l == 't' {
        47
    } else if c == 3 && n == 9 && f == 'A' && l == 't' {
        48
    } else if c == 0 && n == 9 && f == 'B' && l == 'e' {
        49
    } else if c == 3 && n == 7 && f == 'A' && l == 'p' {
        50
    } else if c == 2 && n == 1 && f == 'F' && l == 'F' {
        51
    } else {
        -1
    }
}

/// No key combination is shipped twice.
pub proof fn lemma_no_combination_shipped_twice()
    ensures
        forall|i: int, j: int|
            0 <= i < j < shipped().len() ==> (#[trigger] shipped()[i]).0 != (#[trigger] shipped()[j]).0
                || shipped()[i].1 != shipped()[j].1,
{
    reveal_strlit("+");
    reveal_strlit(",");
    reveal_strlit("-");
    reveal_strlit("0");
    reveal_strlit("1");
    reveal_strlit("2");
    reveal_strlit("=");
    reveal_strlit("A");
    reveal_strlit("ArrowDown");
    reveal_strlit("ArrowLeft");
    reveal_strlit("ArrowRight");
    reveal_strlit("ArrowUp");
    reveal_strlit("Backspace");
    reveal_strlit("C");
    reveal_strlit("D");
    reveal_strlit("Delete");
    reveal_strlit("End");
    reveal_strlit("Enter");
    reveal_strlit("F");
    reveal_strlit("F2");
    reveal_strlit("F5");
    reveal_strlit("H");
    reveal_strlit("Home");
    reveal_strlit("L");
    reveal_strlit("N");
    reveal_strlit("PageDown");
    reveal_strlit("PageUp");
    reveal_strlit("Q");
    reveal_strlit("Space");
    reveal_strlit("T");
    reveal_strlit("Tab");
    reveal_strlit("V");
    reveal_strlit("W");
    reveal_strlit("X");
    let s = shipped();
    assert forall|i: int| 0 <= i < s.len() implies #[trigger] shipped_slot(s[i].0, s[i].1) == i by {
        if i == 0 {
            assert(shipped_slot(s[0].0, s[0].1) == 0);
        } else if i == 1 {
            assert(shipped_slot(s[1].0, s[1].1) == 1);
        } else if i == 2 {
            assert(shipped_slot(s[2].0, s[2].1) == 2);
        } else if i == 3 {
            assert(shipped_slot(s[3].0, s[3].1) == 3);
        } else if i == 4 {
            assert(shipped_slot(s[4].0, s[4].1) == 4);
        } else if i == 5 {
            assert(shipped_slot(s[5].0, s[5].1) == 5);
        } else if i == 6 {
            assert(shipped_slot(s[6].0, s[6].1) == 6);
        } else if i == 7 {
            assert(shipped_slot(s[7].0, s[7].1) == 7);
        } else if i == 8 {
            assert(shipped_slot(s[8].0, s[8].1) == 8);
        } else if i == 9 {
            assert(shipped_slot(s[9].0, s[9].1) == 9);
        } else if i == 10 {
            assert(shipped_slot(s[10].0, s[10].1) == 10);
        } else if i == 11 {
            assert(shipped_slot(s[11].0, s[11].1) == 11);
        } else if i == 12 {
            assert(shipped_slot(s[12].0, s[12].1) == 12);
        } else if i == 13 {
            assert(shipped_slot(s[13].0, s[13].1) == 13);
        } else if i == 14 {
            assert(shipped_slot(s[14].0, s[14].1) == 14);
        } else if i == 15 {
            assert(shipped_slot(s[15].0, s[15].1) == 15);
        } else if i == 16 {
            assert(shipped_slot(s[16].0, s[16].1) == 16);
        } else if i == 17 {
            assert(shipped_slot(s[17].0, s[17].1) == 17);
        } else if i == 18 {
            assert(shipped_slot(s[18].0, s[18].1) == 18);
        } else if i == 19 {
            assert(shipped_slot(s[19].0, s[19].1) == 19);
        } else if i == 20 {
            assert(shipped_slot(s[20].0, s[20].1) == 20);
        } else if i == 21 {
            assert(shipped_slot(s[21].0, s[21].1) == 21);
        } else if i == 22 {
            assert(shipped_slot(s[22].0, s[22].1) == 22);
        } else if i == 23 {
            assert(shipped_slot(s[23].0, s[23].1) == 23);
        } else if i == 24 {
            assert(shipped_slot(s[24].0, s[24].1) == 24);
        } else if i == 25 {
            assert(shipped_slot(s[25].0, s[25].1) == 25);
        } else if i == 26 {
            assert(shipped_slot(s[26].0, s[26].1) == 26);
        } else if i == 27 {
            assert(shipped_slot(s[27].0, s[27].1) == 27);
        } else if i == 28 {
            assert(shipped_slot(s[28].0, s[28].1) == 28);
        } else if i == 29 {
            assert(shipped_slot(s[29].0, s[29].1) == 29);
        } else if i == 30 {
            assert(shipped_slot(s[30].0, s[30].1) == 30);
        } else if i == 31 {
            assert(shipped_slot(s[31].0, s[31].1) == 31);
        } else if i == 32 {
            assert(shipped_slot(s[32].0, s[32].1) == 32);
        } else if i == 33 {
            assert(shipped_slot(s[33].0, s[33].1) == 33);
        } else if i == 34 {
            assert(shipped_slot(s[34].0, s[34].1) == 34);
        } else if i == 35 {
            assert(shipped_slot(s[35].0, s[35].1) == 35);
        } else if i == 36 {
            assert(shipped_slot(s[36].0, s[36].1) == 36);
        } else if i == 37 {
            assert(shipped_slot(s[37].0, s[37].1) == 37);
        } else if i == 38 {
            assert(shipped_slot(s[38].0, s[38].1) == 38);
        } else if i == 39 {
            assert(shipped_slot(s[39].0, s[39].1) == 39);
        } else if i == 40 {
            assert(shipped_slot(s[40].0, s[40].1) == 40);
        } else if i == 41 {
            assert(shipped_slot(s[41].0, s[41].1) == 41);
        } else if i == 42 {
            assert(shipped_slot(s[42].0, s[42].1) == 42);
        } else if i == 43 {
            assert(shipped_slot(s[43].0, s[43].1) == 43);
        } else if i == 44 {
            assert(shipped_slot(s[44].0, s[44].1) == 44);
        } else if i == 45 {
            assert(shipped_slot(s[45].0, s[45].1) == 45);
        } else if i == 46 {
            assert(shipped_slot(s[46].0, s[46].1) == 46);
        } else if i == 47 {
            assert(shipped_slot(s[47].0, s[47].1) == 47);
        } else if i == 48 {
            assert(shipped_slot(s[48].0, s[48].1) == 48);
        } else if i == 49 {
            assert(shipped_slot(s[49].0, s[49].1) == 49);
        } else if i == 50 {
            assert(shipped_slot(s[50].0, s[50].1) == 50);
        } else if i == 51 {
            assert(shipped_slot(s[51].0, s[51].1) == 51);
        }
    }
    assert forall|i: int, j: int| 0 <= i < j < s.len() implies s[i].0 != s[j].0 || s[i].1 != s[j].1 by {
        assert(shipped_slot(s[i].0, s[i].1) == i);
        assert(shipped_slot(s[j].0, s[j].1) == j);
    }
}


/// Only the window and the desktop work on files: copying, cutting, pasting,
/// deleting, renaming and opening in a new window are allowed there and nowhere
/// else, so the file chooser dialog never changes a file.
pub proof fn lemma_only_window_and_desktop_change_files(m: Mode)
    ensures
        can_perform(Action::Copy, m) == (m == Mode::App || m == Mode::Desktop),
        can_perform(Action::CopyPath, m) == (m == Mode::App || m == Mode::Desktop),
        can_perform(Action::Cut, m) == (m == Mode::App || m == Mode::Desktop),
        can_perform(Action::Delete, m) == (m == Mode::App || m == Mode::Desktop),
        can_perform(Action::OpenInNewWindow, m) == (m == Mode::App || m == Mode::Desktop),
        can_perform(Action::Paste, m) == (m == Mode::App || m == Mode::Desktop),
        can_perform(Action::PermanentlyDelete, m) == (m == Mode::App || m == Mode::Desktop),
        can_perform(Action::Rename, m) == (m == Mode::App || m == Mode::Desktop),
{
}

/// Tabs, windows, the sidebar and the settings belong to the application window
/// alone.
pub proof fn lemma_only_the_window_has_tabs(m: Mode)
    ensures
        can_perform(Action::AddToSidebar, m) == (m == Mode::App),
        can_perform(Action::OpenInNewTab, m) == (m == Mode::App),
        can_perform(Action::Settings, m) == (m == Mode::App),
        can_perform(Action::TabClose, m) == (m == Mode::App),
        can_perform(Action::TabNew, m) == (m == Mode::App),
        can_perform(Action::TabNext, m) == (m == Mode::App),
        can_perform(Action::TabPrev, m) == (m == Mode::App),
        can_perform(Action::WindowClose, m) == (m == Mode::App),
        can_perform(Action::WindowNew, m) == (m == Mode::App),
{
}

/// Moving through locations (location bar, history, parent folder, search) is
/// for the window and the file chooser dialog, not the desktop.
pub proof fn lemma_navigation_is_not_on_the_desktop(m: Mode)
    ensures
        can_perform(Action::EditLocation, m) == (m == Mode::App || m == Mode::Dialog),
        can_perform(Action::HistoryNext, m) == (m == Mode::App || m == Mode::Dialog),
        can_perform(Action::HistoryPrevious, m) == (m == Mode::App || m == Mode::Dialog),
        can_perform(Action::LocationUp, m) == (m == Mode::App || m == Mode::Dialog),
        can_perform(Action::SearchActivate, m) == (m == Mode::App || m == Mode::Dialog),
{
}

/// Moving the selection, opening, previewing, reloading, selecting, zooming,
/// switching the view, showing hidden files and making a folder work in every
/// mode.
pub proof fn lemma_common_actions_work_everywhere(a: Action, m: Mode)
    requires
        a == Action::Gallery || a == Action::ItemDown || a == Action::ItemLeft || a == Action::ItemPageDown || a == Action::ItemPageUp || a == Action::ItemRight || a == Action::ItemUp || a == Action::NewFolder || a == Action::Open || a == Action::Preview || a == Action::Reload || a == Action::SelectAll || a == Action::SelectFirst || a == Action::SelectLast || a == Action::TabViewGrid || a == Action::TabViewList || a == Action::ToggleShowHidden || a == Action::ZoomDefault || a == Action::ZoomIn || a == Action::ZoomOut,
    ensures
        can_perform(a, m),
{
}

/// The file chooser dialog keeps no binding that would change a file, whatever
/// the user bound: in particular the Delete key deletes nothing there.
pub proof fn lemma_the_dialog_changes_no_file(entries: Seq<(Binding, KeyBindAction)>)
    ensures
        forall|i: int|
            0 <= i < resolved_binds(entries, Mode::Dialog).len() ==> {
                let a = (#[trigger] resolved_binds(entries, Mode::Dialog)[i]).1;
                a != Action::Copy && a != Action::CopyPath && a != Action::Cut && a != Action::Delete
                    && a != Action::OpenInNewWindow && a != Action::Paste && a
                    != Action::PermanentlyDelete && a != Action::Rename
            },
{
    lemma_key_binds_only_what_the_mode_can_do(entries, Mode::Dialog);
    lemma_only_window_and_desktop_change_files(Mode::Dialog);
}
} // verus!
