//! The right-click menu: its entries and what a chosen entry means, and the
//! value that registers the program to run at sign-in.

use vstd::prelude::*;

verus! {

/// Menu id of "Open Task Manager".
pub const ID_TASKMGR: usize = 1;
/// Menu id of "Run at startup".
pub const ID_STARTUP: usize = 2;
/// Menu id of "Exit".
pub const ID_EXIT: usize = 3;

/// What a chosen menu entry asks for.
#[derive(Clone, Copy, Debug, PartialEq, Eq, Structural)]
pub enum MenuCommand {
    OpenTaskManager,
    ToggleStartup,
    Exit,
}

/// One line of the context menu.
#[derive(Clone, Copy, Debug, PartialEq, Eq)]
pub enum MenuEntry {
    /// A clickable entry: its id, its label (`&` marks the access key) and
    /// whether it shows a check mark.
    Item { id: usize, label: &'static str, checked: bool },
    Separator,
}

/// The command a menu id stands for; `None` for anything else (0 when the
/// menu was dismissed).
pub open spec fn command_spec(id: usize) -> Option<MenuCommand> {
    if id == ID_TASKMGR {
        Some(MenuCommand::OpenTaskManager)
    } else if id == ID_STARTUP {
        Some(MenuCommand::ToggleStartup)
    } else if id == ID_EXIT {
        Some(MenuCommand::Exit)
    } else {
        None
    }
}

/// The command that the value returned by the menu loop selects. The
/// loop returns a `BOOL`-typed id; it is compared as a `usize`, so negative
/// values select nothing.
pub fn command_for(cmd: i32) -> (c: Option<MenuCommand>)
    ensures
        c == if cmd < 0 { None } else { command_spec(cmd as usize) },
{
    if cmd < 0 {
        return None;
    }
    let id: usize = cmd as usize;
    if id == ID_TASKMGR {
        Some(MenuCommand::OpenTaskManager)
    } else if id == ID_STARTUP {
        Some(MenuCommand::ToggleStartup)
    } else if id == ID_EXIT {
        Some(MenuCommand::Exit)
    } else {
        None
    }
}

/// The menu id of a command.
pub open spec fn command_id_spec(c: MenuCommand) -> usize {
    match c {
        MenuCommand::OpenTaskManager => ID_TASKMGR,
        MenuCommand::ToggleStartup => ID_STARTUP,
        MenuCommand::Exit => ID_EXIT,
    }
}

/// The context menu: "Open Task Manager", "Run at startup" (checked while
/// the program is registered to run at sign-in), a separator and "Exit".
pub fn context_menu(startup_enabled: bool) -> (m: Vec<MenuEntry>)
    ensures
        m@.len() == 4,
        m@[0] matches MenuEntry::Item { id, label, checked } && id == ID_TASKMGR && label@ == "Open &Task Manager"@ && !checked,
        m@[1] matches MenuEntry::Item { id, label, checked } && id == ID_STARTUP && label@ == "Run at &startup"@ && checked == startup_enabled,
        m@[2] is Separator,
        m@[3] matches MenuEntry::Item { id, label, checked } && id == ID_EXIT && label@ == "E&xit"@ && !checked,
{
    let mut m: Vec<MenuEntry> = Vec::new();
    m.push(MenuEntry::Item { id: ID_TASKMGR, label: "Open &Task Manager", checked: false });
    m.push(MenuEntry::Item { id: ID_STARTUP, label: "Run at &startup", checked: startup_enabled });
    m.push(MenuEntry::Separator);
    m.push(MenuEntry::Item { id: ID_EXIT, label: "E&xit", checked: false });
    m
}

/// Every clickable entry of the menu selects the command it is labelled
/// with, and no two entries share an id.
pub proof fn lemma_menu_ids_select_commands()
    ensures
        command_spec(ID_TASKMGR) == Some(MenuCommand::OpenTaskManager),
        command_spec(ID_STARTUP) == Some(MenuCommand::ToggleStartup),
        command_spec(ID_EXIT) == Some(MenuCommand::Exit),
        command_spec(0) is None,
        forall|c: MenuCommand| command_spec(#[trigger] command_id_spec(c)) == Some(c),
{
}

/// The registry value that starts the program at sign-in: the executable's
/// path in double quotes (so it survives spaces), NUL-terminated UTF-16.
pub open spec fn startup_value_spec(path: Seq<u16>) -> Seq<u16> {
    seq![0x22u16] + path + seq![0x22u16, 0u16]
}

/// Build the run-at-startup registry value from the executable's path.
pub fn startup_value(path: &[u16]) -> (v: Vec<u16>)
    requires
        path@.len() + 3 <= usize::MAX,
    ensures
        v@ == startup_value_spec(path@),
{
    let mut v: Vec<u16> = Vec::new();
    v.push(0x22);
    let mut i: usize = 0;
    while i < path.len()
        invariant
            i <= path@.len(),
            v@ == seq![0x22u16] + path@.take(i as int),
        decreases path@.len() - i,
    {
        assert(path@.take(i + 1) =~= path@.take(i as int).push(path@[i as int]));
        v.push(path[i]);
        i = i + 1;
    }
    assert(path@.take(path@.len() as int) =~= path@);
    v.push(0x22);
    v.push(0);
    v
}

} // verus!
