//! The menu of the application, and what a choice from it asks for.
//!
//! As long as the database is locked, the menu offers nothing but to quit.
use crate::text::same_text;
use vstd::prelude::*;

verus! {

/// An entry of the file menu.
#[derive(Clone, Copy, Debug, PartialEq, Eq, Structural)]
pub enum MenuEntry {
    ImportV1,
    ImportCsv,
    AddLumpsum,
    EncryptionSettings,
    Quit,
    Separator,
}

/// What a choice from the menu asks for.
#[derive(Clone, Copy, Debug, PartialEq, Eq, Structural)]
pub enum MenuAction {
    /// The window is told the choice; the entry says which.
    Notify(MenuEntry),
    /// The application ends.
    Exit,
    /// Nothing happens.
    Nothing,
}

/// The entries of the file menu, from the top.
pub open spec fn file_menu(is_unlocked: bool) -> Seq<MenuEntry> {
    if is_unlocked {
        seq![
            MenuEntry::ImportV1,
            MenuEntry::ImportCsv,
            MenuEntry::AddLumpsum,
            MenuEntry::Separator,
            MenuEntry::EncryptionSettings,
            MenuEntry::Separator,
            MenuEntry::Quit,
        ]
    } else {
        seq![MenuEntry::Quit]
    }
}

/// The identifier of an entry; a separator has none.
pub open spec fn entry_id(entry: MenuEntry) -> Seq<char> {
    match entry {
        MenuEntry::ImportV1 => "import_sat_tracker_v1"@,
        MenuEntry::ImportCsv => "import_csv"@,
        MenuEntry::AddLumpsum => "add_undocumented_lumpsum"@,
        MenuEntry::EncryptionSettings => "encryption_settings"@,
        MenuEntry::Quit => "quit"@,
        MenuEntry::Separator => ""@,
    }
}

/// What the menu shows for an entry.
pub open spec fn entry_label(entry: MenuEntry) -> Seq<char> {
    match entry {
        MenuEntry::ImportV1 => "Import Sat Tracker v1 Data"@,
        MenuEntry::ImportCsv => "Import CSV Data"@,
        MenuEntry::AddLumpsum => "Add Undocumented Lumpsum"@,
        MenuEntry::EncryptionSettings => "Database Encryption..."@,
        MenuEntry::Quit => "Quit"@,
        MenuEntry::Separator => ""@,
    }
}

/// The name of the event by which the window is told of an entry.
pub open spec fn entry_event(entry: MenuEntry) -> Seq<char> {
    match entry {
        MenuEntry::ImportV1 => "menu-import-v1"@,
        MenuEntry::ImportCsv => "menu-import-csv"@,
        MenuEntry::AddLumpsum => "menu-add-lumpsum"@,
        MenuEntry::EncryptionSettings => "menu-encryption-settings"@,
        MenuEntry::Quit => ""@,
        MenuEntry::Separator => ""@,
    }
}

/// What the choice of the entry with the identifier `id` asks for: to end
/// for `quit`, to tell the window for the other entries, nothing for an
/// identifier that no entry has.
pub open spec fn action_of(id: Seq<char>) -> MenuAction {
    if id == "import_sat_tracker_v1"@ {
        MenuAction::Notify(MenuEntry::ImportV1)
    } else if id == "import_csv"@ {
        MenuAction::Notify(MenuEntry::ImportCsv)
    } else if id == "add_undocumented_lumpsum"@ {
        MenuAction::Notify(MenuEntry::AddLumpsum)
    } else if id == "encryption_settings"@ {
        MenuAction::Notify(MenuEntry::EncryptionSettings)
    } else if id == "quit"@ {
        MenuAction::Exit
    } else {
        MenuAction::Nothing
    }
}

/// The entries of the file menu: all of them where the database is
/// unlocked, only the one to quit where it is not.
pub fn create_menu(is_unlocked: bool) -> (entries: Vec<MenuEntry>)
    ensures
        entries@ == file_menu(is_unlocked),
{
    let mut entries: Vec<MenuEntry> = Vec::new();
    if is_unlocked {
        entries.push(MenuEntry::ImportV1);
        entries.push(MenuEntry::ImportCsv);
        entries.push(MenuEntry::AddLumpsum);
        entries.push(MenuEntry::Separator);
        entries.push(MenuEntry::EncryptionSettings);
        entries.push(MenuEntry::Separator);
    }
    entries.push(MenuEntry::Quit);
    assert(entries@ =~= file_menu(is_unlocked));
    entries
}

/// The identifier of an entry.
pub fn id_of_entry(entry: MenuEntry) -> (id: &'static str)
    ensures
        id@ == entry_id(entry),
{
    match entry {
        MenuEntry::ImportV1 => "import_sat_tracker_v1",
        MenuEntry::ImportCsv => "import_csv",
        MenuEntry::AddLumpsum => "add_undocumented_lumpsum",
        MenuEntry::EncryptionSettings => "encryption_settings",
        MenuEntry::Quit => "quit",
        MenuEntry::Separator => "",
    }
}

/// What the menu shows for an entry.
pub fn label_of_entry(entry: MenuEntry) -> (label: &'static str)
    ensures
        label@ == entry_label(entry),
{
    match entry {
        MenuEntry::ImportV1 => "Import Sat Tracker v1 Data",
        MenuEntry::ImportCsv => "Import CSV Data",
        MenuEntry::AddLumpsum => "Add Undocumented Lumpsum",
        MenuEntry::EncryptionSettings => "Database Encryption...",
        MenuEntry::Quit => "Quit",
        MenuEntry::Separator => "",
    }
}

/// The name of the event by which the window is told of an entry.
pub fn event_of_entry(entry: MenuEntry) -> (event: &'static str)
    ensures
        event@ == entry_event(entry),
{
    match entry {
        MenuEntry::ImportV1 => "menu-import-v1",
        MenuEntry::ImportCsv => "menu-import-csv",
        MenuEntry::AddLumpsum => "menu-add-lumpsum",
        MenuEntry::EncryptionSettings => "menu-encryption-settings",
        MenuEntry::Quit => "",
        MenuEntry::Separator => "",
    }
}

/// What the choice of the entry with the identifier `id` asks for.
pub fn menu_action(id: &str) -> (action: MenuAction)
    ensures
        action == action_of(id@),
{
    if same_text(id, "import_sat_tracker_v1") {
        MenuAction::Notify(MenuEntry::ImportV1)
    } else if same_text(id, "import_csv") {
        MenuAction::Notify(MenuEntry::ImportCsv)
    } else if same_text(id, "add_undocumented_lumpsum") {
        MenuAction::Notify(MenuEntry::AddLumpsum)
    } else if same_text(id, "encryption_settings") {
        MenuAction::Notify(MenuEntry::EncryptionSettings)
    } else if same_text(id, "quit") {
        MenuAction::Exit
    } else {
        MenuAction::Nothing
    }
}

} // verus!
