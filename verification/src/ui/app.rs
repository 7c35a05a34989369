use vstd::prelude::*;

use super::editor::EditorState;
use super::search::{is_search_result, search_snippets};
use crate::db::Snippet;
use crate::sentinel::recursion::{closes_cycle, detect_recursion_chain, pair_views};
use crate::text::{is_blank, is_blank_text, is_single_char};

verus! {

/// A request from outside the window: the tray, the hotkey or the sentinel.
#[derive(Debug, Clone, Copy, PartialEq, Eq, Structural)]
pub enum UiExternalMessage {
    Show,
    Hide,
    Exit,
}

/// Which page the window shows.
#[derive(Debug, Clone, Copy, PartialEq, Eq, Structural)]
pub enum ViewMode {
    List,
    Editor,
    Help,
    Settings,
}

/// Which field has the keyboard focus.
#[derive(Debug, Clone, Copy, PartialEq, Eq, Structural)]
pub enum FocusedField {
    Search,
    List,
    EditorTrigger,
    EditorLabel,
    EditorBody,
    SettingsTriggerApp,
    SettingsBlockApp,
}

/// The input widgets that can be given the focus.
#[derive(Debug, Clone, Copy, PartialEq, Eq, Structural)]
pub enum WidgetId {
    SearchInput,
    TriggerInput,
    LabelInput,
    BodyEditor,
    SettingsTriggerAppInput,
    SettingsBlockAppInput,
}

/// The named keys the window reacts to.
#[derive(Debug, Clone, Copy, PartialEq, Eq, Structural)]
pub enum NamedKey {
    Escape,
    Enter,
    Tab,
    ArrowUp,
    ArrowDown,
    Delete,
}

/// A key on the keyboard.
pub enum Key {
    Named(NamedKey),
    /// A key that types text; the text it types.
    Character(String),
    /// Any other key.
    Other,
}

/// A keyboard event.
pub enum KeyEvent {
    /// A key went down; `control` tells whether Control was held.
    KeyPressed { key: Key, control: bool },
    /// A key went up, or the modifiers changed.
    Other,
}

/// What the user, or the outside world, asks of the window.
pub enum Message {
    SearchChanged(String),
    SnippetSelected(usize),
    SnippetDoubleClicked(usize),
    EditSnippet(usize),
    NewSnippet,
    DeleteSnippet(usize),
    SaveSnippet,
    CancelEdit,
    TriggerChanged(String),
    LabelChanged(String),
    BodyChanged(String),
    KeyPressed(KeyEvent),
    NavigateUp,
    NavigateDown,
    ActivateSelected,
    TabPressed,
    ShowHelp,
    CloseHelp,
    ShowSettings,
    CloseSettings,
    OpenLink(String),
    AddTriggerApp(String),
    RemoveTriggerApp(usize),
    AddBlockApp(String),
    RemoveBlockApp(usize),
    TriggerAppInputChanged(String),
    BlockAppInputChanged(String),
    ExportSnippets,
    ImportSnippets,
    External(UiExternalMessage),
}

/// The database write a save asks for.
pub enum SnippetWrite {
    /// Overwrite the stored snippet with this trigger.
    Update(Snippet),
    /// Store a new snippet.
    Create(Snippet),
    /// The snippet being edited is gone: write nothing, but reload.
    Unchanged,
}

/// What the window must do after a message, outside its own state.
pub enum Command {
    NoOp,
    /// Give the keyboard focus to a widget.
    Focus(WidgetId),
    /// Show the window, bring it to the front and focus the search input.
    ShowWindow,
    HideWindow,
    /// End the program.
    Exit,
    /// Write a snippet, tell the sentinel to reload its triggers, and hand
    /// the stored snippets to `finish_save`.
    Save(SnippetWrite),
    /// Delete the snippet with this trigger, tell the sentinel to reload its
    /// triggers, and hand the stored snippets to `reload_snippets`.
    Delete(String),
    /// Store the whitelist of applications.
    SaveTriggerApps,
    /// Store the blacklist of applications.
    SaveBlockApps,
    /// Open this address in the browser.
    OpenLink(String),
    ExportSnippets,
    ImportSnippets,
}

/// The state of the management window.
pub struct PexandApp {
    /// The text in the search input.
    pub search_query: String,
    /// Every stored snippet, in the order the database lists them.
    pub snippets: Vec<Snippet>,
    /// The snippets shown, each with its index in `snippets`.
    pub filtered_snippets: Vec<(usize, Snippet)>,
    /// The highlighted row of the shown list.
    pub selected_index: usize,
    pub view_mode: ViewMode,
    /// The editor, while a snippet is being written.
    pub editor_state: Option<EditorState>,
    pub focused_field: FocusedField,
    /// The window is hidden.
    pub window_minimized: bool,
    /// Applications expansion is limited to; empty means all.
    pub trigger_apps: Vec<String>,
    /// Applications expansion never happens in.
    pub block_apps: Vec<String>,
    /// The text in the whitelist input.
    pub trigger_app_input: String,
    /// The text in the blacklist input.
    pub block_app_input: String,
}

/// The text of an optional label: empty when there is none.
pub open spec fn label_text(l: Option<String>) -> Seq<char> {
    match l {
        Some(s) => s@,
        None => Seq::empty(),
    }
}

/// Some entry of `names` reads `name`.
pub open spec fn names_contain(names: Seq<String>, name: Seq<char>) -> bool {
    exists|k: int| 0 <= k < names.len() && (#[trigger] names[k])@ == name
}

/// The highlighted row after the list changed: the first row when the old
/// one is past the end of a non-empty list.
pub open spec fn kept_selection(selected: usize, len: int) -> usize {
    if selected >= len && len > 0 {
        0
    } else {
        selected
    }
}

/// The last row of a list of `len` rows; zero for an empty list.
pub open spec fn last_row(len: int) -> int {
    if len > 0 {
        len - 1
    } else {
        0
    }
}

/// The label of an edited snippet: none when the label field is empty.
pub open spec fn label_of(e: EditorState, l: Option<String>) -> bool {
    &&& e.label@.len() == 0 ==> l is None
    &&& e.label@.len() > 0 ==> l == Some(e.label)
}

/// `s` is `orig` with the editor's fields written over it.
pub open spec fn is_edited_snippet(s: Snippet, orig: Snippet, e: EditorState) -> bool {
    &&& s.trigger == e.trigger
    &&& label_of(e, s.label)
    &&& s.body == e.body
    &&& s.usage_count == orig.usage_count
    &&& s.created_at == orig.created_at
}

/// `s` is a fresh snippet made of the editor's fields.
pub open spec fn is_new_snippet(s: Snippet, e: EditorState) -> bool {
    &&& s.trigger == e.trigger
    &&& label_of(e, s.label)
    &&& s.body == e.body
    &&& s.usage_count == 0
    &&& s.created_at == s.updated_at
}

/// The (trigger, body) texts of the stored snippets once the editor's
/// snippet is in place: it replaces the snippet it edits, or joins the
/// others when it is new.
pub open spec fn saved_pairs(snips: Seq<Snippet>, e: EditorState) -> Seq<(Seq<char>, Seq<char>)> {
    let base = snips.map_values(|s: Snippet| (s.trigger@, s.body@));
    match e.editing_index {
        Some(i) => if i < snips.len() {
            base.update(i as int, (e.trigger@, e.body@))
        } else {
            base
        },
        None => base.push((e.trigger@, e.body@)),
    }
}

/// Saving the editor's snippet would let it expand, directly or through
/// other snippets, back into a trigger already expanded: a chain of
/// snippets from it closes a cycle.
pub open spec fn would_recurse(snips: Seq<Snippet>, e: EditorState) -> bool {
    exists|js: Seq<int>| closes_cycle(Seq::empty(), e.trigger@, e.body@, saved_pairs(snips, e), js)
}

/// The focus that Tab moves to, and the widget to focus, from `focus` on
/// page `view`; `has_rows` tells whether the list shows any snippet.
pub open spec fn tab_target(view: ViewMode, focus: FocusedField, has_rows: bool) -> (FocusedField, Command) {
    match view {
        ViewMode::List => match focus {
            FocusedField::Search => (if has_rows {
                FocusedField::List
            } else {
                focus
            }, Command::NoOp),
            FocusedField::List => (FocusedField::Search, Command::NoOp),
            _ => (focus, Command::NoOp),
        },
        ViewMode::Editor => match focus {
            FocusedField::EditorTrigger => (
                FocusedField::EditorLabel,
                Command::Focus(WidgetId::LabelInput),
            ),
            FocusedField::EditorLabel => (
                FocusedField::EditorBody,
                Command::Focus(WidgetId::BodyEditor),
            ),
            FocusedField::EditorBody => (
                FocusedField::EditorTrigger,
                Command::Focus(WidgetId::TriggerInput),
            ),
            _ => (focus, Command::NoOp),
        },
        ViewMode::Help => (focus, Command::NoOp),
        ViewMode::Settings => match focus {
            FocusedField::SettingsTriggerApp => (
                FocusedField::SettingsBlockApp,
                Command::Focus(WidgetId::SettingsBlockAppInput),
            ),
            FocusedField::SettingsBlockApp => (
                FocusedField::SettingsTriggerApp,
                Command::Focus(WidgetId::SettingsTriggerAppInput),
            ),
            _ => (focus, Command::NoOp),
        },
    }
}

impl PexandApp {
    /// The shown list is the search result of the query over the snippets.
    pub open spec fn wf(&self) -> bool {
        is_search_result(self.filtered_snippets@, self.snippets@, self.search_query@)
    }

    /// `self` is `old` with the list shown again for the current query and
    /// snippets, the highlighted row kept where it still exists.
    pub open spec fn is_refiltered(self, old: Self) -> bool {
        &&& self == PexandApp {
            filtered_snippets: self.filtered_snippets,
            selected_index: self.selected_index,
            ..old
        }
        &&& self.wf()
        &&& self.selected_index == kept_selection(old.selected_index, self.filtered_snippets@.len() as int)
    }

    /// `self` is `old` with the editor opened on row `index` of the shown
    /// list; when there is no such row nothing changes.
    pub open spec fn is_editing_row(self, old: Self, index: usize) -> bool {
        if index < old.filtered_snippets@.len() {
            let row = old.filtered_snippets@[index as int];
            &&& self == PexandApp {
                editor_state: self.editor_state,
                view_mode: ViewMode::Editor,
                focused_field: FocusedField::EditorTrigger,
                ..old
            }
            &&& self.editor_state matches Some(e) && e.trigger@ == row.1.trigger@ && e.label@
                == label_text(row.1.label) && e.body@ == row.1.body@ && e.editing_index == Some(
                row.0,
            )
        } else {
            self == old
        }
    }

    /// `self` is `old` with an empty editor opened for a new snippet.
    pub open spec fn is_editing_new(self, old: Self) -> bool {
        &&& self == PexandApp {
            editor_state: self.editor_state,
            view_mode: ViewMode::Editor,
            focused_field: FocusedField::EditorTrigger,
            ..old
        }
        &&& self.editor_state matches Some(e) && e.is_blank()
    }

    /// `self` is `old` back on the list page with the editor closed.
    pub open spec fn is_editor_closed(self, old: Self) -> bool {
        self == PexandApp {
            view_mode: ViewMode::List,
            editor_state: None,
            focused_field: FocusedField::Search,
            ..old
        }
    }

    /// The command that saving the editor gives: nothing without a valid
    /// editor, nor for a snippet that would expand into itself; otherwise
    /// the update of the edited snippet, the creation of a new one, or a
    /// bare reload when the edited snippet is gone.
    pub open spec fn is_save_command(self, cmd: Command) -> bool {
        match self.editor_state {
            Some(e) => if e.trigger@.len() > 0 && e.body@.len() > 0 {
                if would_recurse(self.snippets@, e) {
                    cmd is NoOp
                } else {
                match e.editing_index {
                    Some(i) => if i < self.snippets@.len() {
                        cmd matches Command::Save(SnippetWrite::Update(s)) && is_edited_snippet(
                            s,
                            self.snippets@[i as int],
                            e,
                        )
                    } else {
                        cmd matches Command::Save(SnippetWrite::Unchanged)
                    },
                    None => cmd matches Command::Save(SnippetWrite::Create(s)) && is_new_snippet(
                        s,
                        e,
                    ),
                }
                }
            } else {
                cmd is NoOp
            },
            None => cmd is NoOp,
        }
    }

    /// The command that deleting row `index` of the shown list gives.
    pub open spec fn is_delete_command(self, index: usize, cmd: Command) -> bool {
        if index < self.filtered_snippets@.len() && self.filtered_snippets@[index as int].0
            < self.snippets@.len() {
            cmd == Command::Delete(self.snippets@[self.filtered_snippets@[index as int].0 as int].trigger)
        } else {
            cmd is NoOp
        }
    }

    /// `self` and `cmd` are what Tab gives from `old`.
    pub open spec fn is_tabbed(self, old: Self, cmd: Command) -> bool {
        let t = tab_target(old.view_mode, old.focused_field, old.filtered_snippets@.len() > 0);
        &&& self == PexandApp { focused_field: t.0, ..old }
        &&& cmd == t.1
    }

    /// The highlighted row can move: the list page shows and the list has
    /// the focus.
    pub open spec fn list_has_focus(self) -> bool {
        self.view_mode == ViewMode::List && self.focused_field == FocusedField::List
    }

    /// The highlighted row is a row of the shown list.
    pub open spec fn selection_in_list(self) -> bool {
        self.filtered_snippets@.len() > 0 && self.selected_index < self.filtered_snippets@.len()
    }

    /// `self` and `cmd` are what a key press gives from `old`.
    pub open spec fn is_key_step(self, old: Self, key: Key, control: bool, cmd: Command) -> bool {
        match key {
            Key::Named(NamedKey::Escape) => match old.view_mode {
                ViewMode::Editor => self.is_editor_closed(old) && cmd is NoOp,
                ViewMode::Help => self == PexandApp { view_mode: ViewMode::List, ..old } && cmd is NoOp,
                ViewMode::Settings => self == PexandApp { view_mode: ViewMode::List, ..old } && cmd is NoOp,
                ViewMode::List => self == PexandApp { window_minimized: true, ..old } && cmd is HideWindow,
            },
            Key::Named(NamedKey::Enter) => {
                &&& cmd is NoOp
                &&& if old.list_has_focus() && old.selection_in_list() {
                    self.is_editing_row(old, old.selected_index)
                } else {
                    self == old
                }
            },
            Key::Named(NamedKey::Tab) => self.is_tabbed(old, cmd),
            Key::Named(NamedKey::ArrowUp) => {
                &&& cmd is NoOp
                &&& if old.list_has_focus() && old.selected_index > 0 {
                    self == PexandApp { selected_index: (old.selected_index - 1) as usize, ..old }
                } else {
                    self == old
                }
            },
            Key::Named(NamedKey::ArrowDown) => {
                &&& cmd is NoOp
                &&& if old.list_has_focus() && old.selected_index < last_row(
                    old.filtered_snippets@.len() as int,
                ) {
                    self == PexandApp { selected_index: (old.selected_index + 1) as usize, ..old }
                } else {
                    self == old
                }
            },
            Key::Named(NamedKey::Delete) => {
                &&& self == old
                &&& if old.list_has_focus() && old.selection_in_list() {
                    old.is_delete_command(old.selected_index, cmd)
                } else {
                    cmd is NoOp
                }
            },
            Key::Character(c) => if c@ == seq!['n'] || c@ == seq!['N'] {
                &&& cmd is NoOp
                &&& if control && old.view_mode == ViewMode::List {
                    self.is_editing_new(old)
                } else {
                    self == old
                }
            } else if c@ == seq!['f'] || c@ == seq!['F'] {
                if control && old.view_mode == ViewMode::List {
                    &&& self == PexandApp { focused_field: FocusedField::Search, ..old }
                    &&& cmd == Command::Focus(WidgetId::SearchInput)
                } else {
                    self == old && cmd is NoOp
                }
            } else if c@ == seq!['s'] || c@ == seq!['S'] {
                &&& self == old
                &&& if control && old.view_mode == ViewMode::Editor {
                    old.is_save_command(cmd)
                } else {
                    cmd is NoOp
                }
            } else {
                self == old && cmd is NoOp
            },
            Key::Other => self == old && cmd is NoOp,
        }
    }

    /// `self` and `cmd` are what `msg` gives from `old`.
    pub open spec fn is_step(self, old: Self, msg: Message, cmd: Command) -> bool {
        match msg {
            Message::SearchChanged(q) => {
                &&& self.is_refiltered(PexandApp { search_query: q, ..old })
                &&& cmd is NoOp
            },
            Message::SnippetSelected(i) => self == PexandApp { selected_index: i, ..old } && cmd is NoOp,
            Message::SnippetDoubleClicked(i) => self.is_editing_row(old, i) && cmd is NoOp,
            Message::EditSnippet(i) => self.is_editing_row(old, i) && cmd == Command::Focus(
                WidgetId::TriggerInput,
            ),
            Message::NewSnippet => self.is_editing_new(old) && cmd == Command::Focus(
                WidgetId::TriggerInput,
            ),
            Message::DeleteSnippet(i) => self == old && old.is_delete_command(i, cmd),
            Message::SaveSnippet => self == old && old.is_save_command(cmd),
            Message::CancelEdit => self.is_editor_closed(old) && cmd is NoOp,
            Message::TriggerChanged(v) => {
                &&& cmd is NoOp
                &&& match old.editor_state {
                    Some(e) => self == PexandApp {
                        editor_state: Some(EditorState { trigger: v, ..e }),
                        ..old
                    },
                    None => self == old,
                }
            },
            Message::LabelChanged(v) => {
                &&& cmd is NoOp
                &&& match old.editor_state {
                    Some(e) => self == PexandApp {
                        editor_state: Some(EditorState { label: v, ..e }),
                        ..old
                    },
                    None => self == old,
                }
            },
            Message::BodyChanged(v) => {
                &&& cmd is NoOp
                &&& match old.editor_state {
                    Some(e) => self == PexandApp {
                        editor_state: Some(EditorState { body: v, ..e }),
                        ..old
                    },
                    None => self == old,
                }
            },
            Message::KeyPressed(ev) => match ev {
                KeyEvent::KeyPressed { key, control } => self.is_key_step(old, key, control, cmd),
                KeyEvent::Other => self == old && cmd is NoOp,
            },
            Message::NavigateUp => {
                &&& cmd is NoOp
                &&& if old.selected_index > 0 {
                    self == PexandApp { selected_index: (old.selected_index - 1) as usize, ..old }
                } else {
                    self == old
                }
            },
            Message::NavigateDown => {
                &&& cmd is NoOp
                &&& if old.selected_index < last_row(old.filtered_snippets@.len() as int) {
                    self == PexandApp { selected_index: (old.selected_index + 1) as usize, ..old }
                } else {
                    self == old
                }
            },
            Message::ActivateSelected => {
                &&& cmd is NoOp
                &&& if old.selection_in_list() {
                    self.is_editing_row(old, old.selected_index)
                } else {
                    self == old
                }
            },
            Message::TabPressed => self.is_tabbed(old, cmd),
            Message::ShowHelp => self == PexandApp { view_mode: ViewMode::Help, ..old } && cmd is NoOp,
            Message::CloseHelp => self == PexandApp { view_mode: ViewMode::List, ..old } && cmd is NoOp,
            Message::ShowSettings => {
                &&& self == PexandApp {
                    view_mode: ViewMode::Settings,
                    focused_field: FocusedField::SettingsTriggerApp,
                    ..old
                }
                &&& cmd == Command::Focus(WidgetId::SettingsTriggerAppInput)
            },
            Message::CloseSettings => self == PexandApp { view_mode: ViewMode::List, ..old } && cmd is NoOp,
            Message::OpenLink(url) => self == old && cmd == Command::OpenLink(url),
            Message::AddTriggerApp(name) => if !is_blank_text(name@) && !names_contain(
                old.trigger_apps@,
                name@,
            ) {
                &&& self == PexandApp {
                    trigger_apps: self.trigger_apps,
                    trigger_app_input: self.trigger_app_input,
                    ..old
                }
                &&& self.trigger_apps@ == old.trigger_apps@.push(name)
                &&& self.trigger_app_input@.len() == 0
                &&& cmd is SaveTriggerApps
            } else {
                self == old && cmd is NoOp
            },
            Message::RemoveTriggerApp(i) => if i < old.trigger_apps@.len() {
                &&& self == PexandApp { trigger_apps: self.trigger_apps, ..old }
                &&& self.trigger_apps@ == old.trigger_apps@.remove(i as int)
                &&& cmd is SaveTriggerApps
            } else {
                self == old && cmd is NoOp
            },
            Message::AddBlockApp(name) => if !is_blank_text(name@) && !names_contain(
                old.block_apps@,
                name@,
            ) {
                &&& self == PexandApp {
                    block_apps: self.block_apps,
                    block_app_input: self.block_app_input,
                    ..old
                }
                &&& self.block_apps@ == old.block_apps@.push(name)
                &&& self.block_app_input@.len() == 0
                &&& cmd is SaveBlockApps
            } else {
                self == old && cmd is NoOp
            },
            Message::RemoveBlockApp(i) => if i < old.block_apps@.len() {
                &&& self == PexandApp { block_apps: self.block_apps, ..old }
                &&& self.block_apps@ == old.block_apps@.remove(i as int)
                &&& cmd is SaveBlockApps
            } else {
                self == old && cmd is NoOp
            },
            Message::TriggerAppInputChanged(s) => self == PexandApp { trigger_app_input: s, ..old }
                && cmd is NoOp,
            Message::BlockAppInputChanged(s) => self == PexandApp { block_app_input: s, ..old }
                && cmd is NoOp,
            Message::ExportSnippets => self == old && cmd is ExportSnippets,
            Message::ImportSnippets => self == old && cmd is ImportSnippets,
            Message::External(x) => match x {
                UiExternalMessage::Show => {
                    &&& self == PexandApp {
                        window_minimized: false,
                        focused_field: FocusedField::Search,
                        ..old
                    }
                    &&& cmd is ShowWindow
                },
                UiExternalMessage::Hide => self == PexandApp { window_minimized: true, ..old } && cmd is HideWindow,
                UiExternalMessage::Exit => self == old && cmd is Exit,
            },
        }
    }
}

/// The write that importing `snippet` asks for: an update when a snippet
/// with its trigger is already stored, and a creation otherwise.
pub fn import_write(snippet: Snippet, already_stored: bool) -> (w: SnippetWrite)
    ensures
        already_stored ==> w == SnippetWrite::Update(snippet),
        !already_stored ==> w == SnippetWrite::Create(snippet),
{
    if already_stored {
        SnippetWrite::Update(snippet)
    } else {
        SnippetWrite::Create(snippet)
    }
}

/// Whether `name` is one of `names`.
fn contains_name(names: &Vec<String>, name: &String) -> (r: bool)
    ensures
        r == names_contain(names@, name@),
{
    let mut k: usize = 0;
    while k < names.len()
        invariant
            k <= names.len(),
            forall|j: int| 0 <= j < k ==> (#[trigger] names@[j])@ != name@,
        decreases names.len() - k,
    {
        if names[k] == *name {
            return true;
        }
        k = k + 1;
    }
    false
}

/// Adds `name` to an application list, unless it is blank or already
/// there, and then empties the input it came from.
fn add_app_name(names: &mut Vec<String>, input: &mut String, name: String) -> (added: bool)
    ensures
        added == (!is_blank_text(name@) && !names_contain(old(names)@, name@)),
        added ==> final(names)@ == old(names)@.push(name) && final(input)@.len() == 0,
        !added ==> *final(names) == *old(names) && *final(input) == *old(input),
{
    if !is_blank(name.as_str()) && !contains_name(names, &name) {
        names.push(name);
        *input = String::new();
        true
    } else {
        false
    }
}

/// The (trigger, body) pairs of the stored snippets once the editor's
/// snippet is in place.
fn pairs_after_save(snips: &Vec<Snippet>, e: &EditorState) -> (p: Vec<(String, String)>)
    ensures
        pair_views(p@) == saved_pairs(snips@, *e),
{
    let ghost base = snips@.map_values(|s: Snippet| (s.trigger@, s.body@));
    let mut p: Vec<(String, String)> = Vec::new();
    let mut k: usize = 0;
    while k < snips.len()
        invariant
            k <= snips.len(),
            base == snips@.map_values(|s: Snippet| (s.trigger@, s.body@)),
            p@.len() == k,
            forall|m: int|
                0 <= m < k ==> (#[trigger] pair_views(p@)[m]) == (if e.editing_index == Some(
                    m as usize,
                ) {
                    (e.trigger@, e.body@)
                } else {
                    base[m]
                }),
        decreases snips.len() - k,
    {
        let is_edited = match e.editing_index {
            Some(i) => i == k,
            None => false,
        };
        let ghost old_p = p@;
        if is_edited {
            p.push((e.trigger.clone(), e.body.clone()));
        } else {
            p.push((snips[k].trigger.clone(), snips[k].body.clone()));
        }
        proof {
            assert forall|m: int| 0 <= m < k + 1 implies (#[trigger] pair_views(p@)[m]) == (if e.editing_index
                == Some(m as usize) {
                (e.trigger@, e.body@)
            } else {
                base[m]
            }) by {
                assert(pair_views(p@)[m] == (p@[m].0@, p@[m].1@));
                if m < k {
                    assert(p@[m] == old_p[m]);
                    assert(pair_views(old_p)[m] == (old_p[m].0@, old_p[m].1@));
                } else {
                    assert(base[m] == (snips@[m].trigger@, snips@[m].body@));
                }
            }
        }
        k = k + 1;
    }
    if e.editing_index.is_none() {
        let ghost old_p = p@;
        p.push((e.trigger.clone(), e.body.clone()));
        proof {
            assert(pair_views(p@) =~= saved_pairs(snips@, *e)) by {
                assert forall|m: int| 0 <= m < p@.len() implies pair_views(p@)[m] == saved_pairs(snips@, *e)[m] by {
                    assert(pair_views(p@)[m] == (p@[m].0@, p@[m].1@));
                    if m < old_p.len() {
                        assert(p@[m] == old_p[m]);
                        assert(pair_views(old_p)[m] == (old_p[m].0@, old_p[m].1@));
                    }
                }
            }
        }
    } else {
        proof {
            assert(pair_views(p@) =~= saved_pairs(snips@, *e));
        }
    }
    p
}

impl PexandApp {
    /// The window at start: the list page showing all `snippets`, an empty
    /// search, the search input focused and the window hidden.
    pub fn new(snippets: Vec<Snippet>, trigger_apps: Vec<String>, block_apps: Vec<String>) -> (app:
        Self)
        ensures
            app.wf(),
            app.snippets == snippets,
            app.trigger_apps == trigger_apps,
            app.block_apps == block_apps,
            app.search_query@.len() == 0,
            app.selected_index == 0,
            app.view_mode == ViewMode::List,
            app.editor_state is None,
            app.focused_field == FocusedField::Search,
            app.window_minimized,
            app.trigger_app_input@.len() == 0,
            app.block_app_input@.len() == 0,
    {
        let search_query = String::new();
        let filtered_snippets = search_snippets(&snippets, search_query.as_str());
        PexandApp {
            search_query,
            snippets,
            filtered_snippets,
            selected_index: 0,
            view_mode: ViewMode::List,
            editor_state: None,
            focused_field: FocusedField::Search,
            window_minimized: true,
            trigger_apps,
            block_apps,
            trigger_app_input: String::new(),
            block_app_input: String::new(),
        }
    }

    /// Shows the search result of the current query over the current
    /// snippets; the highlighted row goes back to the first when it is past
    /// the end of a non-empty result.
    pub fn filter_snippets(&mut self)
        ensures
            final(self).is_refiltered(*old(self)),
    {
        self.filtered_snippets = search_snippets(&self.snippets, self.search_query.as_str());
        if self.selected_index >= self.filtered_snippets.len() && self.filtered_snippets.len() > 0 {
            self.selected_index = 0;
        }
    }

    /// Takes the snippets read back from the database and shows them.
    pub fn reload_snippets(&mut self, snippets: Vec<Snippet>)
        ensures
            final(self).is_refiltered(PexandApp { snippets, ..*old(self) }),
    {
        self.snippets = snippets;
        self.filter_snippets();
    }

    /// Ends a save: takes the snippets read back from the database, shows
    /// them, closes the editor and goes back to the list page.
    pub fn finish_save(&mut self, snippets: Vec<Snippet>)
        ensures
            final(self).is_refiltered(
                PexandApp {
                    snippets,
                    view_mode: ViewMode::List,
                    editor_state: None,
                    focused_field: FocusedField::Search,
                    ..*old(self)
                },
            ),
    {
        self.reload_snippets(snippets);
        self.view_mode = ViewMode::List;
        self.editor_state = None;
        self.focused_field = FocusedField::Search;
    }

    /// Opens the editor on row `index` of the shown list, if there is one.
    pub fn start_edit(&mut self, index: usize)
        ensures
            final(self).is_editing_row(*old(self), index),
    {
        if index < self.filtered_snippets.len() {
            let editor = {
                let row = &self.filtered_snippets[index];
                let label = match &row.1.label {
                    Some(l) => l.clone(),
                    None => String::new(),
                };
                EditorState::edit(row.1.trigger.clone(), label, row.1.body.clone(), row.0)
            };
            self.editor_state = Some(editor);
            self.view_mode = ViewMode::Editor;
            self.focused_field = FocusedField::EditorTrigger;
        }
    }

    /// Opens an empty editor for a new snippet.
    pub fn start_new(&mut self)
        ensures
            final(self).is_editing_new(*old(self)),
    {
        self.editor_state = Some(EditorState::new());
        self.view_mode = ViewMode::Editor;
        self.focused_field = FocusedField::EditorTrigger;
    }

    /// What saving the editor asks of the database.
    pub fn save_command(&self) -> (cmd: Command)
        ensures
            self.is_save_command(cmd),
    {
        match &self.editor_state {
            Some(e) => {
                if !e.is_valid() {
                    return Command::NoOp;
                }
                let pairs = pairs_after_save(&self.snippets, e);
                if detect_recursion_chain(e.trigger.as_str(), e.body.as_str(), pairs.as_slice()).is_some() {
                    return Command::NoOp;
                }
                let label = if e.label.as_str().is_empty() {
                    None
                } else {
                    Some(e.label.clone())
                };
                match e.editing_index {
                    Some(i) => {
                        if i < self.snippets.len() {
                            let mut updated = self.snippets[i].clone();
                            updated.trigger = e.trigger.clone();
                            updated.label = label;
                            updated.body = e.body.clone();
                            updated.touch();
                            Command::Save(SnippetWrite::Update(updated))
                        } else {
                            Command::Save(SnippetWrite::Unchanged)
                        }
                    },
                    None => Command::Save(
                        SnippetWrite::Create(
                            Snippet::with_label(e.trigger.clone(), label, e.body.clone()),
                        ),
                    ),
                }
            },
            None => Command::NoOp,
        }
    }

    /// What deleting row `index` of the shown list asks of the database.
    pub fn delete_command(&self, index: usize) -> (cmd: Command)
        ensures
            self.is_delete_command(index, cmd),
    {
        if index < self.filtered_snippets.len() {
            let orig = self.filtered_snippets[index].0;
            if orig < self.snippets.len() {
                return Command::Delete(self.snippets[orig].trigger.clone());
            }
        }
        Command::NoOp
    }

    /// Moves the focus to the next field of the page.
    pub fn handle_tab_navigation(&mut self) -> (cmd: Command)
        ensures
            final(self).is_tabbed(*old(self), cmd),
    {
        match self.view_mode {
            ViewMode::List => match self.focused_field {
                FocusedField::Search => {
                    if self.filtered_snippets.len() > 0 {
                        self.focused_field = FocusedField::List;
                    }
                    Command::NoOp
                },
                FocusedField::List => {
                    self.focused_field = FocusedField::Search;
                    Command::NoOp
                },
                _ => Command::NoOp,
            },
            ViewMode::Editor => match self.focused_field {
                FocusedField::EditorTrigger => {
                    self.focused_field = FocusedField::EditorLabel;
                    Command::Focus(WidgetId::LabelInput)
                },
                FocusedField::EditorLabel => {
                    self.focused_field = FocusedField::EditorBody;
                    Command::Focus(WidgetId::BodyEditor)
                },
                FocusedField::EditorBody => {
                    self.focused_field = FocusedField::EditorTrigger;
                    Command::Focus(WidgetId::TriggerInput)
                },
                _ => Command::NoOp,
            },
            ViewMode::Help => Command::NoOp,
            ViewMode::Settings => match self.focused_field {
                FocusedField::SettingsTriggerApp => {
                    self.focused_field = FocusedField::SettingsBlockApp;
                    Command::Focus(WidgetId::SettingsBlockAppInput)
                },
                FocusedField::SettingsBlockApp => {
                    self.focused_field = FocusedField::SettingsTriggerApp;
                    Command::Focus(WidgetId::SettingsTriggerAppInput)
                },
                _ => Command::NoOp,
            },
        }
    }

    /// Reacts to a key going down.
    fn key_pressed(&mut self, key: Key, control: bool) -> (cmd: Command)
        ensures
            final(self).is_key_step(*old(self), key, control, cmd),
    {
        match key {
            Key::Named(NamedKey::Escape) => match self.view_mode {
                ViewMode::Editor => {
                    self.view_mode = ViewMode::List;
                    self.editor_state = None;
                    self.focused_field = FocusedField::Search;
                    Command::NoOp
                },
                ViewMode::Help => {
                    self.view_mode = ViewMode::List;
                    Command::NoOp
                },
                ViewMode::Settings => {
                    self.view_mode = ViewMode::List;
                    Command::NoOp
                },
                ViewMode::List => {
                    self.window_minimized = true;
                    Command::HideWindow
                },
            },
            Key::Named(NamedKey::Enter) => {
                if self.view_mode == ViewMode::List && self.focused_field == FocusedField::List
                    && self.filtered_snippets.len() > 0 && self.selected_index
                    < self.filtered_snippets.len() {
                    self.start_edit(self.selected_index);
                }
                Command::NoOp
            },
            Key::Named(NamedKey::Tab) => self.handle_tab_navigation(),
            Key::Named(NamedKey::ArrowUp) => {
                if self.view_mode == ViewMode::List && self.focused_field == FocusedField::List
                    && self.selected_index > 0 {
                    self.selected_index = self.selected_index - 1;
                }
                Command::NoOp
            },
            Key::Named(NamedKey::ArrowDown) => {
                let len = self.filtered_snippets.len();
                let last = if len > 0 {
                    len - 1
                } else {
                    0
                };
                if self.view_mode == ViewMode::List && self.focused_field == FocusedField::List
                    && self.selected_index < last {
                    self.selected_index = self.selected_index + 1;
                }
                Command::NoOp
            },
            Key::Named(NamedKey::Delete) => {
                if self.view_mode == ViewMode::List && self.focused_field == FocusedField::List
                    && self.filtered_snippets.len() > 0 && self.selected_index
                    < self.filtered_snippets.len() {
                    self.delete_command(self.selected_index)
                } else {
                    Command::NoOp
                }
            },
            Key::Character(c) => {
                if is_single_char(c.as_str(), 'n', 'N') {
                    if control && self.view_mode == ViewMode::List {
                        self.start_new();
                    }
                    Command::NoOp
                } else if is_single_char(c.as_str(), 'f', 'F') {
                    if control && self.view_mode == ViewMode::List {
                        self.focused_field = FocusedField::Search;
                        Command::Focus(WidgetId::SearchInput)
                    } else {
                        Command::NoOp
                    }
                } else if is_single_char(c.as_str(), 's', 'S') {
                    if control && self.view_mode == ViewMode::Editor {
                        self.save_command()
                    } else {
                        Command::NoOp
                    }
                } else {
                    Command::NoOp
                }
            },
            Key::Other => Command::NoOp,
        }
    }

    /// Row `idx` of the shown list is drawn highlighted: it is the selected
    /// row and the list has the focus.
    pub fn row_is_highlighted(&self, idx: usize) -> (r: bool)
        ensures
            r == (idx == self.selected_index && self.focused_field == FocusedField::List),
    {
        idx == self.selected_index && self.focused_field == FocusedField::List
    }

    /// Applies a message to the window's state and says what must be done
    /// outside it.
    pub fn update(&mut self, msg: Message) -> (cmd: Command)
        ensures
            final(self).is_step(*old(self), msg, cmd),
            old(self).wf() ==> final(self).wf(),
    {
        match msg {
            Message::SearchChanged(q) => {
                self.search_query = q;
                self.filter_snippets();
                Command::NoOp
            },
            Message::SnippetSelected(i) => {
                self.selected_index = i;
                Command::NoOp
            },
            Message::SnippetDoubleClicked(i) => {
                self.start_edit(i);
                Command::NoOp
            },
            Message::EditSnippet(i) => {
                self.start_edit(i);
                Command::Focus(WidgetId::TriggerInput)
            },
            Message::NewSnippet => {
                self.start_new();
                Command::Focus(WidgetId::TriggerInput)
            },
            Message::DeleteSnippet(i) => self.delete_command(i),
            Message::SaveSnippet => self.save_command(),
            Message::CancelEdit => {
                self.view_mode = ViewMode::List;
                self.editor_state = None;
                self.focused_field = FocusedField::Search;
                Command::NoOp
            },
            Message::TriggerChanged(v) => {
                if let Some(e) = &mut self.editor_state {
                    e.trigger = v;
                }
                Command::NoOp
            },
            Message::LabelChanged(v) => {
                if let Some(e) = &mut self.editor_state {
                    e.label = v;
                }
                Command::NoOp
            },
            Message::BodyChanged(v) => {
                if let Some(e) = &mut self.editor_state {
                    e.body = v;
                }
                Command::NoOp
            },
            Message::KeyPressed(ev) => match ev {
                KeyEvent::KeyPressed { key, control } => self.key_pressed(key, control),
                KeyEvent::Other => Command::NoOp,
            },
            Message::NavigateUp => {
                if self.selected_index > 0 {
                    self.selected_index = self.selected_index - 1;
                }
                Command::NoOp
            },
            Message::NavigateDown => {
                let len = self.filtered_snippets.len();
                let last = if len > 0 {
                    len - 1
                } else {
                    0
                };
                if self.selected_index < last {
                    self.selected_index = self.selected_index + 1;
                }
                Command::NoOp
            },
            Message::ActivateSelected => {
                if self.filtered_snippets.len() > 0 && self.selected_index
                    < self.filtered_snippets.len() {
                    self.start_edit(self.selected_index);
                }
                Command::NoOp
            },
            Message::TabPressed => self.handle_tab_navigation(),
            Message::ShowHelp => {
                self.view_mode = ViewMode::Help;
                Command::NoOp
            },
            Message::CloseHelp => {
                self.view_mode = ViewMode::List;
                Command::NoOp
            },
            Message::ShowSettings => {
                self.view_mode = ViewMode::Settings;
                self.focused_field = FocusedField::SettingsTriggerApp;
                Command::Focus(WidgetId::SettingsTriggerAppInput)
            },
            Message::CloseSettings => {
                self.view_mode = ViewMode::List;
                Command::NoOp
            },
            Message::OpenLink(url) => Command::OpenLink(url),
            Message::AddTriggerApp(name) => {
                if add_app_name(&mut self.trigger_apps, &mut self.trigger_app_input, name) {
                    Command::SaveTriggerApps
                } else {
                    Command::NoOp
                }
            },
            Message::RemoveTriggerApp(i) => {
                if i < self.trigger_apps.len() {
                    self.trigger_apps.remove(i);
                    Command::SaveTriggerApps
                } else {
                    Command::NoOp
                }
            },
            Message::AddBlockApp(name) => {
                if add_app_name(&mut self.block_apps, &mut self.block_app_input, name) {
                    Command::SaveBlockApps
                } else {
                    Command::NoOp
                }
            },
            Message::RemoveBlockApp(i) => {
                if i < self.block_apps.len() {
                    self.block_apps.remove(i);
                    Command::SaveBlockApps
                } else {
                    Command::NoOp
                }
            },
            Message::TriggerAppInputChanged(s) => {
                self.trigger_app_input = s;
                Command::NoOp
            },
            Message::BlockAppInputChanged(s) => {
                self.block_app_input = s;
                Command::NoOp
            },
            Message::ExportSnippets => Command::ExportSnippets,
            Message::ImportSnippets => Command::ImportSnippets,
            Message::External(x) => match x {
                UiExternalMessage::Show => {
                    self.window_minimized = false;
                    self.focused_field = FocusedField::Search;
                    Command::ShowWindow
                },
                UiExternalMessage::Hide => {
                    self.window_minimized = true;
                    Command::HideWindow
                },
                UiExternalMessage::Exit => Command::Exit,
            },
        }
    }
}

} // verus!
