use vstd::prelude::*;

use crate::editor::YoleckEditorState;
use crate::entity_management::{entries_match, YoleckRawLevel};
use crate::json::str_equal;
use crate::level_index::{swap_with_previous, YoleckLevelIndexEntry};
use crate::YoleckState;

verus! {

/// The level file that the editor works on.
pub enum SelectedLevelFile {
    /// A level not saved yet, with the file name typed for it so far.
    Unsaved(String),
    /// A level loaded from, or saved to, the file of that name.
    Existing(String),
}

/// What the levels panel asks of the editor; the caller carries the actions out in order.
pub enum LevelFilesAction {
    /// Despawn the level being edited and its knobs.
    ClearLevel,
    /// Switch between editing and playing.
    SetEditorState(YoleckEditorState),
    /// Load a level held in memory, for playtesting or for editing.
    LoadLevel { level: YoleckRawLevel, playtest: bool },
    /// Read the level file of that name, upgrade it and load it for editing.
    LoadLevelFile(String),
    /// Write the level being edited to the existing file of that name.
    SaveLevelFile(String),
    /// Write the index of levels.
    SaveIndex,
    /// Start editing a new, empty level.
    StartNewLevel,
}

/// Two levels hold the same header, level data and entries.
pub open spec fn levels_match(a: YoleckRawLevel, b: YoleckRawLevel) -> bool {
    &&& a.spec_header() == b.spec_header()
    &&& a.spec_level_data() == b.spec_level_data()
    &&& a.spec_entries().len() == b.spec_entries().len()
    &&& forall|i: int|
        0 <= i < a.spec_entries().len() ==> entries_match(
            #[trigger] a.spec_entries()[i],
            b.spec_entries()[i],
        )
}

/// Whether `action` loads a level that matches `level`.
pub open spec fn loads_level(action: LevelFilesAction, level: YoleckRawLevel, playtest: bool) -> bool {
    match action {
        LevelFilesAction::LoadLevel { level: l, playtest: p } => levels_match(l, level) && p
            == playtest,
        _ => false,
    }
}

/// Whether `action` loads the level file `name`.
pub open spec fn loads_file(action: LevelFilesAction, name: Seq<char>) -> bool {
    match action {
        LevelFilesAction::LoadLevelFile(f) => f@ == name,
        _ => false,
    }
}

/// Whether `action` saves the level to the file `name`.
pub open spec fn saves_file(action: LevelFilesAction, name: Seq<char>) -> bool {
    match action {
        LevelFilesAction::SaveLevelFile(f) => f@ == name,
        _ => false,
    }
}

/// Whether `s` ends with `suffix`.
pub open spec fn ends_with_text(s: Seq<char>, suffix: Seq<char>) -> bool {
    s.len() >= suffix.len() && s.subrange(s.len() - suffix.len(), s.len() as int) == suffix
}

/// The name of a new level file: the name typed, with `.yol` appended unless it ends with it.
pub open spec fn spec_new_level_file_name(name: Seq<char>) -> Seq<char> {
    if ends_with_text(name, ".yol"@) {
        name
    } else {
        name + ".yol"@
    }
}

/// The state of the levels panel between frames.
pub struct LevelFilesManager {
    /// Whether the levels directory is to be listed again.
    pub should_list_files: bool,
    pub selected_level_file: SelectedLevelFile,
    /// The level as it was when the playtest started, while one runs.
    pub level_being_playtested: Option<YoleckRawLevel>,
}

/// Whether the level file `name` is the one selected.
pub open spec fn spec_is_selected(selected: SelectedLevelFile, name: Seq<char>) -> bool {
    match selected {
        SelectedLevelFile::Existing(s) => s@ == name,
        SelectedLevelFile::Unsaved(_) => false,
    }
}

fn copy_level(level: &YoleckRawLevel) -> (r: YoleckRawLevel)
    ensures
        levels_match(r, *level),
{
    level.duplicate()
}

impl LevelFilesManager {
    /// The panel as it starts: a new, unnamed level, and the directory to be listed.
    pub fn new() -> (r: Self)
        ensures
            r.should_list_files,
            r.selected_level_file matches SelectedLevelFile::Unsaved(n) && n@.len() == 0,
            r.level_being_playtested is None,
    {
        LevelFilesManager {
            should_list_files: true,
            selected_level_file: SelectedLevelFile::Unsaved(String::new()),
            level_being_playtested: None,
        }
    }

    /// The "Playtest" button, with the level being edited as it is now: the level is kept, and
    /// the editor switches to game mode and loads it for playtesting. While a playtest runs the
    /// button is not there, and nothing happens.
    pub fn start_playtest(&mut self, current_level: YoleckRawLevel) -> (r: Vec<LevelFilesAction>)
        ensures
            final(self).should_list_files == old(self).should_list_files,
            final(self).selected_level_file == old(self).selected_level_file,
            old(self).level_being_playtested is Some ==> {
                &&& r@.len() == 0
                &&& final(self).level_being_playtested == old(self).level_being_playtested
            },
            old(self).level_being_playtested is None ==> {
                &&& final(self).level_being_playtested matches Some(l) && levels_match(
                    l,
                    current_level,
                )
                &&& r@.len() == 3
                &&& r@[0] is ClearLevel
                &&& r@[1] == LevelFilesAction::SetEditorState(YoleckEditorState::GameActive)
                &&& loads_level(r@[2], current_level, true)
            },
    {
        if self.level_being_playtested.is_some() {
            return Vec::new();
        }
        let to_load = copy_level(&current_level);
        let mut r: Vec<LevelFilesAction> = Vec::new();
        r.push(LevelFilesAction::ClearLevel);
        r.push(LevelFilesAction::SetEditorState(YoleckEditorState::GameActive));
        r.push(LevelFilesAction::LoadLevel { level: to_load, playtest: true });
        self.level_being_playtested = Some(current_level);
        proof {
            assert(levels_match(current_level, current_level));
        }
        r
    }

    /// The "Restart Playtest" button: the level as it was when the playtest started is loaded
    /// again for playtesting. Without a playtest nothing happens.
    pub fn restart_playtest(&self) -> (r: Vec<LevelFilesAction>)
        ensures
            match self.level_being_playtested {
                Some(l) => {
                    &&& r@.len() == 2
                    &&& r@[0] is ClearLevel
                    &&& loads_level(r@[1], l, true)
                },
                None => r@.len() == 0,
            },
    {
        let mut r: Vec<LevelFilesAction> = Vec::new();
        if let Some(level) = &self.level_being_playtested {
            r.push(LevelFilesAction::ClearLevel);
            r.push(LevelFilesAction::LoadLevel { level: copy_level(level), playtest: true });
        }
        r
    }

    /// The "Finish Playtest" button: the editor goes back to edit mode with the level as it was
    /// when the playtest started. Without a playtest nothing happens.
    pub fn finish_playtest(&mut self) -> (r: Vec<LevelFilesAction>)
        ensures
            final(self).should_list_files == old(self).should_list_files,
            final(self).selected_level_file == old(self).selected_level_file,
            final(self).level_being_playtested is None,
            match old(self).level_being_playtested {
                Some(l) => {
                    &&& r@.len() == 3
                    &&& r@[0] is ClearLevel
                    &&& r@[1] == LevelFilesAction::SetEditorState(YoleckEditorState::EditorActive)
                    &&& loads_level(r@[2], l, false)
                },
                None => r@.len() == 0,
            },
    {
        let mut r: Vec<LevelFilesAction> = Vec::new();
        match self.level_being_playtested.take() {
            Some(level) => {
                r.push(LevelFilesAction::ClearLevel);
                r.push(LevelFilesAction::SetEditorState(YoleckEditorState::EditorActive));
                let to_load = copy_level(&level);
                r.push(LevelFilesAction::LoadLevel { level: to_load, playtest: false });
            },
            None => {},
        }
        r
    }

    /// The levels directory was edited: list it again.
    pub fn directory_edited(&mut self)
        ensures
            final(self).should_list_files,
            final(self).selected_level_file == old(self).selected_level_file,
            final(self).level_being_playtested == old(self).level_being_playtested,
    {
        self.should_list_files = true;
    }

    /// Whether the directory is to be listed this frame; the request is then taken.
    pub fn take_listing_request(&mut self) -> (r: bool)
        ensures
            r == old(self).should_list_files,
            !final(self).should_list_files,
            final(self).selected_level_file == old(self).selected_level_file,
            final(self).level_being_playtested == old(self).level_being_playtested,
    {
        let r = self.should_list_files;
        self.should_list_files = false;
        r
    }

    /// Whether the level file `filename` is the selected one.
    pub fn is_selected(&self, filename: &str) -> (r: bool)
        ensures
            r == spec_is_selected(self.selected_level_file, filename@),
    {
        match &self.selected_level_file {
            SelectedLevelFile::Existing(name) => str_equal(name.as_str(), filename),
            SelectedLevelFile::Unsaved(_) => false,
        }
    }

    /// A level file of the list was clicked: another file is opened, unless the level being
    /// edited has unsaved changes.
    pub fn file_clicked(&mut self, yoleck: &YoleckState, filename: &str) -> (r: Vec<LevelFilesAction>)
        ensures
            final(self).should_list_files == old(self).should_list_files,
            final(self).level_being_playtested == old(self).level_being_playtested,
            if !spec_is_selected(old(self).selected_level_file, filename@)
                && !yoleck.level_needs_saving {
                &&& final(self).selected_level_file matches SelectedLevelFile::Existing(n) && n@
                    == filename@
                &&& r@.len() == 2
                &&& r@[0] is ClearLevel
                &&& loads_file(r@[1], filename@)
            } else {
                &&& final(self).selected_level_file == old(self).selected_level_file
                &&& r@.len() == 0
            },
    {
        let mut r: Vec<LevelFilesAction> = Vec::new();
        if !self.is_selected(filename) && !yoleck.level_needs_saving {
            self.selected_level_file = SelectedLevelFile::Existing(String::from_str(filename));
            r.push(LevelFilesAction::ClearLevel);
            r.push(LevelFilesAction::LoadLevelFile(String::from_str(filename)));
        }
        r
    }

    /// The "SAVE" button, shown beside the selected file when the level has unsaved changes:
    /// the level is written to that file and has nothing left to save.
    pub fn save_clicked(&self, yoleck: &mut YoleckState, filename: &str) -> (r: Vec<
        LevelFilesAction,
    >)
        ensures
            final(yoleck).level_being_edited == old(yoleck).level_being_edited,
            if spec_is_selected(self.selected_level_file, filename@) && old(
                yoleck,
            ).level_needs_saving {
                &&& r@.len() == 1
                &&& saves_file(r@[0], filename@)
                &&& !final(yoleck).level_needs_saving
            } else {
                &&& r@.len() == 0
                &&& *final(yoleck) == *old(yoleck)
            },
    {
        let mut r: Vec<LevelFilesAction> = Vec::new();
        if self.is_selected(filename) && yoleck.level_needs_saving {
            r.push(LevelFilesAction::SaveLevelFile(String::from_str(filename)));
            yoleck.level_needs_saving = false;
        }
        r
    }

    /// The "REVERT" button, shown beside the selected file when the level has unsaved changes:
    /// the file is loaded again and the changes are dropped.
    pub fn revert_clicked(&self, yoleck: &mut YoleckState, filename: &str) -> (r: Vec<
        LevelFilesAction,
    >)
        ensures
            final(yoleck).level_being_edited == old(yoleck).level_being_edited,
            if spec_is_selected(self.selected_level_file, filename@) && old(
                yoleck,
            ).level_needs_saving {
                &&& r@.len() == 2
                &&& r@[0] is ClearLevel
                &&& loads_file(r@[1], filename@)
                &&& !final(yoleck).level_needs_saving
            } else {
                &&& r@.len() == 0
                &&& *final(yoleck) == *old(yoleck)
            },
    {
        let mut r: Vec<LevelFilesAction> = Vec::new();
        if self.is_selected(filename) && yoleck.level_needs_saving {
            r.push(LevelFilesAction::ClearLevel);
            r.push(LevelFilesAction::LoadLevelFile(String::from_str(filename)));
            yoleck.level_needs_saving = false;
        }
        r
    }

    /// The "Create" button of a new level, enabled when a file name was typed: the name gets the
    /// `.yol` extension (kept even if the file cannot be created) and is returned for the caller
    /// to create the file with. `None` when no new level is being named or the name is empty.
    pub fn create_clicked(&mut self) -> (r: Option<String>)
        ensures
            final(self).should_list_files == old(self).should_list_files,
            final(self).level_being_playtested == old(self).level_being_playtested,
            match old(self).selected_level_file {
                SelectedLevelFile::Unsaved(name) => if name@.len() > 0 {
                    &&& r matches Some(f) && f@ == spec_new_level_file_name(name@)
                    &&& final(self).selected_level_file matches SelectedLevelFile::Unsaved(n) && n@
                        == spec_new_level_file_name(name@)
                } else {
                    &&& r is None
                    &&& final(self).selected_level_file == old(self).selected_level_file
                },
                SelectedLevelFile::Existing(_) => {
                    &&& r is None
                    &&& final(self).selected_level_file == old(self).selected_level_file
                },
            },
    {
        proof {
            reveal_strlit(".yol");
        }
        match &mut self.selected_level_file {
            SelectedLevelFile::Unsaved(name) => {
                let n = name.as_str().unicode_len();
                if n == 0 {
                    return None;
                }
                let has_extension = n >= 4 && str_equal(name.as_str().substring_char(n - 4, n), ".yol");
                if !has_extension {
                    name.append(".yol");
                }
                Some(name.clone())
            },
            SelectedLevelFile::Existing(_) => None,
        }
    }

    /// The new level file `filename` was created and the level written to it: it becomes the
    /// selected file, the directory is listed again, and nothing is left to save.
    pub fn level_file_created(&mut self, yoleck: &mut YoleckState, filename: &str)
        ensures
            final(self).should_list_files,
            final(self).selected_level_file matches SelectedLevelFile::Existing(n) && n@
                == filename@,
            final(self).level_being_playtested == old(self).level_being_playtested,
            !final(yoleck).level_needs_saving,
            final(yoleck).level_being_edited == old(yoleck).level_being_edited,
    {
        self.selected_level_file = SelectedLevelFile::Existing(String::from_str(filename));
        self.should_list_files = true;
        yoleck.level_needs_saving = false;
    }

    /// The "Wipe Level" button, shown for a new level with changes: the level is cleared.
    pub fn wipe_clicked(&self, yoleck: &mut YoleckState) -> (r: Vec<LevelFilesAction>)
        ensures
            final(yoleck).level_being_edited == old(yoleck).level_being_edited,
            if self.selected_level_file is Unsaved && old(yoleck).level_needs_saving {
                &&& r@.len() == 1
                &&& r@[0] is ClearLevel
                &&& !final(yoleck).level_needs_saving
            } else {
                &&& r@.len() == 0
                &&& *final(yoleck) == *old(yoleck)
            },
    {
        let mut r: Vec<LevelFilesAction> = Vec::new();
        if let SelectedLevelFile::Unsaved(_) = &self.selected_level_file {
            if yoleck.level_needs_saving {
                r.push(LevelFilesAction::ClearLevel);
                yoleck.level_needs_saving = false;
            }
        }
        r
    }

    /// The "New Level" button, enabled for an existing file with nothing to save: the level is
    /// cleared and a new, unnamed one started.
    pub fn new_level_clicked(&mut self, yoleck: &YoleckState) -> (r: Vec<LevelFilesAction>)
        ensures
            final(self).should_list_files == old(self).should_list_files,
            final(self).level_being_playtested == old(self).level_being_playtested,
            if old(self).selected_level_file is Existing && !yoleck.level_needs_saving {
                &&& r@.len() == 2
                &&& r@[0] is ClearLevel
                &&& r@[1] is StartNewLevel
                &&& final(self).selected_level_file matches SelectedLevelFile::Unsaved(n) && n@.len()
                    == 0
            } else {
                &&& r@.len() == 0
                &&& final(self).selected_level_file == old(self).selected_level_file
            },
    {
        let mut r: Vec<LevelFilesAction> = Vec::new();
        if let SelectedLevelFile::Existing(_) = &self.selected_level_file {
            if !yoleck.level_needs_saving {
                r.push(LevelFilesAction::ClearLevel);
                r.push(LevelFilesAction::StartNewLevel);
                self.selected_level_file = SelectedLevelFile::Unsaved(String::new());
            }
        }
        r
    }
}

/// Playtesting leaves the level as it was: the level that finishing a playtest loads back into
/// the editor (`loaded`, matching what was kept when the playtest started, `kept`) matches the
/// level that was being edited when the playtest started (`edited`).
pub proof fn lemma_playtest_round_trip(
    edited: YoleckRawLevel,
    kept: YoleckRawLevel,
    loaded: YoleckRawLevel,
)
    requires
        levels_match(kept, edited),
        levels_match(loaded, kept),
    ensures
        levels_match(loaded, edited),
{
    assert forall|i: int| 0 <= i < loaded.spec_entries().len() implies entries_match(
        #[trigger] loaded.spec_entries()[i],
        edited.spec_entries()[i],
    ) by {
        assert(entries_match(loaded.spec_entries()[i], kept.spec_entries()[i]));
        assert(entries_match(kept.spec_entries()[i], edited.spec_entries()[i]));
    }
}

/// The "^" (`up`) and "v" buttons of the level at `index`: it trades places with the level before
/// it, or after it, and the index is saved. The first level cannot move up nor the last down.
pub fn move_level(files: &mut Vec<YoleckLevelIndexEntry>, index: usize, up: bool) -> (r: Vec<
    LevelFilesAction,
>)
    requires
        index < old(files)@.len(),
    ensures
        ({
            let other = if up {
                index - 1
            } else {
                index + 1
            };
            if (up && index > 0) || (!up && index + 1 < old(files)@.len()) {
                &&& final(files)@ == old(files)@.update(index as int, old(files)@[other]).update(
                    other,
                    old(files)@[index as int],
                )
                &&& r@.len() == 1
                &&& r@[0] is SaveIndex
            } else {
                &&& final(files)@ == old(files)@
                &&& r@.len() == 0
            }
        }),
{
    let mut r: Vec<LevelFilesAction> = Vec::new();
    if up && index > 0 {
        swap_with_previous(files, index);
        assert(files@ =~= old(files)@.update(index as int, old(files)@[index - 1]).update(
            index - 1,
            old(files)@[index as int],
        ));
        r.push(LevelFilesAction::SaveIndex);
    } else if !up && index < files.len() - 1 {
        swap_with_previous(files, index + 1);
        r.push(LevelFilesAction::SaveIndex);
    }
    r
}

/// Whether the levels panel shows anything: not while an exclusive system runs.
pub fn level_files_section_shown(exclusive_active: bool) -> (r: bool)
    ensures
        r == !exclusive_active,
{
    !exclusive_active
}

/// Whether the files part of the panel is shown: only in editor mode.
pub fn level_files_list_shown(editor_state: YoleckEditorState) -> (r: bool)
    ensures
        r == (editor_state == YoleckEditorState::EditorActive),
{
    match editor_state {
        YoleckEditorState::EditorActive => true,
        YoleckEditorState::GameActive => false,
    }
}

} // verus!
