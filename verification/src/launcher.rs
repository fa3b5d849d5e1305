use vstd::prelude::*;
use crate::shared::manifest::Manifest;

verus! {

/// What the launcher is asked to do after a frame.
#[derive(Debug, Clone, Copy, PartialEq, Eq, Structural)]
pub enum LauncherAction {
    Nothing,
    /// Compile the game with this index.
    Build(u32),
    /// Run the compiled game with this index (the launcher then quits).
    Play(u32),
}

/// What the launcher reads of the user in a frame: the mouse buttons, and
/// what the mouse is over (the two buttons, or a game's panel); and whether
/// the selected game has been compiled.
#[derive(Debug, Clone, Copy)]
pub struct LauncherInput {
    pub left_click: bool,
    pub right_down: bool,
    pub over_build: bool,
    pub over_play: bool,
    pub hovered_game: Option<u32>,
    pub selected_built: bool,
}

/// Whether the Build button can be used: a game is selected.
pub fn build_enabled(selected: Option<u32>) -> (r: bool)
    ensures
        r == selected is Some,
{
    selected.is_some()
}

/// Whether the Play button can be used: a compiled game is selected.
pub fn play_enabled(selected: Option<u32>, built: bool) -> (r: bool)
    ensures
        r == (selected is Some && built),
{
    selected.is_some() && built
}

/// The selection after a frame, and what to do: a left click on an enabled
/// button builds or plays the selected game, a left click on a game's panel
/// selects it, and holding the right button clears the selection.
pub open spec fn launcher_step_spec(selected: Option<u32>, input: LauncherInput) -> (Option<u32>, LauncherAction) {
    let build_hovered = selected is Some && input.over_build;
    let play_hovered = selected is Some && input.selected_built && input.over_play;
    let (sel, action) = if input.left_click {
        if build_hovered {
            (selected, LauncherAction::Build(selected->0))
        } else if play_hovered {
            (selected, LauncherAction::Play(selected->0))
        } else if input.hovered_game is Some {
            (input.hovered_game, LauncherAction::Nothing)
        } else {
            (selected, LauncherAction::Nothing)
        }
    } else {
        (selected, LauncherAction::Nothing)
    };
    (if input.right_down { None } else { sel }, action)
}

/// One frame of the launcher's decisions.
pub fn launcher_step(selected: Option<u32>, input: LauncherInput) -> (r: (Option<u32>, LauncherAction))
    ensures
        r == launcher_step_spec(selected, input),
{
    let build_hovered = build_enabled(selected) && input.over_build;
    let play_hovered = play_enabled(selected, input.selected_built) && input.over_play;
    let mut sel = selected;
    let mut action = LauncherAction::Nothing;
    if input.left_click {
        if build_hovered {
            action = LauncherAction::Build(selected.unwrap());
        } else if play_hovered {
            action = LauncherAction::Play(selected.unwrap());
        } else if input.hovered_game.is_some() {
            sel = input.hovered_game;
        }
    }
    if input.right_down {
        sel = None;
    }
    (sel, action)
}

/// The name and version a game's panel shows: those of its manifest, or
/// `Unnamed game` and `v1.0.0` where it gives none.
pub fn panel_labels(manifest: &Manifest) -> (r: (String, String))
    ensures
        r.0@ == match manifest.metadata {
            Some(m) => match m.name {
                Some(n) => n@,
                None => "Unnamed game"@,
            },
            None => "Unnamed game"@,
        },
        r.1@ == match manifest.metadata {
            Some(m) => match m.version {
                Some(v) => v@,
                None => "v1.0.0"@,
            },
            None => "v1.0.0"@,
        },
{
    let name = match &manifest.metadata {
        Some(m) => match &m.name {
            Some(n) => n.clone(),
            None => "Unnamed game".to_owned(),
        },
        None => "Unnamed game".to_owned(),
    };
    let version = match &manifest.metadata {
        Some(m) => match &m.version {
            Some(v) => v.clone(),
            None => "v1.0.0".to_owned(),
        },
        None => "v1.0.0".to_owned(),
    };
    (name, version)
}

} // verus!
