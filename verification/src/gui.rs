//! Editor-side state shared by both front ends: preset messages, the
//! minimap's filter label and the per-preset collapsed-stage flags.

use vstd::prelude::*;

use crate::nam::info::opt_text;

verus! {

/// What the user asked of the preset bar.
#[derive(Debug, Clone)]
pub enum PresetMessage {
    Select(String),
    Save(String),
    Update,
    Delete(String),
    Gui(PresetGuiMessage),
}

/// Interaction with the preset bar's own dialogs.
#[derive(Debug, Clone)]
pub enum PresetGuiMessage {
    CancelSave,
    ShowSave,
    NameChanged(String),
    ConfirmOverwrite,
    CancelOverwrite,
}

/// The minimap label of the input-filter block.
pub open spec fn spec_filter_label(hp_enabled: bool, lp_enabled: bool) -> Seq<char> {
    if hp_enabled && lp_enabled {
        "HP/LP"@
    } else if hp_enabled {
        "HP"@
    } else if lp_enabled {
        "LP"@
    } else {
        "-"@
    }
}

pub fn filter_label(hp_enabled: bool, lp_enabled: bool) -> (r: &'static str)
    ensures
        r@ == spec_filter_label(hp_enabled, lp_enabled),
{
    if hp_enabled && lp_enabled {
        "HP/LP"
    } else if hp_enabled {
        "HP"
    } else if lp_enabled {
        "LP"
    } else {
        "-"
    }
}

/// The saved collapsed flags of a preset, fitted to its current stage count:
/// extra flags dropped, missing ones expanded (`false`).
pub open spec fn spec_fit_collapsed(saved: Seq<bool>, stage_count: nat) -> Seq<bool> {
    Seq::new(stage_count, |i: int| i < saved.len() && saved[i])
}

/// The fitted flags have one entry per stage: a saved flag where there is
/// one, expanded where there is none.
pub proof fn law_collapsed_flags_fit_the_stages(saved: Seq<bool>, stage_count: nat)
    ensures
        spec_fit_collapsed(saved, stage_count).len() == stage_count,
        forall|i: int|
            0 <= i < stage_count && i < saved.len() ==> #[trigger] spec_fit_collapsed(saved, stage_count)[i]
                == saved[i],
        forall|i: int|
            0 <= i < stage_count && i >= saved.len() ==> !#[trigger] spec_fit_collapsed(saved, stage_count)[i],
{
}

pub fn restore_collapsed(saved: Option<&Vec<bool>>, stage_count: usize) -> (r: Vec<bool>)
    ensures
        r@ == spec_fit_collapsed(
            match saved {
                Some(v) => v@,
                None => Seq::empty(),
            },
            stage_count as nat,
        ),
{
    let ghost s = match saved {
        Some(v) => v@,
        None => Seq::<bool>::empty(),
    };
    let mut r: Vec<bool> = Vec::new();
    let mut i: usize = 0;
    while i < stage_count
        invariant
            i <= stage_count,
            r@ == spec_fit_collapsed(s, i as nat),
            s == match saved {
                Some(v) => v@,
                None => Seq::<bool>::empty(),
            },
        decreases stage_count - i,
    {
        let flag = match saved {
            Some(v) => i < v.len() && v[i],
            None => false,
        };
        r.push(flag);
        proof {
            assert(r@ =~= spec_fit_collapsed(s, (i + 1) as nat));
        }
        i = i + 1;
    }
    r
}

/// What the standalone settings do after a preset message: which preset is
/// remembered as selected, whose saved collapse flags are forgotten, and
/// whether the settings are written.
#[derive(Debug, Clone)]
pub struct PresetSettingsUpdate {
    pub selected_preset: Option<String>,
    pub forget_collapsed: Option<String>,
    pub save: bool,
}

/// Selecting or saving a preset remembers it as selected; deleting one
/// forgets its collapse flags and, when it was the selected preset, the
/// selection; any of these writes the settings. Other messages change
/// nothing.
pub open spec fn spec_preset_settings(
    selected: Option<Seq<char>>,
    msg: PresetMessage,
) -> (Option<Seq<char>>, Option<Seq<char>>, bool) {
    match msg {
        PresetMessage::Select(n) => (Some(n@), None, true),
        PresetMessage::Save(n) => (Some(n@), None, true),
        PresetMessage::Delete(n) => (
            if selected == Some(n@) {
                None
            } else {
                selected
            },
            Some(n@),
            true,
        ),
        _ => (selected, None, false),
    }
}

pub fn preset_settings_update(selected: Option<String>, msg: &PresetMessage) -> (r:
    PresetSettingsUpdate)
    ensures
        (opt_text(r.selected_preset), opt_text(r.forget_collapsed), r.save)
            == spec_preset_settings(opt_text(selected), *msg),
{
    match msg {
        PresetMessage::Select(n) => PresetSettingsUpdate {
            selected_preset: Some(n.clone()),
            forget_collapsed: None,
            save: true,
        },
        PresetMessage::Save(n) => PresetSettingsUpdate {
            selected_preset: Some(n.clone()),
            forget_collapsed: None,
            save: true,
        },
        PresetMessage::Delete(n) => {
            let was_selected = match &selected {
                Some(s) => crate::text::same_text(s.as_str(), n.as_str()),
                None => false,
            };
            PresetSettingsUpdate {
                selected_preset: if was_selected {
                    None
                } else {
                    selected
                },
                forget_collapsed: Some(n.clone()),
                save: true,
            }
        },
        _ => PresetSettingsUpdate { selected_preset: selected, forget_collapsed: None, save: false },
    }
}

/// The IR the standalone application loads on start: the preset's own, else
/// the first available one.
pub fn initial_ir(preset_ir: Option<String>, available: &Vec<String>) -> (r: Option<String>)
    ensures
        opt_text(r) == if preset_ir is Some {
            opt_text(preset_ir)
        } else if available@.len() > 0 {
            Some(available@[0]@)
        } else {
            None
        },
{
    match preset_ir {
        Some(n) => Some(n),
        None => if available.len() > 0 {
            Some(available[0].clone())
        } else {
            None
        },
    }
}

/// A message to the standalone editor, by what its persistence reads.
#[derive(Debug, Clone, Copy, PartialEq, Eq, Structural)]
pub enum AppMessageKind {
    AddStage,
    RemoveStage,
    MoveStageUp,
    MoveStageDown,
    ToggleStageCollapse,
    ToggleAllStagesCollapse,
    IrBypassed(bool),
    HotkeyConfirmMapping,
    HotkeyRemoveMapping,
    KeyPressed,
    Other,
}

/// What the standalone editor stores after handling a message.
#[derive(Debug, Clone, Copy, PartialEq, Eq, Structural)]
pub struct AppPersistence {
    /// The message is dropped unhandled: a key press while a dialog is open.
    pub ignored: bool,
    /// Store the current preset's collapsed-stage flags.
    pub collapse: bool,
    /// Store the cabinet's bypass flag, and save the settings.
    pub ir_bypassed: Option<bool>,
    /// Store the hotkey mappings, and save the settings.
    pub hotkeys: bool,
}

/// Key presses are dropped while a dialog is open; changes to the stage
/// list or its collapse flags store the collapse flags; a cabinet bypass
/// stores the flag; confirming or removing a hotkey mapping stores the
/// mappings.
pub open spec fn spec_app_persistence(kind: AppMessageKind, dialog_visible: bool) -> AppPersistence {
    if kind == AppMessageKind::KeyPressed && dialog_visible {
        AppPersistence { ignored: true, collapse: false, ir_bypassed: None, hotkeys: false }
    } else {
        AppPersistence {
            ignored: false,
            collapse: match kind {
                AppMessageKind::AddStage | AppMessageKind::RemoveStage | AppMessageKind::MoveStageUp
                | AppMessageKind::MoveStageDown | AppMessageKind::ToggleStageCollapse
                | AppMessageKind::ToggleAllStagesCollapse => true,
                _ => false,
            },
            ir_bypassed: match kind {
                AppMessageKind::IrBypassed(b) => Some(b),
                _ => None,
            },
            hotkeys: kind == AppMessageKind::HotkeyConfirmMapping || kind
                == AppMessageKind::HotkeyRemoveMapping,
        }
    }
}

pub fn plan_app_persistence(kind: AppMessageKind, dialog_visible: bool) -> (r: AppPersistence)
    ensures
        r == spec_app_persistence(kind, dialog_visible),
{
    if dialog_visible && matches!(kind, AppMessageKind::KeyPressed) {
        return AppPersistence { ignored: true, collapse: false, ir_bypassed: None, hotkeys: false };
    }
    let collapse = match kind {
        AppMessageKind::AddStage | AppMessageKind::RemoveStage | AppMessageKind::MoveStageUp
        | AppMessageKind::MoveStageDown | AppMessageKind::ToggleStageCollapse
        | AppMessageKind::ToggleAllStagesCollapse => true,
        _ => false,
    };
    let ir_bypassed = match kind {
        AppMessageKind::IrBypassed(b) => Some(b),
        _ => None,
    };
    let hotkeys = match kind {
        AppMessageKind::HotkeyConfirmMapping | AppMessageKind::HotkeyRemoveMapping => true,
        _ => false,
    };
    AppPersistence { ignored: false, collapse, ir_bypassed, hotkeys }
}

} // verus!
