//! Enumerations of the application: inputs, light pollution presets, game
//! stages, storage keys, screen widths and renderer categories.

use vstd::prelude::*;

verus! {

/// Input combinations that the application reacts to.
#[derive(Clone, Copy, PartialEq, Eq, Structural, Debug)]
pub enum Inputs {
    AltShiftI,
    AltShiftO,
    AltShiftS,
    MouseMiddle,
    Space,
}

/// A named light pollution preset for star rendering.
#[derive(Clone, Copy, PartialEq, Eq, Structural, Hash, Debug)]
pub enum LightPollution {
    Default,
    NoSpecific,
    Prague,
    PragueDark,
    AverageVillage,
}

impl LightPollution {
    /// The text under which the preset is shown to the user.
    pub open spec fn spec_label(self) -> Seq<char> {
        match self {
            LightPollution::Default => "Default"@,
            LightPollution::NoSpecific => "No specific"@,
            LightPollution::Prague => "Prague"@,
            LightPollution::PragueDark => "Prague (dark place)"@,
            LightPollution::AverageVillage => "Village"@,
        }
    }

    /// The text shown for the preset, as the application displays it.
    pub fn label(&self) -> (res: &'static str)
        ensures
            res@ == self.spec_label(),
    {
        match *self {
            LightPollution::Default => "Default",
            LightPollution::NoSpecific => "No specific",
            LightPollution::Prague => "Prague",
            LightPollution::PragueDark => "Prague (dark place)",
            LightPollution::AverageVillage => "Village",
        }
    }

    pub open spec fn spec_explanation(self) -> Seq<char> {
        match self {
            LightPollution::Default => "The default settings"@,
            LightPollution::NoSpecific => "No specific settings, set by the user"@,
            LightPollution::Prague => "Looking from a normal place in Prague"@,
            LightPollution::PragueDark => "Looking from a reasonably dark (compared to the rest) place in Prague"@,
            LightPollution::AverageVillage => "Looking from an average village"@,
        }
    }

    /// A longer explanation of where the preset applies.
    pub fn explanation(&self) -> (res: &'static str)
        ensures
            res@ == self.spec_explanation(),
    {
        match *self {
            LightPollution::Default => "The default settings",
            LightPollution::NoSpecific => "No specific settings, set by the user",
            LightPollution::Prague => "Looking from a normal place in Prague",
            LightPollution::PragueDark => "Looking from a reasonably dark (compared to the rest) place in Prague",
            LightPollution::AverageVillage => "Looking from an average village",
        }
    }

    /// All presets, in the order in which they are offered to the user.
    pub fn variants() -> (res: [LightPollution; 5])
        ensures
            res@ == seq![
                LightPollution::NoSpecific,
                LightPollution::Default,
                LightPollution::Prague,
                LightPollution::PragueDark,
                LightPollution::AverageVillage,
            ],
    {
        let res = [
            LightPollution::NoSpecific,
            LightPollution::Default,
            LightPollution::Prague,
            LightPollution::PragueDark,
            LightPollution::AverageVillage,
        ];
        assert(res@ =~= seq![
            LightPollution::NoSpecific,
            LightPollution::Default,
            LightPollution::Prague,
            LightPollution::PragueDark,
            LightPollution::AverageVillage,
        ]);
        res
    }
}

/// The stages of a game round.
#[derive(Clone, Copy, PartialEq, Eq, Structural, Debug)]
pub enum GameStage {
    Guessing,
    Checked,
    NotStartedYet,
    NoMoreQuestions,
    ScoredModeFinished,
}

/// The keys under which the application stores its state.
#[derive(Clone, Copy, PartialEq, Eq, Structural, Debug)]
pub enum StorageKeys {
    TimeSpent,
    DeepskyFilesToNotRender,
    LineFilesToNotRender,
    MarkerFilesToNotRender,
    StarFilesToNotRender,
    StarNamesFilesToNotUse,
    GameInactiveConstellations,
    GameGroupActiveConstellellations,
    GameInactiveConstellationGroups,
    GameSettings,
    GameQuestionSettings,
    SkySettings,
    Theme,
    GraphicsSettings,
    ActiveQuestionPack,
    QuestionPackQuery,
    QuestionPackDescription,
    QuestionPacks,
    InputSettings,
}

impl StorageKeys {
    pub open spec fn spec_key(self) -> Seq<char> {
        match self {
            StorageKeys::TimeSpent => "time_spent"@,
            StorageKeys::DeepskyFilesToNotRender => "deepsky_files_to_not_render"@,
            StorageKeys::LineFilesToNotRender => "line_files_to_not_render"@,
            StorageKeys::MarkerFilesToNotRender => "marker_files_to_not_render"@,
            StorageKeys::StarFilesToNotRender => "star_files_to_not_render"@,
            StorageKeys::StarNamesFilesToNotUse => "star_names_files_to_not_use"@,
            StorageKeys::GameInactiveConstellations => "game_inactive_constellations"@,
            StorageKeys::GameGroupActiveConstellellations => "game_group_active_constellations"@,
            StorageKeys::GameInactiveConstellationGroups => "game_inactive_constellations_groups"@,
            StorageKeys::GameSettings => "game_settings"@,
            StorageKeys::GameQuestionSettings => "game_question_settings"@,
            StorageKeys::SkySettings => "sky_settings"@,
            StorageKeys::Theme => "theme"@,
            StorageKeys::GraphicsSettings => "graphics_settings"@,
            StorageKeys::ActiveQuestionPack => "active_question_pack"@,
            StorageKeys::QuestionPackQuery => "question_pack_query"@,
            StorageKeys::QuestionPackDescription => "question_pack_description"@,
            StorageKeys::QuestionPacks => "question_packs"@,
            StorageKeys::InputSettings => "input_settings"@,
        }
    }

    /// The storage key, which is also the text the key displays.
    pub fn as_ref(&self) -> (res: &'static str)
        ensures
            res@ == self.spec_key(),
    {
        match *self {
            StorageKeys::TimeSpent => "time_spent",
            StorageKeys::DeepskyFilesToNotRender => "deepsky_files_to_not_render",
            StorageKeys::LineFilesToNotRender => "line_files_to_not_render",
            StorageKeys::MarkerFilesToNotRender => "marker_files_to_not_render",
            StorageKeys::StarFilesToNotRender => "star_files_to_not_render",
            StorageKeys::StarNamesFilesToNotUse => "star_names_files_to_not_use",
            StorageKeys::GameInactiveConstellations => "game_inactive_constellations",
            StorageKeys::GameGroupActiveConstellellations => "game_group_active_constellations",
            StorageKeys::GameInactiveConstellationGroups => "game_inactive_constellations_groups",
            StorageKeys::GameSettings => "game_settings",
            StorageKeys::GameQuestionSettings => "game_question_settings",
            StorageKeys::SkySettings => "sky_settings",
            StorageKeys::Theme => "theme",
            StorageKeys::GraphicsSettings => "graphics_settings",
            StorageKeys::ActiveQuestionPack => "active_question_pack",
            StorageKeys::QuestionPackQuery => "question_pack_query",
            StorageKeys::QuestionPackDescription => "question_pack_description",
            StorageKeys::QuestionPacks => "question_packs",
            StorageKeys::InputSettings => "input_settings",
        }
    }
}

/// How much horizontal room the window has.
#[derive(Clone, Copy, PartialEq, Eq, Structural, Debug)]
pub enum ScreenWidth {
    Normal,
    Narrow,
    VeryNarrow,
}

impl ScreenWidth {
    /// Whether the layout should be the narrow one: true for `Narrow` and
    /// `VeryNarrow`.
    pub fn narrow(&self) -> (r: bool)
        ensures
            r == (*self != ScreenWidth::Normal),
    {
        match *self {
            ScreenWidth::Normal => false,
            ScreenWidth::Narrow | ScreenWidth::VeryNarrow => true,
        }
    }

    /// Whether the layout should be the narrowest one: true for `VeryNarrow` only.
    pub fn very_narrow(&self) -> (r: bool)
        ensures
            r == (*self == ScreenWidth::VeryNarrow),
    {
        match *self {
            ScreenWidth::Normal | ScreenWidth::Narrow => false,
            ScreenWidth::VeryNarrow => true,
        }
    }
}

/// The groups of sky objects that are drawn separately.
#[derive(Clone, Copy, PartialEq, Eq, Structural, Debug)]
pub enum RendererCategory {
    Stars,
    Lines,
    Deepskies,
    Markers,
}

} // verus!
