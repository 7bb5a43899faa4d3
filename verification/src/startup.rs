//! What the application does at start-up and on each reminder tick, as
//! decisions over the settings; the windows themselves are opened by the shell.
use vstd::prelude::*;
use crate::config::ConfigStore;
use crate::orchestrator::TickAction;

verus! {

/// What becomes of the Quran window on a tick.
#[derive(Clone, Copy, Debug, PartialEq, Eq, Structural)]
pub enum QuranStep {
    Keep,
    Show,
    Hide,
}

/// The window operations of a tick: whether the hadith window is shown, and
/// what becomes of the Quran window.
#[derive(Clone, Copy, Debug, PartialEq, Eq, Structural)]
pub struct TickEffects {
    pub show_hadith: bool,
    pub quran: QuranStep,
}

pub open spec fn effects_of(action: TickAction) -> TickEffects {
    match action {
        TickAction::ShowHadith => TickEffects { show_hadith: true, quran: QuranStep::Keep },
        TickAction::ShowQuran => TickEffects { show_hadith: false, quran: QuranStep::Show },
        TickAction::ShowBoth => TickEffects { show_hadith: true, quran: QuranStep::Show },
        TickAction::HideQuranShowHadith => TickEffects { show_hadith: true, quran: QuranStep::Hide },
    }
}

/// The window operations that carry out a tick action.
pub fn tick_effects(action: TickAction) -> (r: TickEffects)
    ensures
        r == effects_of(action),
{
    match action {
        TickAction::ShowHadith => TickEffects { show_hadith: true, quran: QuranStep::Keep },
        TickAction::ShowQuran => TickEffects { show_hadith: false, quran: QuranStep::Show },
        TickAction::ShowBoth => TickEffects { show_hadith: true, quran: QuranStep::Show },
        TickAction::HideQuranShowHadith => TickEffects { show_hadith: true, quran: QuranStep::Hide },
    }
}

/// How start-up goes on once the settings and the data are loaded.
#[derive(Clone, Copy, Debug, PartialEq, Eq, Structural)]
pub enum StartupPlan {
    /// The hadith data is missing: report it and quit.
    MissingData,
    /// Set the start-with-session preference, then either welcome a first-time
    /// user or create the Quran window and start the reminders.
    Run { auto_launch: bool, welcome: bool },
}

/// The start-up plan for the loaded settings.
pub open spec fn startup_of(auto_launch: bool, first_run: bool, has_data: bool) -> StartupPlan {
    if !has_data {
        StartupPlan::MissingData
    } else {
        StartupPlan::Run { auto_launch, welcome: first_run }
    }
}

/// The start-up plan once the stores and the data are loaded.
pub fn startup_plan(store: &ConfigStore, has_data: bool) -> (r: StartupPlan)
    ensures
        r == startup_of(store.cfg@.auto_launch, store.cfg@.first_run, has_data),
{
    if !has_data {
        StartupPlan::MissingData
    } else {
        StartupPlan::Run { auto_launch: store.cfg.auto_launch, welcome: store.cfg.first_run }
    }
}

} // verus!
