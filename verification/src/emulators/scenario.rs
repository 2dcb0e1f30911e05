//! The scenarios a simulated thermometer can follow.

use vstd::prelude::*;

verus! {

/// How the simulated temperature evolves per step.
#[derive(Debug, Clone, Copy, PartialEq, Eq, Structural)]
pub enum EmulationScenario {
    /// Small wavering around the current value.
    Normal,
    /// A fast rise.
    Fire,
    /// A fast fall.
    Freeze,
    /// Wide swings.
    Fluctuate,
}

/// The label each scenario describes itself with.
pub open spec fn scenario_text(s: EmulationScenario) -> Seq<char> {
    match s {
        EmulationScenario::Normal => "🌡️ Нормальная работа"@,
        EmulationScenario::Fire => "🔥 Пожар"@,
        EmulationScenario::Freeze => "🧊 Заморозка"@,
        EmulationScenario::Fluctuate => "📈 Колебания"@,
    }
}

impl EmulationScenario {
    /// The scenario's descriptive label.
    pub fn description(&self) -> (r: String)
        ensures
            r@ == scenario_text(*self),
    {
        match self {
            EmulationScenario::Normal => String::from_str("🌡️ Нормальная работа"),
            EmulationScenario::Fire => String::from_str("🔥 Пожар"),
            EmulationScenario::Freeze => String::from_str("🧊 Заморозка"),
            EmulationScenario::Fluctuate => String::from_str("📈 Колебания"),
        }
    }
}

} // verus!
