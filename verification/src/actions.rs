//! Actions a trigger can carry, executed by the trigger/action resolver.

use crate::components::GridPosition;
use crate::constants::CELL_SUBUNITS;
use crate::constants::MAX_COORD;
use crate::ui::DialogBoxConf;
use vstd::prelude::*;

verus! {

/// What happens when a trigger fires.
#[derive(Clone, Debug)]
pub enum Action {
    /// Teleports the player to this position: an instantaneous cut, no
    /// animation.
    Teleport(GridPosition),
    /// Opens a modal dialog box built from this configuration.
    ShowDialog(DialogBoxConf),
    /// Appends this message to the diagnostic log.
    PrintMessage(String),
}

impl Action {
    /// A teleport target is a whole-cell position two cells inside the
    /// coordinate bound, so executing the action preserves the world's
    /// position invariants even for a player teleported mid-transit.
    pub open spec fn wf(self) -> bool {
        match self {
            Action::Teleport(p) => {
                &&& p.is_integral()
                &&& -(MAX_COORD - 2 * CELL_SUBUNITS) <= p.x <= MAX_COORD - 2 * CELL_SUBUNITS
                &&& -(MAX_COORD - 2 * CELL_SUBUNITS) <= p.y <= MAX_COORD - 2 * CELL_SUBUNITS
            },
            Action::ShowDialog(_) => true,
            Action::PrintMessage(_) => true,
        }
    }
}

} // verus!
