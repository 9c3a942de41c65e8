//! Player settings: the controls of each input method, and which ones a player uses.

use vstd::prelude::*;

verus! {

/// The controls of each input method.
pub struct PlayerControlMethods<C> {
    pub gamepad: C,
    pub keyboard1: C,
    pub keyboard2: C,
}

/// The four directions of a movement binding.
pub struct VirtualDPad<I> {
    pub up: I,
    pub down: I,
    pub left: I,
    pub right: I,
}

/// One input method's bindings.
pub struct PlayerControls<I> {
    pub movement: VirtualDPad<I>,
    pub flop_attack: I,
    pub throw: I,
    pub shoot: I,
}

/// The number of cells in the controls table: seven actions, three input methods each.
pub const CONTROL_CELLS: usize = 21;

/// The binding of one action (a row of the controls table: up, down, left, right, flop
/// attack, shoot, throw).
pub open spec fn action_binding<I>(c: PlayerControls<I>, row: int) -> I {
    if row == 0 {
        c.movement.up
    } else if row == 1 {
        c.movement.down
    } else if row == 2 {
        c.movement.left
    } else if row == 3 {
        c.movement.right
    } else if row == 4 {
        c.flop_attack
    } else if row == 5 {
        c.shoot
    } else {
        c.throw
    }
}

/// The binding shown in cell `idx` of the controls table: row `idx / 3` is the action,
/// column `idx % 3` the input method (first keyboard, second keyboard, gamepad).
pub open spec fn control_cell<I>(m: PlayerControlMethods<PlayerControls<I>>, idx: int) -> I {
    let c = if idx % 3 == 0 {
        m.keyboard1
    } else if idx % 3 == 1 {
        m.keyboard2
    } else {
        m.gamepad
    };
    action_binding(c, idx / 3)
}

/// Binds `input` to the action of row `row` of one input method's controls.
fn bind_action<I>(c: &mut PlayerControls<I>, row: usize, input: I)
    requires
        row < 7,
    ensures
        action_binding(*final(c), row as int) == input,
        forall|r: int| 0 <= r < 7 && r != row ==> action_binding(*final(c), r) == action_binding(*old(c), r),
{
    if row == 0 {
        c.movement.up = input;
    } else if row == 1 {
        c.movement.down = input;
    } else if row == 2 {
        c.movement.left = input;
    } else if row == 3 {
        c.movement.right = input;
    } else if row == 4 {
        c.flop_attack = input;
    } else if row == 5 {
        c.shoot = input;
    } else {
        c.throw = input;
    }
}

/// Binds the input pressed while cell `idx` of the controls table was waiting for one:
/// that cell now shows `input` and every other cell keeps its binding.
pub fn bind_control<I>(controls: &mut PlayerControlMethods<PlayerControls<I>>, idx: usize, input: I)
    requires
        idx < CONTROL_CELLS,
    ensures
        control_cell(*final(controls), idx as int) == input,
        forall|j: int| 0 <= j < CONTROL_CELLS && j != idx ==> control_cell(*final(controls), j) == control_cell(*old(controls), j),
{
    let row = idx / 3;
    let col = idx % 3;
    if col == 0 {
        bind_action(&mut controls.keyboard1, row, input);
    } else if col == 1 {
        bind_action(&mut controls.keyboard2, row, input);
    } else {
        bind_action(&mut controls.gamepad, row, input);
    }
    assert forall|j: int| 0 <= j < CONTROL_CELLS && j != idx implies control_cell(*final(controls), j) == control_cell(*old(controls), j) by {
        assert(0 <= j / 3 < 7);
    }
}

/// The global settings.
pub struct Settings<C> {
    pub player_controls: PlayerControlMethods<C>,
}

/// The key the settings are stored under.
pub const SETTINGS_STORAGE_KEY: &'static str = "settings";

impl<C> PlayerControlMethods<C> {
    /// The controls bound for player `player_idx`: every player has the gamepad controls
    /// (on the player's own gamepad); the first player also has the first keyboard layout
    /// and the second player the second.
    pub fn get_controls(&self, player_idx: usize) -> (ctrls: Vec<&C>)
        ensures
            player_idx == 0 ==> ctrls@ == seq![&self.gamepad, &self.keyboard1],
            player_idx == 1 ==> ctrls@ == seq![&self.gamepad, &self.keyboard2],
            player_idx > 1 ==> ctrls@ == seq![&self.gamepad],
    {
        let mut ctrls: Vec<&C> = Vec::new();
        ctrls.push(&self.gamepad);
        if player_idx == 0 {
            ctrls.push(&self.keyboard1);
        } else if player_idx == 1 {
            ctrls.push(&self.keyboard2);
        }
        assert(player_idx == 0 ==> ctrls@ =~= seq![&self.gamepad, &self.keyboard1]);
        assert(player_idx == 1 ==> ctrls@ =~= seq![&self.gamepad, &self.keyboard2]);
        assert(player_idx > 1 ==> ctrls@ =~= seq![&self.gamepad]);
        ctrls
    }
}

/// The settings in use: the stored ones, or else the game's defaults.
pub fn settings_in_use<'a, S>(stored: Option<&'a S>, default: &'a S) -> (s: &'a S)
    ensures
        s == match stored {
            Some(x) => x,
            None => default,
        },
{
    match stored {
        Some(x) => x,
        None => default,
    }
}

} // verus!
