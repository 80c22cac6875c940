//! What a parsed message holds: the dice expression of a table, the roll
//! that one table shows, and the rolls of a whole message.

use vstd::prelude::*;

verus! {

/// The machine numbers of `s` as natural numbers.
pub open spec fn as_nats(s: Seq<usize>) -> Seq<nat> {
    Seq::new(s.len(), |i: int| s[i] as nat)
}

/// The model of a [`DiceExpression`].
pub struct DiceExpressionView {
    pub count: nat,
    pub faces: nat,
    pub modifier: int,
}

impl DiceExpressionView {
    /// There is at least one die, and it has at least one face.
    pub open spec fn wf(self) -> bool {
        self.count >= 1 && self.faces >= 1
    }
}

/// The header line of a table: how many dice, of how many faces, and what is
/// added to their sum.
#[derive(Clone, Copy, Debug, PartialEq, Eq)]
pub struct DiceExpression {
    /// Number of dice.
    pub count: usize,
    /// Faces of each die.
    pub faces: usize,
    /// Added to the sum; zero where the expression names none.
    pub modifier: isize,
}

impl View for DiceExpression {
    type V = DiceExpressionView;

    open spec fn view(&self) -> DiceExpressionView {
        DiceExpressionView {
            count: self.count as nat,
            faces: self.faces as nat,
            modifier: self.modifier as int,
        }
    }
}

/// The model of a [`DiceRollInstance`].
pub struct DiceRollInstanceView {
    pub number_of_dice: nat,
    pub size_of_dice: nat,
    pub modifier: int,
    pub dice_rolls: Seq<nat>,
    pub total: nat,
}

impl DiceRollInstanceView {
    /// There is at least one die, and it has at least one face.
    pub open spec fn wf(self) -> bool {
        self.number_of_dice >= 1 && self.size_of_dice >= 1
    }
}

/// One table: the dice that were asked for, the faces that came up and the
/// sum as the table shows it.
#[derive(Clone, Debug, PartialEq, Eq)]
pub struct DiceRollInstance {
    /// Number of dice that the expression declares.
    pub number_of_dice: usize,
    /// Faces of each die.
    pub size_of_dice: usize,
    /// Added to the sum; zero where the expression names none.
    pub modifier: isize,
    /// The faces that came up, in the order of the table.
    pub dice_rolls: Vec<usize>,
    /// The sum as the table shows it.
    pub total: usize,
}

impl View for DiceRollInstance {
    type V = DiceRollInstanceView;

    open spec fn view(&self) -> DiceRollInstanceView {
        DiceRollInstanceView {
            number_of_dice: self.number_of_dice as nat,
            size_of_dice: self.size_of_dice as nat,
            modifier: self.modifier as int,
            dice_rolls: as_nats(self.dice_rolls@),
            total: self.total as nat,
        }
    }
}

/// The models of the rolls in `s`.
pub open spec fn roll_views(s: Seq<DiceRollInstance>) -> Seq<DiceRollInstanceView> {
    Seq::new(s.len(), |i: int| s[i]@)
}

/// The rolls of one message, in the order of its tables.
#[derive(Clone, Debug, PartialEq, Eq)]
pub struct DiceRollRequest {
    /// One entry for each table.
    pub rolls: Vec<DiceRollInstance>,
}

impl View for DiceRollRequest {
    type V = Seq<DiceRollInstanceView>;

    open spec fn view(&self) -> Seq<DiceRollInstanceView> {
        roll_views(self.rolls@)
    }
}

} // verus!
