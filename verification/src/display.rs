//! What the core tells a user interface to show: the window's title, the
//! names of the abilities, and the two buttons with their labels and styles.
//! How any of it is drawn is up to the user interface.

use vstd::prelude::*;
use crate::character::{Ability, Character, Message};

verus! {

/// The style in which a button is drawn.
#[derive(Debug, Clone, Copy, PartialEq, Eq)]
pub enum Button {
    /// The button for what a user most often wants.
    Primary,
    /// A button of less weight.
    Secondary,
    /// A button that destroys something.
    Destructive,
}

impl Ability {
    /// The short name under which the ability is shown.
    pub open spec fn label_text(self) -> Seq<char> {
        match self {
            Ability::Strength => "Str"@,
            Ability::Dexterity => "Dex"@,
            Ability::Constitution => "Con"@,
            Ability::Intelligence => "Int"@,
            Ability::Wisdom => "Wis"@,
            Ability::Charisma => "Cha"@,
        }
    }

    /// The short name under which the ability is shown.
    pub fn label(self) -> (label: &'static str)
        ensures
            label@ == self.label_text(),
    {
        match self {
            Ability::Strength => "Str",
            Ability::Dexterity => "Dex",
            Ability::Constitution => "Con",
            Ability::Intelligence => "Int",
            Ability::Wisdom => "Wis",
            Ability::Charisma => "Cha",
        }
    }
}

impl Message {
    /// The text on the button that sends this command.
    pub open spec fn label_text(self) -> Seq<char> {
        match self {
            Message::Roll => "Roll"@,
            Message::Reset => "Reset"@,
        }
    }

    /// The text on the button that sends this command.
    pub fn label(self) -> (label: &'static str)
        ensures
            label@ == self.label_text(),
    {
        match self {
            Message::Roll => "Roll",
            Message::Reset => "Reset",
        }
    }

    /// The style of the button that sends this command: rolling is what the
    /// window is for, resetting comes second.
    pub fn button(self) -> (style: Button)
        ensures
            style == (match self {
                Message::Roll => Button::Primary,
                Message::Reset => Button::Secondary,
            }),
    {
        match self {
            Message::Roll => Button::Primary,
            Message::Reset => Button::Secondary,
        }
    }
}

impl Character {
    /// The title of the window that shows the character.
    pub fn title(&self) -> (title: String)
        ensures
            title@ == "Character Roller"@,
    {
        "Character Roller".to_owned()
    }
}

/// The commands that get a button, in the order of the buttons.
pub fn controls() -> (messages: [Message; 2])
    ensures
        messages@ == seq![Message::Roll, Message::Reset],
{
    let messages = [Message::Roll, Message::Reset];
    messages
}

} // verus!
