//! The core of a character roller: six ability scores, thrown with dice or
//! set back to a baseline.
//!
//! * [`dice`] is the arithmetic: four dice, the lowest set aside, the rest
//!   added up.
//! * [`source`] is where dice come from: the thread's random number generator,
//!   or a script of faces fixed in advance.
//! * [`roller`] throws dice from a source for one score or for all six.
//! * [`character`] is the state machine that a user interface drives.
//! * [`display`] is what the core tells a user interface to show.
//!
//! ```
//! use character_roller::character::{Character, Message};
//! use character_roller::source::ThreadDice;
//!
//! let mut dice = ThreadDice::new();
//! let mut character = Character::new();
//! assert_eq!(character.scores(), [10; 6]);
//!
//! character.update(Message::Roll, &mut dice).unwrap();
//! assert!(character.scores().iter().all(|score| (3..=18).contains(score)));
//!
//! character.update(Message::Reset, &mut dice).unwrap();
//! assert_eq!(character.scores(), [10; 6]);
//! ```

pub mod dice;
pub mod source;
pub mod roller;
pub mod character;
pub mod display;
