//! Marker and message types of the game's entities and resources.

use vstd::prelude::*;

verus! {

/// A simulated player.
#[derive(Debug, Clone, Copy, PartialEq, Eq)]
pub struct Player;

/// The arena's background.
#[derive(Debug, Clone, Copy, PartialEq, Eq)]
pub struct MapSprite;

/// The ranking display.
#[derive(Debug, Clone, Copy, PartialEq, Eq)]
pub struct RankUi;

/// Part of the home screen.
#[derive(Debug, Clone, Copy, PartialEq, Eq)]
pub struct MainUi;

/// The parent of the rows of the roster editor.
#[derive(Debug, Clone, Copy, PartialEq, Eq)]
pub struct TypeParent;

/// Part of the roster editor.
#[derive(Debug, Clone, Copy, PartialEq, Eq)]
pub struct CustomUi;

/// The remove button of a roster row.
#[derive(Debug, Clone, Copy, PartialEq, Eq)]
pub struct RemoveIcon;

/// The icon of the type with the given number in the roster editor.
#[derive(Debug, Clone, Copy, PartialEq, Eq)]
pub struct CustomIcon(pub i32);

/// The count field of the type with the given number in the roster editor.
#[derive(Debug, Clone, Copy, PartialEq, Eq)]
pub struct CustomNum(pub i32);

/// A request to remove the type with the given number from the roster.
#[derive(Debug, Clone, Copy, PartialEq, Eq)]
pub struct RemoveType(pub i32);

/// Which tab of the roster editor is open: `false` for the types, `true`
/// for the other one.
#[derive(Debug, Clone, Copy, PartialEq, Eq)]
pub struct CustomSelect(pub bool);

/// The bytes of an image file that the user picked for the type with the
/// given number.
#[derive(Debug)]
pub struct ReadImage(pub i32, pub Vec<u8>);

} // verus!
