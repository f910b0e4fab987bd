//! Setup actions run before play: shuffling and picking the dealer.

use vstd::prelude::*;

pub mod dealer;
pub mod random;
pub mod shuffle;

pub use dealer::{dealer_for_dice, dice_dealer, next_joined_ccw, walk_joined_ccw, DealerDetermined, DetermineDealer};
pub use shuffle::{Shuffle, Shuffled};
