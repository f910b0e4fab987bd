//! Shared building blocks for mahjong rule engines: tiles and seats, the containers of one hand,
//! the context that combines them, a general state machine, and the engine that runs phases
//! and actions on it.
#![allow(unused_imports)]

pub mod bits;
pub mod context;
pub mod discard;
pub mod engine;
pub mod hand;
pub mod machine;
pub mod meld;
pub mod melds;
pub mod river;
pub mod seat;
pub mod seed;
pub mod tile;
pub mod wall;
pub mod wildcard;

pub use context::{Context, ContextError, JoinError, SeatContext, Variant};
pub use discard::Discard;
pub use hand::{Hand, HandDiscard, HandError};
pub use meld::{AddedKongMeld, ChowMeld, ClaimedKongMeld, ConcealedKongMeld, Meld, MeldKind, PongMeld};
pub use melds::{Melds, MeldsError};
pub use river::{DiscardId, River, RiverError};
pub use seat::{EastSeat, Seat, SeatMap, SeatMask, Wind};
pub use seed::Seed;
pub use tile::{Tile, TileCounts, TileMask};
pub use wall::{Wall, WallError};
pub use wildcard::Wildcard;
