//! The autonomous behaviour layer of a small walking robot, minus the sockets.
//!
//! Three plain data transforms: senses ([`world`]), drives ([`drives`]), and the arbiter over
//! scored behaviours ([`arbiter`], [`behaviours`], [`active`]). The daemon feeds them from the
//! wire and the tests feed them by hand. Beside them stand what the robot remembers of a maze
//! ([`maze`], [`mission`]) and of a room ([`room`], [`frontier`]), what is sent for a decision
//! ([`daemon`]), events on a bench ([`bench`]), and the conversation with a simulated robot
//! ([`plant`]).
//!
//! Lengths, angles, speeds and times are whole billionths of a metre, a radian, a metre per
//! second and a second ([`units`]). What needs a sine, a cosine or an arctangent takes it as
//! an argument.
//!
//! What holds of every run is stated as `law_` functions: of the maze in [`exploration`] and of
//! its picture in [`picture`], of the behaviours and the arbiter in [`conduct`] and over whole
//! runs in [`runs`], of the rest beside what they are about. What each part is for is stated so
//! too: who gets the floor and who has it ([`deciding`], [`bidding`], [`yielding`]), what a
//! behaviour does and where it walks ([`manners`], [`steering`], [`wayfinding`]), how a mission
//! plans and finds its way ([`planning`], [`questing`]), what is sensed and mapped ([`sensing`],
//! [`mapping`]), and what is sent, written and drawn ([`sending`], [`figures`], [`drawing`]).

pub mod active;
pub mod arbiter;
pub mod behaviours;
pub mod bench;
pub mod bidding;
pub mod conduct;
pub mod daemon;
pub mod deciding;
pub mod dice;
pub mod double;
pub mod drawing;
pub mod drives;
pub mod exploration;
pub mod extent;
pub mod figures;
pub mod frontier;
pub mod heading;
pub mod manners;
pub mod mapping;
pub mod maze;
pub mod maze_draw;
pub mod mission;
pub mod picture;
pub mod planning;
pub mod plant;
pub mod proto;
pub mod questing;
pub mod room;
pub mod room_draw;
pub mod runs;
pub mod sending;
pub mod sensing;
pub mod sparse;
pub mod steering;
pub mod text;
pub mod tof;
pub mod units;
pub mod wayfinding;
pub mod world;
pub mod yielding;

pub use crate::active::{Active, Step};
pub use crate::arbiter::{Arbiter, Decision, Status};
pub use crate::behaviours::{Intents, Kind, Limits};
pub use crate::drives::Drives;
pub use crate::world::{Mode, Obstacles, World};
