//! The physics of a small arcade game, in whole numbers: balls that move
//! inside an arena, bounce off blocks, paddle and walls, and are kept from
//! stalling or running away.
//!
//! Every length, coordinate and speed is an `i64` that counts millionths of
//! a world unit (`fixed::ONE` of them to the unit); every angle counts
//! millionths of a radian; a direction or a rotation holds cosine and sine
//! in millionths. Where a result would leave the range of `i64` it stops at
//! the end of the range. Quotients are rounded toward zero and square roots
//! down.
//!
//! Random numbers come in as 32-bit draws. Each function that draws has a
//! twin, named `.._with`, that takes the draws as arguments and whose result
//! is a function of its arguments alone.

pub mod ball;
pub mod block;
pub mod bounce;
pub mod common;
pub mod containment;
pub mod detector;
pub mod fixed;
pub mod liveness;
pub mod paddle;
pub mod random;
pub mod resolver;
pub mod rotation;
pub mod systems;
pub mod vector;
pub mod world;
