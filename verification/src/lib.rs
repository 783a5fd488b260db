//! A terminal space-invaders game: the playing field, the alien army, the
//! player's cannon and the bullets, with their rules verified by Verus.
pub mod alien;
pub mod bullet;
pub mod frame;
pub mod game;
pub mod player;
pub mod random;
pub mod sound;
pub mod timer;
