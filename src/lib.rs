//! A turn-based combat simulation kernel: a bounded grid map, greedy
//! movement toward the nearest opponent, turns, rounds, and the analysis of
//! a finished battle, with the shapes in which battles are requested and
//! reported. Beside it stand the types of a simpler skill-based combat
//! model: skill points, skills, damage amounts, weapons and players.

pub mod point;
pub mod combatant;
pub mod err;
pub mod battle_map;
pub mod movement;
pub mod actions;
pub mod turn;
pub mod engine;
pub mod result;
pub mod skill_point;
pub mod skills;
pub mod weapons;
pub mod player;
pub mod hit_damage;
pub mod contracts;
pub mod battlefield;
