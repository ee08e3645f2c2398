//! A raycasting renderer for grid mazes, in fixed-point arithmetic.
//!
//! The maze is a grid of square cells. A frame shows it from the player's eyes:
//! for every column of the surface a ray is cast through the maze, and what it
//! hits is drawn as a strip of a wall's image, the taller the nearer. Over the
//! walls come the collectibles as flat squares that face the player, and over
//! everything a small map of the maze.
//!
//! Coordinates, lengths and angles are integers that count 1/65536ths of a unit
//! (see `fixed`). The renderer evaluates no sine, cosine or arc tangent: the
//! directions of the rays and the bearings of the collectibles are handed to it
//! (see `render`).

pub mod fixed;
pub mod framebuffer;
pub mod map;
pub mod player;
pub mod raycaster;
pub mod textures;
pub mod walls;
pub mod sprites;
pub mod line;
pub mod minimap;
pub mod render;
pub mod enemy;
pub mod game;
pub mod config;
pub mod screen;
