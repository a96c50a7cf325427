//! The logic of the PlayFusion cart-pack screens: profiles and their stored
//! records, the profile chooser with its on-screen keyboard, cart metadata,
//! cart ordering and the cart browser. Drawing, files and controller input
//! are the program's; this library decides what they show and do.
use vstd::prelude::*;

pub mod browser;
pub mod cart;
pub mod input;
pub mod name;
pub mod profile;
pub mod profile_menu;
pub mod text;
