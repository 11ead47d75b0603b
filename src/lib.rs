use vstd::prelude::*;

pub mod auth;
pub mod database;
pub mod frontend;
pub mod members;
pub mod outside;
pub mod pagination;
pub mod rooms;
pub mod stream;
pub mod text;
pub mod users;
