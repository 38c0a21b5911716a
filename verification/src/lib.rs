pub mod aggregates;
pub mod catalog;
pub mod damage;
pub mod errors;
pub mod event;
pub mod heal;
pub mod item;
pub mod minecraft;
pub mod player;
pub mod raw;
pub mod report;
pub mod team;
pub mod settings;
pub mod order;
pub mod text;
