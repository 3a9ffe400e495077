pub mod random;
pub mod text;
pub mod chess_types;
pub mod player;
pub mod pairing_system;
pub mod pairing;
pub mod sorting;
pub mod score_groups;
pub mod circle;
pub mod berger_table;
pub mod dutch;
pub mod tournament;
