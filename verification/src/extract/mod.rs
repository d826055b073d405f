pub mod db;
pub mod model;
