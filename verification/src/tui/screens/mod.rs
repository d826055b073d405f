pub mod plan;
pub mod rank;
pub mod saves;
pub mod settings;
pub mod solve;
