pub mod clock;
pub mod encode;
pub mod model;
pub mod paths;
pub mod resolve;
pub mod text;
pub mod title;
