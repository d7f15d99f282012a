pub mod clock;
pub mod ids;
pub mod like;
pub mod response;
pub mod store;
pub mod tweet;
