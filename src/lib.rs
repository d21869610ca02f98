pub mod features;
pub mod filter;
pub mod lookup;
pub mod matrix;
pub mod normalize;
pub mod numeric;
pub mod rank;
pub mod recommend;
pub mod song;
