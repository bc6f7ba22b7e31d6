pub mod intel;
pub mod wh;
pub mod travel;
pub mod price;
pub mod system;
