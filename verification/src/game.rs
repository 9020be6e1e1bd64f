pub mod roller;
