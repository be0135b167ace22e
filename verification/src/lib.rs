pub mod text;
pub mod node;
pub mod favicon;
pub mod fetch;
pub mod ua_dat;
pub mod settings;
pub mod view;
pub mod recent;
pub mod dups;
pub mod props;
