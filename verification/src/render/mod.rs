pub mod view_type;
