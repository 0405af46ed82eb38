pub mod category;
pub mod category_id_generator;
pub mod category_id_tracker;
pub mod category_id_tracker_io;
pub mod category_io;
pub mod category_reader;
pub mod category_validator;
pub mod id_tracker;
pub mod in_memory_category;
pub mod source_category;
pub mod tree_builder;
pub mod validations;
