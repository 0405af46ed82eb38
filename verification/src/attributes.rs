pub mod attribute;
pub mod attribute_id_generator;
pub mod attribute_id_tracker;
pub mod attribute_id_tracker_io;
pub mod attribute_tracker_io;
pub mod attribute_validator;
pub mod attribute_validator_builder;
pub mod id_tracker;
pub mod source_attribute;
pub mod validations;
