pub mod data_type_constant_validation;
pub mod data_type_validation;
pub mod id_tracking_validation;
pub mod reserved_attribute_names_validation;
