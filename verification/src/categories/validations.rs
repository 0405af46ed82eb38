pub mod id_tracking_validation;
pub mod selectable_as_last_validation;
