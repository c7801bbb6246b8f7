//! Request and response shapes of the service routes.

pub mod add_user_to_service;
pub mod get_service;
pub mod get_service_bookingslots;
pub mod remove_user_from_service;
pub mod update_service_user;
