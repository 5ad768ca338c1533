//! The capability that stores an image and answers with its reference.

pub mod mock;
pub mod service;

pub use crate::image_service::service::Image;
pub use crate::image_service::service::ImageService;
