pub mod device_retrieval;
pub mod disclosure;
pub mod engagement;
pub mod mdocs;
pub mod session;
