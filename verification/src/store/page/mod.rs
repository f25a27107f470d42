pub mod rwa_lock;
