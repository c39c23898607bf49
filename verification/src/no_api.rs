//! The workshop without its web interface: pages as a browser gets them.
pub mod browser;
pub mod webcache;
