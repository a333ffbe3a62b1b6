//! Positional file I/O over a completion-queue driver.
//!
//! The driver's slot table owns every in-flight request together with its
//! buffers until the kernel's completion for it has been delivered, so that a
//! caller that stops waiting can never get back memory the kernel may still
//! touch. Files are built on reference-counted descriptor handles and on retry
//! machines for exact reads and full writes.
pub mod buf;
pub mod fd;
pub mod driver;
pub mod file;
