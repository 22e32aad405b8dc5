//! Streaming codec for the five reserved characters of HTML and XML text:
//! an entity table, a bounded inline buffer, a pull-based encoder and a
//! pull-based decoder with a strict or lenient policy for malformed input.
pub mod entity;
pub mod fix_buf;
pub mod text;
pub mod encoder;
pub mod decoder;
pub mod laws;
