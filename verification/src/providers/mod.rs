pub mod openai_compat;
pub mod sse;
