//! Output back-ends: HTML and the LLM-oriented plain form.
pub mod html;
pub mod llm;
