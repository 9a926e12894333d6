//! Parsing and rendering of zjstatus format strings: inline style
//! directives (`#[fg=..,bold]text`), color specifications, widget
//! placeholders and the cache masks that decide when a part is re-rendered.
pub mod text;
pub mod text_map;
pub mod palette;
pub mod numbers;
pub mod color;
pub mod mask;
pub mod style;
pub mod part;
pub mod laws;
