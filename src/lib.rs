//! Design-token transformation: a token tree is flattened into
//! (path, value) entries and rendered as JSON, a typed module constant,
//! CSS custom properties and SCSS variables.

pub mod flatten;
pub mod json;
pub mod naming;
pub mod paths;
pub mod render;
pub mod token;
pub mod transform;

pub use flatten::{convert_to_flat_list, decimal, flatten, FlatTokenListItem};
pub use json::{process_json, process_ts};
pub use naming::{is_index, to_identifier, variable_name};
pub use render::{process_css, process_scss};
pub use token::Token;
pub use transform::{
    requested_transforms, transform_to_css_variables, transform_to_json,
    transform_to_scss_variables, transform_to_typescript, Process, Transform, UnsupportedFormat,
};
