//! Conversion of tree values into markup, and structural validation of markup
//! event streams.

pub mod event;
pub mod validate;
pub mod tree;
pub mod emit;
pub mod path;
pub mod laws;

pub use emit::{convert_json_to_xml, SerializeError};
pub use event::{xml_end_tag, xml_start_tag, Attribute, MarkupEvent};
pub use path::construct_file_path;
pub use tree::{is_number_text, key_to_element_name, serialize_events, TreeValue};
pub use validate::{check_xml_parse, validate_and_reconstruct, ValidationError};
