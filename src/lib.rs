//! Bulk personalised text messages: reading recipients, normalising phone
//! numbers, filling a message template and building the automation script
//! that hands one message to the desktop messaging application.
pub mod dispatch;
pub mod number;
pub mod paths;
pub mod recipients;
pub mod script;
pub mod template;
pub mod text;

pub use dispatch::{prepare_sends, Outgoing};
pub use number::{process_number, NumberError, MAX_NUMBER_LENGTH, MIN_NUMBER_LENGTH};
pub use paths::{check_file_path, validate_file_path, PathError, PathKind};
pub use recipients::{
    filter_recipients, read_recipients, recipients_from_rows, Recipient, RecipientsError, Rejected,
};
pub use script::{automation_script, escape_applescript_string};
pub use template::{render_message, replace_chars};
