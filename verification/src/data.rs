//! The tabular-data engine's public surface: table storage, column-type
//! inference, sorting, filtering, cell edits with undo/redo, and the
//! delimited-text and JSON codecs around them.

pub use crate::codec::CsvError;
pub use crate::filterops::{FilterCondition, FilterLogic, FilterOperator};
pub use crate::filterops::{operator_to_string, string_to_operator};
pub use crate::history::{EditAction, History};
pub use crate::inference::TYPE_INFERENCE_SAMPLE_SIZE;
pub use crate::sorting::SortOrder;
pub use crate::table::{ColType, CsvTable};
