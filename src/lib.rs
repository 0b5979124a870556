//! Reading and writing curve table files: a cursor over the text, binders
//! that map record schemas onto it, the curve document model, the builtin
//! easing curves, and the lookup and renaming of curves by name.

pub mod scanner;
pub mod binder;
pub mod primitives;
pub mod model;
pub mod builtins;
pub mod names;
pub mod roundtrip;

pub use binder::{FSOParsingError, FSOTable};
pub use builtins::builtin_curves;
pub use model::{Curve, CurveKeyframe, CurveSegment, CurveTable};
pub use names::{find_curve, find_name_collision, get_available_curves, is_curve_table_file_name, rename_curve};
pub use primitives::Numeral;
pub use scanner::{FSOParser, FSOTableFileParser};
