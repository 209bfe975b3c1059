//! Runtime building blocks: error identities, object type tags, reference
//! counting and the object-header lifecycle, values and their operator table,
//! tables and their lifecycle, sets, dictionary shapes, integer
//! arithmetic and the checks made where values cross the C boundary.

pub mod errors;
pub mod memory;
pub mod numeric;
pub mod tables;
pub mod containers;
pub mod sets;
pub mod value;
pub mod ops;
pub mod interchange;
