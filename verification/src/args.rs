use vstd::prelude::*;

verus! {

/// Start-up options: whether to log to a file, and whether to seed the
/// roster with demonstration creatures. Command-line parsing happens outside
/// the library and hands over this plain record.
#[derive(Clone, Copy, Debug)]
pub struct Args {
    pub logging: bool,
    pub init_test_creatures: bool,
}

} // verus!
