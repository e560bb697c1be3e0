//! Wire-format selection for sources and sinks. The encoders and decoders
//! themselves live with the I/O boundary; the core only carries the choice.

use vstd::prelude::*;

verus! {

/// Which wire format a source decodes or a sink encodes.
#[derive(Debug, Clone, Copy, PartialEq, Eq, Structural)]
pub enum Format {
    Csv { sep: char },
    Json,
}

impl Format {
    pub fn csv(sep: char) -> (r: Format)
        ensures
            r == (Format::Csv { sep }),
    {
        Format::Csv { sep }
    }

    pub fn json() -> (r: Format)
        ensures
            r == Format::Json,
    {
        Format::Json
    }
}

} // verus!
