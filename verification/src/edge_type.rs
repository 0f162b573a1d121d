//! The closed set of edge kinds, with their wire codes.

use crate::errors::ConversionError;
use vstd::prelude::*;

verus! {

/// Kind of a hypothesis edge.
#[derive(Clone, Copy, PartialEq, Eq, Structural, Debug, Hash)]
pub enum EdgeType {
    DependsOn,
    PropagatesTo,
    ManifestsAs,
}

/// The wire code of the boundary sentinel meaning "no type given".
pub const EDGE_TYPE_UNSPECIFIED: i32 = 0;

impl EdgeType {
    /// The wire code of this edge type.
    pub open spec fn spec_code(self) -> i32 {
        match self {
            EdgeType::DependsOn => 1,
            EdgeType::PropagatesTo => 2,
            EdgeType::ManifestsAs => 3,
        }
    }

    /// The display name of this edge type.
    pub open spec fn spec_display_name(self) -> Seq<char> {
        match self {
            EdgeType::DependsOn => "DEPENDS_ON"@,
            EdgeType::PropagatesTo => "PROPAGATES_TO"@,
            EdgeType::ManifestsAs => "MANIFESTS_AS"@,
        }
    }

    /// Encode the edge type as its wire code.
    pub fn code(self) -> (r: i32)
        ensures
            r == self.spec_code(),
    {
        match self {
            EdgeType::DependsOn => 1,
            EdgeType::PropagatesTo => 2,
            EdgeType::ManifestsAs => 3,
        }
    }

    /// The edge type a wire code decodes to, if any; any code that is not
    /// one of the three real variants is rejected, the unspecified
    /// sentinel included.
    pub open spec fn spec_of_code(code: int) -> Option<EdgeType> {
        if code == 1 {
            Some(EdgeType::DependsOn)
        } else if code == 2 {
            Some(EdgeType::PropagatesTo)
        } else if code == 3 {
            Some(EdgeType::ManifestsAs)
        } else {
            None
        }
    }

    /// Decode a wire code.
    pub fn from_code(code: i32) -> (r: Result<EdgeType, ConversionError>)
        ensures
            r == match EdgeType::spec_of_code(code as int) {
                Some(t) => Ok::<EdgeType, ConversionError>(t),
                None => Err(ConversionError::InvalidEdgeType(code)),
            },
    {
        if code == 1 {
            Ok(EdgeType::DependsOn)
        } else if code == 2 {
            Ok(EdgeType::PropagatesTo)
        } else if code == 3 {
            Ok(EdgeType::ManifestsAs)
        } else {
            Err(ConversionError::InvalidEdgeType(code))
        }
    }

    /// The display name, e.g. `DEPENDS_ON`.
    pub fn display_name(self) -> (r: String)
        ensures
            r@ == self.spec_display_name(),
    {
        match self {
            EdgeType::DependsOn => "DEPENDS_ON".to_owned(),
            EdgeType::PropagatesTo => "PROPAGATES_TO".to_owned(),
            EdgeType::ManifestsAs => "MANIFESTS_AS".to_owned(),
        }
    }

    /// The wire code as its decimal text, used in synthetic edge
    /// identifiers.
    pub fn code_text(self) -> (r: String)
        ensures
            r@ == self.spec_code_text(),
    {
        match self {
            EdgeType::DependsOn => "1".to_owned(),
            EdgeType::PropagatesTo => "2".to_owned(),
            EdgeType::ManifestsAs => "3".to_owned(),
        }
    }

    /// The decimal text of the wire code.
    pub open spec fn spec_code_text(self) -> Seq<char> {
        match self {
            EdgeType::DependsOn => "1"@,
            EdgeType::PropagatesTo => "2"@,
            EdgeType::ManifestsAs => "3"@,
        }
    }
}

} // verus!
