//! The closed set of node kinds.
//!
//! A sentinel "unspecified" code exists only on the wire (code 0); it is
//! rejected at the boundary and never held internally.

use crate::errors::ConversionError;
use vstd::prelude::*;

verus! {

/// Kind of a hypothesis node.
#[derive(Clone, Copy, PartialEq, Eq, Structural, Debug, Hash)]
pub enum NodeType {
    Service,
    Dependency,
    Infrastructure,
    Mechanism,
}

/// The wire code of the boundary sentinel meaning "no type given".
pub const NODE_TYPE_UNSPECIFIED: i32 = 0;

impl NodeType {
    /// The wire code of this node type.
    pub open spec fn spec_code(self) -> i32 {
        match self {
            NodeType::Service => 1,
            NodeType::Dependency => 2,
            NodeType::Infrastructure => 3,
            NodeType::Mechanism => 4,
        }
    }

    /// The display name of this node type.
    pub open spec fn spec_display_name(self) -> Seq<char> {
        match self {
            NodeType::Service => "SERVICE"@,
            NodeType::Dependency => "DEPENDENCY"@,
            NodeType::Infrastructure => "INFRASTRUCTURE"@,
            NodeType::Mechanism => "MECHANISM"@,
        }
    }

    /// Encode the node type as its wire code.
    pub fn code(self) -> (r: i32)
        ensures
            r == self.spec_code(),
    {
        match self {
            NodeType::Service => 1,
            NodeType::Dependency => 2,
            NodeType::Infrastructure => 3,
            NodeType::Mechanism => 4,
        }
    }

    /// The node type a wire code decodes to, if any; any code that is not
    /// one of the four real variants is rejected, the unspecified
    /// sentinel included.
    pub open spec fn spec_of_code(code: int) -> Option<NodeType> {
        if code == 1 {
            Some(NodeType::Service)
        } else if code == 2 {
            Some(NodeType::Dependency)
        } else if code == 3 {
            Some(NodeType::Infrastructure)
        } else if code == 4 {
            Some(NodeType::Mechanism)
        } else {
            None
        }
    }

    /// Decode a wire code.
    pub fn from_code(code: i32) -> (r: Result<NodeType, ConversionError>)
        ensures
            r == match NodeType::spec_of_code(code as int) {
                Some(t) => Ok::<NodeType, ConversionError>(t),
                None => Err(ConversionError::InvalidNodeType(code)),
            },
    {
        if code == 1 {
            Ok(NodeType::Service)
        } else if code == 2 {
            Ok(NodeType::Dependency)
        } else if code == 3 {
            Ok(NodeType::Infrastructure)
        } else if code == 4 {
            Ok(NodeType::Mechanism)
        } else {
            Err(ConversionError::InvalidNodeType(code))
        }
    }

    /// The display name, e.g. `SERVICE`.
    pub fn display_name(self) -> (r: String)
        ensures
            r@ == self.spec_display_name(),
    {
        match self {
            NodeType::Service => "SERVICE".to_owned(),
            NodeType::Dependency => "DEPENDENCY".to_owned(),
            NodeType::Infrastructure => "INFRASTRUCTURE".to_owned(),
            NodeType::Mechanism => "MECHANISM".to_owned(),
        }
    }
}

} // verus!
