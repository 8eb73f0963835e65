//! Containers: the direction in which they lay out their children, and the
//! lookup of a direct child by index.

use vstd::prelude::*;

verus! {

/// Child ordering used by a two-dimensional container.
#[derive(Clone, Copy, Debug, PartialEq, Eq, Structural)]
pub enum LayoutDirection2D {
    Horizontal,
    HorizontalReverse,
    Vertical,
    VerticalReverse,
}

impl Default for LayoutDirection2D {
    /// Horizontal.
    fn default() -> (direction: Self)
        ensures
            direction == LayoutDirection2D::Horizontal,
    {
        LayoutDirection2D::Horizontal
    }
}

/// Child ordering used by a three-dimensional container.
#[derive(Clone, Copy, Debug, PartialEq, Eq, Structural)]
pub enum LayoutDirection3D {
    Horizontal,
    HorizontalReverse,
    Vertical,
    VerticalReverse,
    Depth,
    DepthReverse,
}

impl Default for LayoutDirection3D {
    /// Horizontal.
    fn default() -> (direction: Self)
        ensures
            direction == LayoutDirection3D::Horizontal,
    {
        LayoutDirection3D::Horizontal
    }
}

/// Failure to retrieve a typed direct child from a container.
#[derive(Clone, Copy, Debug, PartialEq, Eq)]
pub enum ChildError {
    /// The container has no child at the requested index.
    NotFound { index: usize, len: usize },
    /// The child exists, but has a different concrete object type.
    TypeMismatch { index: usize, expected: &'static str, actual: &'static str },
}

/// Returns the direct child at `index` of a container whose children, in
/// insertion order, are `children`.
pub fn get_child_entity<E: Copy>(children: &Vec<E>, index: usize) -> (child: Result<E, ChildError>)
    ensures
        index < children@.len() ==> child == Ok::<E, ChildError>(children@[index as int]),
        index >= children@.len() ==> child == Err::<E, ChildError>(
            ChildError::NotFound { index, len: children@.len() as usize },
        ),
{
    if index < children.len() {
        Ok(children[index])
    } else {
        Err(ChildError::NotFound { index, len: children.len() })
    }
}

/// Accepts a child whose concrete object type is the expected one; otherwise
/// reports both type names.
pub fn check_child_type(
    index: usize,
    expected: &'static str,
    actual: &'static str,
    same_type: bool,
) -> (result: Result<(), ChildError>)
    ensures
        same_type ==> result is Ok,
        !same_type ==> result == Err::<(), ChildError>(
            ChildError::TypeMismatch { index, expected, actual },
        ),
{
    if !same_type {
        return Err(ChildError::TypeMismatch { index, expected, actual });
    }
    Ok(())
}

} // verus!
