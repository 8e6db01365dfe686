//! Marker types that say which pool an index points into.

use vstd::prelude::*;

verus! {

/// The pool of names.
#[derive(Debug, Clone, Copy, PartialEq, Eq, Hash)]
pub struct CName;

/// The pool of tuning-database identifiers.
#[derive(Debug, Clone, Copy, PartialEq, Eq, Hash)]
pub struct TweakDbId;

/// The pool of resource paths.
#[derive(Debug, Clone, Copy, PartialEq, Eq, Hash)]
pub struct Resource;

/// The pool of string literals.
#[derive(Debug, Clone, Copy, PartialEq, Eq, Hash)]
pub struct Text;

/// Type definitions.
#[derive(Debug, Clone, Copy, PartialEq, Eq, Hash)]
pub struct Type;

/// Class definitions.
#[derive(Debug, Clone, Copy, PartialEq, Eq, Hash)]
pub struct Class;

/// Enum member definitions.
#[derive(Debug, Clone, Copy, PartialEq, Eq, Hash)]
pub struct EnumValue;

/// Enum definitions.
#[derive(Debug, Clone, Copy, PartialEq, Eq, Hash)]
pub struct Enum;

/// Function definitions.
#[derive(Debug, Clone, Copy, PartialEq, Eq, Hash)]
pub struct Function;

/// Parameter definitions.
#[derive(Debug, Clone, Copy, PartialEq, Eq, Hash)]
pub struct Parameter;

/// Local variable definitions.
#[derive(Debug, Clone, Copy, PartialEq, Eq, Hash)]
pub struct Local;

/// Field definitions.
#[derive(Debug, Clone, Copy, PartialEq, Eq, Hash)]
pub struct Field;

/// Source file definitions.
#[derive(Debug, Clone, Copy, PartialEq, Eq, Hash)]
pub struct SourceFile;

} // verus!
