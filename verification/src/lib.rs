//! Reader and writer for compiled script bundles: a container of interned
//! string pools and typed definitions, some of which carry bytecode.
//!
//! A bundle is read from the bytes of a file with `ScriptBundle::from_bytes`,
//! looked into and changed through typed handles, and written back with
//! `ScriptBundle::into_writeable` and `WriteableBundle::to_bytes`.

pub mod bundle;
pub mod checksum;
pub mod code;
pub mod codec;
pub mod definition;
pub mod error;
pub mod flags;
pub mod header;
pub mod index;
pub mod instr;
pub mod laws;
pub mod layout;
pub mod list;
pub mod pool;
pub mod text;
pub mod writer;

pub use bundle::{
    BundleItem, BundleReader, DefinitionIndex, ItemIter, ItemReader, PoolItem, PoolItemMut,
    ScriptBundle,
};
pub use code::FunctionBody;
pub use definition::{
    Class, Definition, Enum, EnumMember, Field, Function, Local, Parameter, SourceFile,
    SourceReference, Type,
};
pub use error::Error;
pub use flags::{
    ClassFlags, FieldFlags, FunctionFlags, LocalFlags, ParameterFlags, TypeKind, Visibility,
};
pub use header::{Header, TableHeader, Timestamp};
pub use index::{
    CNameIndex, ClassIndex, EnumIndex, EnumValueIndex, FieldIndex, FunctionIndex, LocalIndex,
    NzPoolIndex, ParameterIndex, PoolIndex, ResourceIndex, SourceFileIndex, StringIndex,
    TweakDbIndex, TypeIndex,
};
pub use instr::{Breakpoint, Conditional, Instr, Jump, Offset, Profile, Switch, SwitchLabel};
pub use pool::StringPool;
pub use text::Property;
pub use writer::WriteableBundle;
