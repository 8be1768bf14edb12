use vstd::prelude::*;

verus! {

/// Which stage of a release an engine version names.
#[derive(Debug, Clone, Copy, PartialEq, Eq, Structural)]
pub enum VersionType {
    Alpha,
    Beta,
    Final,
    Patch,
}

/// An engine version, `major.minor.build` and its release stage.
#[derive(Debug, Clone, Copy, PartialEq, Eq, Structural)]
pub struct UnityVersion {
    pub major: u32,
    pub minor: u32,
    pub build: u32,
    pub version_type: VersionType,
    pub type_number: u32,
}

impl UnityVersion {
    /// The version is `major.minor` or later.
    pub open spec fn spec_at_least(&self, major: u32, minor: u32) -> bool {
        self.major > major || (self.major == major && self.minor >= minor)
    }

    /// Whether the version is `major.minor` or later.
    #[verifier::when_used_as_spec(spec_at_least)]
    pub fn at_least(&self, major: u32, minor: u32) -> (r: bool)
        ensures
            r == self.spec_at_least(major, minor),
    {
        self.major > major || (self.major == major && self.minor >= minor)
    }
}

/// A whole asset file: header, metadata, objects and references.
#[derive(Debug)]
pub struct Asset {
    pub header: AssetHeader,
    pub metadata: AssetMetadata,
    pub objects: Vec<UnityObject>,
    pub script_types: Vec<ScriptType>,
    pub externals: Vec<External>,
    pub ref_types: Vec<SerializedType>,
    pub user_information: String,
}

/// A reference to another asset file.
#[derive(Debug)]
pub struct External {
    pub guid: Vec<u8>,
    pub ext_type: i32,
    pub path_name: String,
}

/// A script class that objects of the file refer to.
#[derive(Debug)]
pub struct ScriptType {
    pub local_serialized_file_index: i32,
    pub local_identifier_in_file: i64,
}

/// Where an object's bytes lie in the file, and of which type it is.
#[derive(Debug)]
pub struct UnityObject {
    pub path_id: i64,
    pub byte_start: i64,
    pub byte_size: u32,
    pub type_id: i32,
    pub serialized_type: SerializedType,
    pub class_id: i32,
}

/// One node of a serialized type tree.
#[derive(Debug)]
pub struct TypeTreeNode {
    pub level: usize,
    pub type_str: String,
    pub name: String,
    pub byte_size: usize,
    pub index: i32,
    pub type_flags: i32,
    pub version: i32,
    pub meta_flag: u32,
}

/// Byte order of the values in an asset file.
#[derive(Debug, Clone, Copy, PartialEq, Eq, Structural)]
pub enum Endianness {
    Big,
    Little,
}

/// The fixed header of an asset file.
#[derive(Debug)]
pub struct AssetHeader {
    pub metadata_size: usize,
    pub file_size: usize,
    pub version: u8,
    pub data_offset: usize,
    pub endianness: Endianness,
}

/// A serialized type tree and the names it carries.
#[derive(Debug)]
pub struct TypeTree {
    pub nodes: Vec<TypeTreeNode>,
    pub class_name: Option<String>,
    pub name_space: Option<String>,
    pub asm_name: Option<String>,
    pub type_dependencies: Option<Vec<i32>>,
}

/// A type that objects of the file are serialized with.
#[derive(Debug)]
pub struct SerializedType {
    pub class_id: i32,
    pub is_stripped_type: bool,
    pub script_type_index: i16,
    pub type_tree: Option<TypeTree>,
    pub script_id: Vec<u8>,
    pub old_type_hash: Vec<u8>,
    pub type_dependencies: Vec<u32>,
    pub class_name: String,
    pub name_space: String,
    pub asm_name: String,
}

/// The metadata block of an asset file.
#[derive(Debug)]
pub struct AssetMetadata {
    pub unity_version: UnityVersion,
    pub target_platform: u32,
    pub enable_type_tree: bool,
    pub types: Vec<SerializedType>,
}

/// What decoding one object needs to know of the file it comes from.
#[derive(Debug)]
pub struct AssetInfo {
    pub header: AssetHeader,
    pub metadata: AssetMetadata,
}

} // verus!
