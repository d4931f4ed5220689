use vstd::prelude::*;

verus! {

/// Errors reported by data set, object and schema operations.
#[derive(Debug, Clone, Copy, PartialEq, Eq, Structural)]
pub enum DataSetError {
    ValueDoesNotMatchSchema,
    PathParentIsNull,
    PathDynamicArrayEntryDoesNotExist,
    UnexpectedEnumSymbol,
    DataTaken,
    DuplicateAssetId,
    AssetNotFound,
    LocationCycleDetected,
    LocationParentNotFound,
    SingleObjectDoesNotMatchSchema,
    InvalidSchema,
    SchemaNotFound,
    UuidParseError,
    UnknownPathNamespace,
    DuplicateEntryKey,
    NewLocationIsChildOfCurrentAsset,
    StorageFormatError,
}

pub type DataSetResult<T> = Result<T, DataSetError>;

/// Identifier of an asset. The all-zero identifier is the null identifier.
#[derive(Debug, Clone, Copy, PartialEq, Eq, Structural, Hash, PartialOrd, Ord)]
pub struct AssetId(pub u128);

impl AssetId {
    pub fn null() -> (r: AssetId)
        ensures
            r.0 == 0,
    {
        AssetId(0)
    }

    pub fn from_u128(id: u128) -> (r: AssetId)
        ensures
            r.0 == id,
    {
        AssetId(id)
    }

    pub fn as_u128(&self) -> (r: u128)
        ensures
            r == self.0,
    {
        self.0
    }

    pub fn is_null(&self) -> (r: bool)
        ensures
            r == (self.0 == 0),
    {
        self.0 == 0
    }
}

/// Tri-state marker stored per nullable property.
#[derive(Debug, Clone, Copy, PartialEq, Eq, Structural, Hash)]
pub enum NullOverride {
    Unset,
    SetNull,
    SetNonNull,
}

/// Whether a container property appends to or replaces what the prototype provides.
#[derive(Debug, Clone, Copy, PartialEq, Eq, Structural)]
pub enum OverrideBehavior {
    Append,
    Replace,
}

/// Identifier of the importer that produced an asset.
#[derive(Debug, Clone, Copy, PartialEq, Eq, Structural, Hash)]
pub struct ImporterId(pub u128);

/// Identifier of a builder.
#[derive(Debug, Clone, Copy, PartialEq, Eq, Structural, Hash)]
pub struct BuilderId(pub usize);

/// Display name of an asset. The empty string stands for "no name".
#[derive(Debug, Hash)]
pub struct AssetName(pub String);

impl Clone for AssetName {
    fn clone(&self) -> (r: Self)
        ensures
            r.0@ == self.0@,
    {
        AssetName(self.0.clone())
    }
}

impl PartialEq for AssetName {
    fn eq(&self, other: &Self) -> (r: bool) {
        self.0 == other.0
    }
}

impl vstd::std_specs::cmp::PartialEqSpecImpl for AssetName {
    open spec fn obeys_eq_spec() -> bool {
        true
    }

    open spec fn eq_spec(&self, other: &AssetName) -> bool {
        self.0@ == other.0@
    }
}

impl AssetName {
    pub fn new(name: String) -> (r: AssetName)
        ensures
            r.0@ == name@,
    {
        AssetName(name)
    }

    pub fn empty() -> (r: AssetName)
        ensures
            r.0@ == Seq::<char>::empty(),
    {
        AssetName(String::new())
    }

    pub fn is_empty(&self) -> (r: bool)
        ensures
            r == (self.0@.len() == 0),
    {
        self.0.as_str().is_empty()
    }

    pub fn as_string(&self) -> (r: Option<&String>)
        ensures
            self.0@.len() == 0 ==> r is None,
            self.0@.len() != 0 ==> r == Some(&self.0),
    {
        if self.0.as_str().is_empty() {
            None
        } else {
            Some(&self.0)
        }
    }
}

/// Location of an asset in the asset tree: the identifier of the parent path node.
#[derive(Debug, Clone, Copy, PartialEq, Eq, Structural, Hash, PartialOrd, Ord)]
pub struct AssetLocation {
    pub path_node_id: AssetId,
}

impl AssetLocation {
    pub fn new(path_node_id: AssetId) -> (r: AssetLocation)
        ensures
            r.path_node_id == path_node_id,
    {
        AssetLocation { path_node_id }
    }

    pub fn null() -> (r: AssetLocation)
        ensures
            r.path_node_id.0 == 0,
    {
        AssetLocation { path_node_id: AssetId::null() }
    }

    pub fn path_node_id(&self) -> (r: AssetId)
        ensures
            r == self.path_node_id,
    {
        self.path_node_id
    }

    pub fn is_null(&self) -> (r: bool)
        ensures
            r == (self.path_node_id.0 == 0),
    {
        self.path_node_id.is_null()
    }
}

/// Name of one importable item inside a source file. The empty string means the
/// file's default importable, so `Some("")` and `None` cannot both exist.
#[derive(Debug, Hash, Default)]
pub struct ImportableName(pub String);

impl Clone for ImportableName {
    fn clone(&self) -> (r: Self)
        ensures
            r.0@ == self.0@,
    {
        ImportableName(self.0.clone())
    }
}

impl PartialEq for ImportableName {
    fn eq(&self, other: &Self) -> (r: bool) {
        self.0 == other.0
    }
}

impl vstd::std_specs::cmp::PartialEqSpecImpl for ImportableName {
    open spec fn obeys_eq_spec() -> bool {
        true
    }

    open spec fn eq_spec(&self, other: &ImportableName) -> bool {
        self.0@ == other.0@
    }
}

impl ImportableName {
    /// The empty string stands for the default importable.
    pub fn new(name: String) -> (r: ImportableName)
        ensures
            r.0@ == name@,
    {
        ImportableName(name)
    }

    /// `Some("")` is rejected: it would be ambiguous with `None`.
    pub fn new_optional(name: Option<String>) -> (r: ImportableName)
        requires
            name matches Some(n) ==> n@.len() != 0,
        ensures
            match name {
                Some(n) => r.0@ == n@,
                None => r.0@ == Seq::<char>::empty(),
            },
    {
        match name {
            Some(name) => ImportableName(name),
            None => ImportableName(String::new()),
        }
    }

    pub fn name(&self) -> (r: Option<&str>)
        ensures
            self.0@.len() == 0 ==> r is None,
            self.0@.len() != 0 ==> (r matches Some(s) && s@ == self.0@),
    {
        if self.0.as_str().is_empty() {
            None
        } else {
            Some(self.0.as_str())
        }
    }

    pub fn is_default(&self) -> (r: bool)
        ensures
            r == (self.0@.len() == 0),
    {
        self.0.as_str().is_empty()
    }
}

} // verus!
