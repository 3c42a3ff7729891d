//! How generated code names the crate it refers to.
use vstd::prelude::*;

verus! {

/// Where the caller's manifest has the crate.
pub enum FoundCrate {
    /// The caller is the crate itself.
    Itself,
    /// The caller depends on the crate under this name.
    Name(String),
}

/// The path prefix generated code uses for the crate.
pub enum RootPath {
    /// `crate`.
    CrateKeyword,
    /// `::name`.
    Extern(String),
}

/// The path as text: `None` for `crate`, otherwise the name after `::`.
pub open spec fn root_view(r: RootPath) -> Option<Seq<char>> {
    match r {
        RootPath::CrateKeyword => None,
        RootPath::Extern(n) => Some(n@),
    }
}

/// The `hydroflow` root: inside the crate itself, `crate` when compiling the library or its
/// unit tests (no binary name, the primary package, and crate name `hydroflow`), otherwise
/// `::hydroflow`; from another crate, `::` and the name it depends on `hydroflow` by.
pub open spec fn hydroflow_root_spec(
    found: FoundCrate,
    bin_name_absent: bool,
    primary_package_set: bool,
    crate_name: Option<Seq<char>>,
) -> Option<Seq<char>> {
    match found {
        FoundCrate::Itself => {
            if bin_name_absent && primary_package_set && crate_name == Some("hydroflow"@) {
                None
            } else {
                Some("hydroflow"@)
            }
        },
        FoundCrate::Name(n) => Some(n@),
    }
}

/// The `hydroflow` root; see [`hydroflow_root_spec`]. `bin_name_absent` says whether
/// `CARGO_BIN_NAME` is unset, `primary_package_set` whether `CARGO_PRIMARY_PACKAGE` is not
/// unset, and `crate_name` is the value of `CARGO_CRATE_NAME`, if readable.
pub fn hydroflow_root_path(
    found: FoundCrate,
    bin_name_absent: bool,
    primary_package_set: bool,
    crate_name: Option<String>,
) -> (r: RootPath)
    ensures
        root_view(r) == hydroflow_root_spec(
            found,
            bin_name_absent,
            primary_package_set,
            match crate_name {
                Some(n) => Some(n@),
                None => None,
            },
        ),
{
    match found {
        FoundCrate::Itself => {
            let is_self = match &crate_name {
                Some(n) => *n == "hydroflow".to_owned(),
                None => false,
            };
            if bin_name_absent && primary_package_set && is_self {
                RootPath::CrateKeyword
            } else {
                RootPath::Extern("hydroflow".to_owned())
            }
        },
        FoundCrate::Name(n) => RootPath::Extern(n),
    }
}

/// The `lattices` root: `crate` inside the crate itself, otherwise `::` and the name the
/// caller depends on it by.
pub fn lattices_root_path(found: FoundCrate) -> (r: RootPath)
    ensures
        root_view(r) == match found {
            FoundCrate::Itself => None,
            FoundCrate::Name(n) => Some(n@),
        },
{
    match found {
        FoundCrate::Itself => RootPath::CrateKeyword,
        FoundCrate::Name(n) => RootPath::Extern(n),
    }
}

} // verus!
