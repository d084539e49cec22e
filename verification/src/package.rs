//! A package as it stands ready for upload: its registry coordinates, the
//! archive built from its sources, and what it exports.

use crate::text::{find_char, slice_chars};
use vstd::prelude::*;
use vstd::string::*;

verus! {

/// One file inside a publishable archive.
pub struct PublishableTarballFile {
    /// Path of the file relative to the archive root.
    pub path_str: String,
    /// URL form of the file, as the module graph names it.
    pub specifier: String,
    /// Hex SHA-256 digest of the file's published content.
    pub hash: String,
    /// Size of the published content in bytes.
    pub size: usize,
}

/// A gzipped archive together with the digest and the file list that
/// describe it.
pub struct PublishableTarball {
    pub bytes: Vec<u8>,
    pub hash: String,
    pub files: Vec<PublishableTarballFile>,
}

/// Everything the pipeline needs to publish one version of one package.
pub struct PreparedPublishPackage {
    pub scope: String,
    pub package: String,
    pub version: String,
    pub tarball: PublishableTarball,
    /// Base name of the configuration file at the package root.
    pub config: String,
    /// Export specifier and the relative path it maps to.
    pub exports: Vec<(String, String)>,
}

/// What a [`PublishableTarballFile`] denotes.
pub struct FileView {
    pub path: Seq<char>,
    pub specifier: Seq<char>,
    pub hash: Seq<char>,
    pub size: nat,
}

/// What a [`PublishableTarball`] denotes.
pub struct TarballView {
    pub bytes: Seq<u8>,
    pub hash: Seq<char>,
    pub files: Seq<FileView>,
}

/// What a [`PreparedPublishPackage`] denotes.
pub struct PackageView {
    pub scope: Seq<char>,
    pub package: Seq<char>,
    pub version: Seq<char>,
    pub tarball: TarballView,
    pub config: Seq<char>,
    pub exports: Seq<(Seq<char>, Seq<char>)>,
}

/// No two exports share a specifier.
pub open spec fn distinct_specifiers(exports: Seq<(Seq<char>, Seq<char>)>) -> bool {
    forall|i: int, j: int| 0 <= i < j < exports.len() ==> exports[i].0 != exports[j].0
}

/// A list of string pairs, read as pairs of character sequences.
pub open spec fn pairs_view(pairs: Seq<(String, String)>) -> Seq<(Seq<char>, Seq<char>)> {
    Seq::new(pairs.len(), |i: int| (pairs[i].0@, pairs[i].1@))
}

impl View for PublishableTarballFile {
    type V = FileView;

    open spec fn view(&self) -> FileView {
        FileView {
            path: self.path_str@,
            specifier: self.specifier@,
            hash: self.hash@,
            size: self.size as nat,
        }
    }
}

impl View for PublishableTarball {
    type V = TarballView;

    open spec fn view(&self) -> TarballView {
        TarballView {
            bytes: self.bytes@,
            hash: self.hash@,
            files: Seq::new(self.files@.len(), |i: int| self.files@[i]@),
        }
    }
}

impl View for PreparedPublishPackage {
    type V = PackageView;

    open spec fn view(&self) -> PackageView {
        PackageView {
            scope: self.scope@,
            package: self.package@,
            version: self.version@,
            tarball: self.tarball@,
            config: self.config@,
            exports: pairs_view(self.exports@),
        }
    }
}

/// The identity of a package version among all packages of a publish run.
pub type PackageKey = (Seq<char>, Seq<char>, Seq<char>);

impl PackageView {
    /// Scope, name and version: the key under which credentials are filed.
    pub open spec fn key(self) -> PackageKey {
        (self.scope, self.package, self.version)
    }

    /// No two files share a path and no two exports share a specifier.
    pub open spec fn well_formed(self) -> bool {
        &&& forall|i: int, j: int|
            0 <= i < j < self.tarball.files.len() ==> self.tarball.files[i].path
                != self.tarball.files[j].path
        &&& distinct_specifiers(self.exports)
    }
}

/// `@scope/package@version`.
pub open spec fn display_name_text(scope: Seq<char>, package: Seq<char>, version: Seq<char>) -> Seq<
    char,
> {
    "@"@ + scope + "/"@ + package + "@"@ + version
}

impl PreparedPublishPackage {
    /// The name under which the package is shown to the user.
    pub fn display_name(&self) -> (name: String)
        ensures
            name@ == display_name_text(self@.scope, self@.package, self@.version),
    {
        let mut name = String::from_str("@");
        name.append(self.scope.as_str());
        name.append("/");
        name.append(self.package.as_str());
        name.append("@");
        name.append(self.version.as_str());
        name
    }
}

/// A grant that a credential must carry.
pub enum Permission<'s> {
    /// The right to publish exactly one version with exactly one archive.
    VersionPublish { scope: &'s str, package: &'s str, version: &'s str, tarball_hash: &'s str },
}

/// What a [`Permission`] denotes: the coordinates of the version and the
/// digest of the archive it may be published with.
pub struct PermissionView {
    pub scope: Seq<char>,
    pub package: Seq<char>,
    pub version: Seq<char>,
    pub tarball_hash: Seq<char>,
}

impl<'s> View for Permission<'s> {
    type V = PermissionView;

    open spec fn view(&self) -> PermissionView {
        match self {
            Permission::VersionPublish { scope, package, version, tarball_hash } => PermissionView {
                scope: scope@,
                package: package@,
                version: version@,
                tarball_hash: tarball_hash@,
            },
        }
    }
}

impl PackageView {
    /// The permission that publishing the package asks for.
    pub open spec fn permission(self) -> PermissionView {
        PermissionView {
            scope: self.scope,
            package: self.package,
            version: self.version,
            tarball_hash: self.tarball.hash,
        }
    }
}

/// The packages of a publish run, as what they denote.
pub open spec fn package_views(packages: Seq<PreparedPublishPackage>) -> Seq<PackageView> {
    Seq::new(packages.len(), |i: int| packages[i]@)
}

/// One publish permission per package, in the order of the packages.
pub fn permissions_for<'s>(packages: &'s Vec<PreparedPublishPackage>) -> (permissions: Vec<
    Permission<'s>,
>)
    ensures
        permissions@.len() == packages@.len(),
        forall|i: int|
            0 <= i < packages@.len() ==> (#[trigger] permissions@[i])@ == packages@[i]@.permission(),
{
    let mut permissions: Vec<Permission<'s>> = Vec::new();
    let mut i: usize = 0;
    while i < packages.len()
        invariant
            i <= packages@.len(),
            permissions@.len() == i,
            forall|k: int| 0 <= k < i ==> (#[trigger] permissions@[k])@ == packages@[k]@.permission(),
        decreases packages@.len() - i,
    {
        let package = &packages[i];
        permissions.push(
            Permission::VersionPublish {
                scope: package.scope.as_str(),
                package: package.package.as_str(),
                version: package.version.as_str(),
                tarball_hash: package.tarball.hash.as_str(),
            },
        );
        i += 1;
    }
    permissions
}

/// Whether `name` has the form `@scope/package`.
pub open spec fn is_scoped_name(name: Seq<char>) -> bool {
    name.len() > 0 && name[0] == '@' && name.skip(1).contains('/')
}

/// Splits `@scope/package` at its first slash.
///
/// Succeeds exactly on scoped names; the scope is then everything between
/// the leading `@` and the first `/`, the package everything after it.
pub fn split_package_name(name: &str) -> (parts: Option<(String, String)>)
    ensures
        parts is Some <==> is_scoped_name(name@),
        parts matches Some((scope, package)) ==> {
            &&& name@ == "@"@ + scope@ + "/"@ + package@
            &&& !scope@.contains('/')
        },
{
    proof {
        reveal_strlit("@");
        reveal_strlit("/");
    }
    let len = name.unicode_len();
    if len == 0 {
        return None;
    }
    if name.get_char(0) != '@' {
        return None;
    }
    let rest = name.substring_char(1, len);
    assert(rest@ =~= name@.skip(1));
    match find_char(rest, '/') {
        None => None,
        Some(at) => {
            let scope = slice_chars(rest, 0, at);
            let package = slice_chars(rest, at + 1, len - 1);
            assert(scope@ =~= rest@.take(at as int));
            assert(name@ =~= "@"@ + scope@ + "/"@ + package@);
            Some((scope, package))
        },
    }
}

} // verus!
