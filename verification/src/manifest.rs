//! Cross-checking the registry's record of a published version against the
//! archive that was uploaded.
//!
//! After an upload the registry serves a manifest of the version: every file
//! with its checksum, and the export map. Before a provenance attestation is
//! attached, the pipeline proves that this record describes exactly what it
//! sent.

use crate::json::{
    find_member, json_document, json_object_members, json_string_value, member_value,
    members_view, object_members, parse_document, string_value,
};
use crate::package::{
    pairs_view, FileView, PackageView, PreparedPublishPackage, PublishableTarballFile,
};
use crate::text::{decimal, decimal_text, same_text};
use vstd::prelude::*;
use vstd::string::*;

verus! {

/// What the registry records about one file.
pub struct ManifestEntry {
    pub checksum: String,
}

/// The registry's record of a published version.
pub struct VersionManifest {
    /// Path of each recorded file, with its entry.
    pub manifest: Vec<(String, ManifestEntry)>,
    /// Export specifier and the path it maps to.
    pub exports: Vec<(String, String)>,
}

/// What a [`VersionManifest`] denotes: paths with checksums, and exports.
pub struct ManifestView {
    pub files: Seq<(Seq<char>, Seq<char>)>,
    pub exports: Seq<(Seq<char>, Seq<char>)>,
}

impl View for VersionManifest {
    type V = ManifestView;

    open spec fn view(&self) -> ManifestView {
        ManifestView {
            files: Seq::new(
                self.manifest@.len(),
                |i: int| (self.manifest@[i].0@, self.manifest@[i].1.checksum@),
            ),
            exports: pairs_view(self.exports@),
        }
    }
}

/// Why a manifest was not accepted.
#[allow(inconsistent_fields)]
pub enum VerifyError {
    /// The bytes are not JSON.
    InvalidJson,
    /// The JSON does not have the shape of a version manifest.
    InvalidManifest,
    /// The manifest lists `actual` files, the archive holds `expected`.
    FileCountMismatch { expected: usize, actual: usize },
    /// The manifest lists a file that the archive does not hold.
    FileNotFound { path: String },
    /// The manifest records `expected` as the checksum of a file whose
    /// checksum in the archive is `actual`.
    ChecksumMismatch { path: String, expected: String, actual: String },
    /// The manifest lists an export that the package does not have.
    ExportNotFound { specifier: String },
    /// The manifest maps an export to `expected`, the package to `actual`.
    ExportMismatch { specifier: String, expected: String, actual: String },
}

/// What a [`VerifyError`] denotes.
#[allow(inconsistent_fields)]
pub enum VerifyFailure {
    InvalidJson,
    InvalidManifest,
    FileCountMismatch { expected: nat, actual: nat },
    FileNotFound { path: Seq<char> },
    ChecksumMismatch { path: Seq<char>, expected: Seq<char>, actual: Seq<char> },
    ExportNotFound { specifier: Seq<char> },
    ExportMismatch { specifier: Seq<char>, expected: Seq<char>, actual: Seq<char> },
}

impl View for VerifyError {
    type V = VerifyFailure;

    open spec fn view(&self) -> VerifyFailure {
        match self {
            VerifyError::InvalidJson => VerifyFailure::InvalidJson,
            VerifyError::InvalidManifest => VerifyFailure::InvalidManifest,
            VerifyError::FileCountMismatch { expected, actual } => VerifyFailure::FileCountMismatch {
                expected: *expected as nat,
                actual: *actual as nat,
            },
            VerifyError::FileNotFound { path } => VerifyFailure::FileNotFound { path: path@ },
            VerifyError::ChecksumMismatch { path, expected, actual } => {
                VerifyFailure::ChecksumMismatch {
                    path: path@,
                    expected: expected@,
                    actual: actual@,
                }
            },
            VerifyError::ExportNotFound { specifier } => VerifyFailure::ExportNotFound {
                specifier: specifier@,
            },
            VerifyError::ExportMismatch { specifier, expected, actual } => {
                VerifyFailure::ExportMismatch {
                    specifier: specifier@,
                    expected: expected@,
                    actual: actual@,
                }
            },
        }
    }
}

impl VerifyFailure {
    /// The sentence that reports the failure.
    pub open spec fn message(self) -> Seq<char> {
        match self {
            VerifyFailure::InvalidJson => "The version manifest is not valid JSON"@,
            VerifyFailure::InvalidManifest => "The version manifest is malformed"@,
            VerifyFailure::FileCountMismatch { expected, actual } => {
                "Mismatch in the number of files in the manifest: expected "@ + decimal_text(
                    expected,
                ) + ", got "@ + decimal_text(actual)
            },
            VerifyFailure::FileNotFound { path } => "File "@ + path + " not found in the tarball"@,
            VerifyFailure::ChecksumMismatch { path, expected, actual } => {
                "Checksum mismatch for "@ + path + ": expected "@ + expected + ", got "@ + actual
            },
            VerifyFailure::ExportNotFound { specifier } => {
                "Export "@ + specifier + " not found in the package"@
            },
            VerifyFailure::ExportMismatch { specifier, expected, actual } => {
                "Export "@ + specifier + " mismatch: expected "@ + expected + ", got "@ + actual
            },
        }
    }
}

impl VerifyError {
    /// Renders the error for the user.
    pub fn message(&self) -> (text: String)
        ensures
            text@ == self@.message(),
    {
        match self {
            VerifyError::InvalidJson => String::from_str("The version manifest is not valid JSON"),
            VerifyError::InvalidManifest => String::from_str("The version manifest is malformed"),
            VerifyError::FileCountMismatch { expected, actual } => {
                let mut text = String::from_str(
                    "Mismatch in the number of files in the manifest: expected ",
                );
                text.append(decimal(*expected as u64).as_str());
                text.append(", got ");
                text.append(decimal(*actual as u64).as_str());
                text
            },
            VerifyError::FileNotFound { path } => {
                let mut text = String::from_str("File ");
                text.append(path.as_str());
                text.append(" not found in the tarball");
                text
            },
            VerifyError::ChecksumMismatch { path, expected, actual } => {
                let mut text = String::from_str("Checksum mismatch for ");
                text.append(path.as_str());
                text.append(": expected ");
                text.append(expected.as_str());
                text.append(", got ");
                text.append(actual.as_str());
                text
            },
            VerifyError::ExportNotFound { specifier } => {
                let mut text = String::from_str("Export ");
                text.append(specifier.as_str());
                text.append(" not found in the package");
                text
            },
            VerifyError::ExportMismatch { specifier, expected, actual } => {
                let mut text = String::from_str("Export ");
                text.append(specifier.as_str());
                text.append(" mismatch: expected ");
                text.append(expected.as_str());
                text.append(", got ");
                text.append(actual.as_str());
                text
            },
        }
    }
}

/// The first file of the archive stored under `path`.
pub open spec fn file_at_path(files: Seq<FileView>, path: Seq<char>) -> Option<FileView>
    decreases files.len(),
{
    if files.len() == 0 {
        None
    } else if files[0].path == path {
        Some(files[0])
    } else {
        file_at_path(files.drop_first(), path)
    }
}

/// The target of the first export named `specifier`.
pub open spec fn export_target(exports: Seq<(Seq<char>, Seq<char>)>, specifier: Seq<char>) -> Option<
    Seq<char>,
>
    decreases exports.len(),
{
    if exports.len() == 0 {
        None
    } else if exports[0].0 == specifier {
        Some(exports[0].1)
    } else {
        export_target(exports.drop_first(), specifier)
    }
}

/// What is wrong with one manifest entry, if anything: the archive must hold
/// a file at its path, with its checksum.
pub open spec fn entry_failure(entry: (Seq<char>, Seq<char>), files: Seq<FileView>) -> Option<
    VerifyFailure,
> {
    match file_at_path(files, entry.0) {
        None => Some(VerifyFailure::FileNotFound { path: entry.0 }),
        Some(file) => if file.hash != entry.1 {
            Some(
                VerifyFailure::ChecksumMismatch {
                    path: entry.0,
                    expected: entry.1,
                    actual: file.hash,
                },
            )
        } else {
            None
        },
    }
}

/// What is wrong with one manifest export, if anything: the package must
/// export the same specifier to the same path.
pub open spec fn export_failure(
    export: (Seq<char>, Seq<char>),
    exports: Seq<(Seq<char>, Seq<char>)>,
) -> Option<VerifyFailure> {
    match export_target(exports, export.0) {
        None => Some(VerifyFailure::ExportNotFound { specifier: export.0 }),
        Some(actual) => if actual != export.1 {
            Some(
                VerifyFailure::ExportMismatch {
                    specifier: export.0,
                    expected: export.1,
                    actual,
                },
            )
        } else {
            None
        },
    }
}

/// The failure of the first entry that has one.
pub open spec fn first_entry_failure(
    entries: Seq<(Seq<char>, Seq<char>)>,
    files: Seq<FileView>,
) -> Option<VerifyFailure>
    decreases entries.len(),
{
    if entries.len() == 0 {
        None
    } else if entry_failure(entries[0], files) is Some {
        entry_failure(entries[0], files)
    } else {
        first_entry_failure(entries.drop_first(), files)
    }
}

/// The failure of the first export that has one.
pub open spec fn first_export_failure(
    listed: Seq<(Seq<char>, Seq<char>)>,
    exports: Seq<(Seq<char>, Seq<char>)>,
) -> Option<VerifyFailure>
    decreases listed.len(),
{
    if listed.len() == 0 {
        None
    } else if export_failure(listed[0], exports) is Some {
        export_failure(listed[0], exports)
    } else {
        first_export_failure(listed.drop_first(), exports)
    }
}

/// The verdict on a manifest held against a package.
///
/// The file counts must agree; then every entry, in order, must match a file
/// of the archive; then every export, in order, must match an export of the
/// package. The first violation found in that order is the verdict.
pub open spec fn manifest_verdict(manifest: ManifestView, package: PackageView) -> Result<
    (),
    VerifyFailure,
> {
    if manifest.files.len() != package.tarball.files.len() {
        Err(
            VerifyFailure::FileCountMismatch {
                expected: package.tarball.files.len(),
                actual: manifest.files.len(),
            },
        )
    } else if first_entry_failure(manifest.files, package.tarball.files) is Some {
        Err(first_entry_failure(manifest.files, package.tarball.files)->0)
    } else if first_export_failure(manifest.exports, package.exports) is Some {
        Err(first_export_failure(manifest.exports, package.exports)->0)
    } else {
        Ok(())
    }
}

/// Whether an exec result carries the verdict `verdict`.
pub open spec fn carries(result: Result<(), VerifyError>, verdict: Result<(), VerifyFailure>) -> bool {
    match result {
        Ok(()) => verdict is Ok,
        Err(e) => verdict == Err::<(), VerifyFailure>(e@),
    }
}

fn find_file<'a>(files: &'a Vec<PublishableTarballFile>, path: &str) -> (found: Option<
    &'a PublishableTarballFile,
>)
    ensures
        match found {
            Some(file) => file_at_path(Seq::new(files@.len(), |i: int| files@[i]@), path@) == Some(
                file@,
            ),
            None => file_at_path(Seq::new(files@.len(), |i: int| files@[i]@), path@) is None,
        },
{
    let ghost all = Seq::new(files@.len(), |i: int| files@[i]@);
    let mut i: usize = 0;
    assert(all.skip(0) =~= all);
    while i < files.len()
        invariant
            i <= files@.len(),
            all == Seq::new(files@.len(), |i: int| files@[i]@),
            file_at_path(all, path@) == file_at_path(all.skip(i as int), path@),
        decreases files@.len() - i,
    {
        if same_text(files[i].path_str.as_str(), path) {
            return Some(&files[i]);
        }
        assert(all.skip(i as int).drop_first() =~= all.skip(i + 1));
        i += 1;
    }
    None
}

fn find_export<'a>(exports: &'a Vec<(String, String)>, specifier: &str) -> (found: Option<
    &'a String,
>)
    ensures
        match found {
            Some(target) => export_target(pairs_view(exports@), specifier@) == Some(target@),
            None => export_target(pairs_view(exports@), specifier@) is None,
        },
{
    let ghost all = pairs_view(exports@);
    let mut i: usize = 0;
    assert(all.skip(0) =~= all);
    while i < exports.len()
        invariant
            i <= exports@.len(),
            all == pairs_view(exports@),
            export_target(all, specifier@) == export_target(all.skip(i as int), specifier@),
        decreases exports@.len() - i,
    {
        if same_text(exports[i].0.as_str(), specifier) {
            return Some(&exports[i].1);
        }
        assert(all.skip(i as int).drop_first() =~= all.skip(i + 1));
        i += 1;
    }
    None
}

/// Holds a decoded manifest against the package that was uploaded.
pub fn check_version_manifest(manifest: &VersionManifest, package: &PreparedPublishPackage) -> (result:
    Result<(), VerifyError>)
    ensures
        carries(result, manifest_verdict(manifest@, package@)),
{
    if manifest.manifest.len() != package.tarball.files.len() {
        return Err(
            VerifyError::FileCountMismatch {
                expected: package.tarball.files.len(),
                actual: manifest.manifest.len(),
            },
        );
    }
    let ghost entries = manifest@.files;
    let ghost held = package@.tarball.files;
    let mut i: usize = 0;
    assert(entries.skip(0) =~= entries);
    while i < manifest.manifest.len()
        invariant
            i <= manifest.manifest@.len(),
            entries == manifest@.files,
            held == package@.tarball.files,
            entries.len() == held.len(),
            first_entry_failure(entries, held) == first_entry_failure(entries.skip(i as int), held),
        decreases manifest.manifest@.len() - i,
    {
        let path = &manifest.manifest[i].0;
        let entry = &manifest.manifest[i].1;
        assert(entries.skip(i as int)[0] == (path@, entry.checksum@));
        match find_file(&package.tarball.files, path.as_str()) {
            None => {
                return Err(VerifyError::FileNotFound { path: path.clone() });
            },
            Some(file) => {
                if !same_text(file.hash.as_str(), entry.checksum.as_str()) {
                    return Err(
                        VerifyError::ChecksumMismatch {
                            path: path.clone(),
                            expected: entry.checksum.clone(),
                            actual: file.hash.clone(),
                        },
                    );
                }
            },
        }
        assert(entries.skip(i as int).drop_first() =~= entries.skip(i + 1));
        i += 1;
    }
    let ghost listed = manifest@.exports;
    let ghost exported = package@.exports;
    let mut j: usize = 0;
    assert(listed.skip(0) =~= listed);
    while j < manifest.exports.len()
        invariant
            j <= manifest.exports@.len(),
            listed == manifest@.exports,
            exported == package@.exports,
            manifest@.files.len() == package@.tarball.files.len(),
            first_entry_failure(manifest@.files, package@.tarball.files) is None,
            first_export_failure(listed, exported) == first_export_failure(
                listed.skip(j as int),
                exported,
            ),
        decreases manifest.exports@.len() - j,
    {
        let specifier = &manifest.exports[j].0;
        let expected = &manifest.exports[j].1;
        assert(listed.skip(j as int)[0] == (specifier@, expected@));
        match find_export(&package.exports, specifier.as_str()) {
            None => {
                return Err(VerifyError::ExportNotFound { specifier: specifier.clone() });
            },
            Some(actual) => {
                if !same_text(actual.as_str(), expected.as_str()) {
                    return Err(
                        VerifyError::ExportMismatch {
                            specifier: specifier.clone(),
                            expected: expected.clone(),
                            actual: actual.clone(),
                        },
                    );
                }
            },
        }
        assert(listed.skip(j as int).drop_first() =~= listed.skip(j + 1));
        j += 1;
    }
    Ok(())
}

/// The checksum that the JSON of one manifest entry records: the string
/// member `checksum` of an object.
pub open spec fn entry_checksum(value: serde_json::Value) -> Option<Seq<char>> {
    match json_object_members(value) {
        None => None,
        Some(fields) => match member_value(fields, "checksum"@) {
            None => None,
            Some(sum) => json_string_value(sum),
        },
    }
}

/// The file list that the members of a JSON `manifest` object denote, if
/// every member is a well-formed entry.
pub open spec fn files_of_members(members: Seq<(Seq<char>, serde_json::Value)>) -> Option<
    Seq<(Seq<char>, Seq<char>)>,
> {
    if forall|i: int| 0 <= i < members.len() ==> entry_checksum(#[trigger] members[i].1) is Some {
        Some(Seq::new(members.len(), |i: int| (members[i].0, entry_checksum(members[i].1)->0)))
    } else {
        None
    }
}

/// The export list that the members of a JSON `exports` object denote, if
/// every member is a string.
pub open spec fn exports_of_members(members: Seq<(Seq<char>, serde_json::Value)>) -> Option<
    Seq<(Seq<char>, Seq<char>)>,
> {
    if forall|i: int|
        0 <= i < members.len() ==> json_string_value(#[trigger] members[i].1) is Some {
        Some(Seq::new(members.len(), |i: int| (members[i].0, json_string_value(members[i].1)->0)))
    } else {
        None
    }
}

/// The manifest that a JSON value denotes: an object whose member
/// `manifest` maps paths to entries and whose member `exports` maps
/// specifiers to paths. Other members are ignored.
pub open spec fn manifest_of_document(document: serde_json::Value) -> Option<ManifestView> {
    match json_object_members(document) {
        None => None,
        Some(top) => match (member_value(top, "manifest"@), member_value(top, "exports"@)) {
            (Some(manifest), Some(exports)) => match (
                json_object_members(manifest),
                json_object_members(exports),
            ) {
                (Some(entries), Some(listed)) => match (
                    files_of_members(entries),
                    exports_of_members(listed),
                ) {
                    (Some(files), Some(exports)) => Some(ManifestView { files, exports }),
                    _ => None,
                },
                _ => None,
            },
            _ => None,
        },
    }
}

/// The manifest that the bytes served by the registry denote.
pub open spec fn decoded_manifest(meta: Seq<u8>) -> Result<ManifestView, VerifyFailure> {
    match json_document(meta) {
        None => Err(VerifyFailure::InvalidJson),
        Some(document) => match manifest_of_document(document) {
            None => Err(VerifyFailure::InvalidManifest),
            Some(manifest) => Ok(manifest),
        },
    }
}

/// The verdict on the bytes served by the registry, held against a package.
pub open spec fn verification_verdict(meta: Seq<u8>, package: PackageView) -> Result<
    (),
    VerifyFailure,
> {
    match decoded_manifest(meta) {
        Err(failure) => Err(failure),
        Ok(manifest) => manifest_verdict(manifest, package),
    }
}

fn checksum_of(value: &serde_json::Value) -> (checksum: Option<String>)
    ensures
        match checksum {
            Some(sum) => entry_checksum(*value) == Some(sum@),
            None => entry_checksum(*value) is None,
        },
{
    match object_members(value) {
        None => None,
        Some(fields) => match find_member(&fields, "checksum") {
            None => None,
            Some(sum) => string_value(sum),
        },
    }
}

fn files_from_members(members: &Vec<(String, serde_json::Value)>) -> (files: Option<
    Vec<(String, ManifestEntry)>,
>)
    ensures
        match files {
            Some(list) => files_of_members(members_view(members@)) == Some(
                Seq::new(list@.len(), |i: int| (list@[i].0@, list@[i].1.checksum@)),
            ),
            None => files_of_members(members_view(members@)) is None,
        },
{
    let ghost all = members_view(members@);
    let mut list: Vec<(String, ManifestEntry)> = Vec::new();
    let mut i: usize = 0;
    while i < members.len()
        invariant
            i <= members@.len(),
            all == members_view(members@),
            list@.len() == i,
            forall|k: int|
                0 <= k < i ==> entry_checksum(#[trigger] all[k].1) == Some(list@[k].1.checksum@)
                    && list@[k].0@ == all[k].0,
        decreases members@.len() - i,
    {
        match checksum_of(&members[i].1) {
            None => {
                assert(entry_checksum(all[i as int].1) is None);
                return None;
            },
            Some(checksum) => {
                list.push((members[i].0.clone(), ManifestEntry { checksum }));
            },
        }
        i += 1;
    }
    assert(files_of_members(all)->0 =~= Seq::new(
        list@.len(),
        |i: int| (list@[i].0@, list@[i].1.checksum@),
    ));
    Some(list)
}

fn exports_from_members(members: &Vec<(String, serde_json::Value)>) -> (exports: Option<
    Vec<(String, String)>,
>)
    ensures
        match exports {
            Some(list) => exports_of_members(members_view(members@)) == Some(pairs_view(list@)),
            None => exports_of_members(members_view(members@)) is None,
        },
{
    let ghost all = members_view(members@);
    let mut list: Vec<(String, String)> = Vec::new();
    let mut i: usize = 0;
    while i < members.len()
        invariant
            i <= members@.len(),
            all == members_view(members@),
            list@.len() == i,
            forall|k: int|
                0 <= k < i ==> json_string_value(#[trigger] all[k].1) == Some(list@[k].1@)
                    && list@[k].0@ == all[k].0,
        decreases members@.len() - i,
    {
        match string_value(&members[i].1) {
            None => {
                assert(json_string_value(all[i as int].1) is None);
                return None;
            },
            Some(target) => {
                list.push((members[i].0.clone(), target));
            },
        }
        i += 1;
    }
    assert(exports_of_members(all)->0 =~= pairs_view(list@));
    Some(list)
}

fn manifest_from_document(document: &serde_json::Value) -> (manifest: Option<VersionManifest>)
    ensures
        match manifest {
            Some(m) => manifest_of_document(*document) == Some(m@),
            None => manifest_of_document(*document) is None,
        },
{
    let top = match object_members(document) {
        None => {
            return None;
        },
        Some(top) => top,
    };
    let entries = match find_member(&top, "manifest") {
        None => {
            return None;
        },
        Some(value) => match object_members(value) {
            None => {
                return None;
            },
            Some(entries) => entries,
        },
    };
    let listed = match find_member(&top, "exports") {
        None => {
            return None;
        },
        Some(value) => match object_members(value) {
            None => {
                return None;
            },
            Some(listed) => listed,
        },
    };
    let manifest = match files_from_members(&entries) {
        None => {
            return None;
        },
        Some(manifest) => manifest,
    };
    let exports = match exports_from_members(&listed) {
        None => {
            return None;
        },
        Some(exports) => exports,
    };
    Some(VersionManifest { manifest, exports })
}

/// Decodes the bytes served by the registry as a version manifest.
pub fn decode_version_manifest(meta_bytes: &[u8]) -> (decoded: Result<VersionManifest, VerifyError>)
    ensures
        match decoded {
            Ok(manifest) => decoded_manifest(meta_bytes@) == Ok::<ManifestView, VerifyFailure>(
                manifest@,
            ),
            Err(e) => decoded_manifest(meta_bytes@) == Err::<ManifestView, VerifyFailure>(e@),
        },
{
    match parse_document(meta_bytes) {
        Err(_) => Err(VerifyError::InvalidJson),
        Ok(document) => match manifest_from_document(&document) {
            None => Err(VerifyError::InvalidManifest),
            Some(manifest) => Ok(manifest),
        },
    }
}

/// Decodes the registry's manifest of a version and holds it against the
/// package that was uploaded.
pub fn verify_version_manifest(meta_bytes: &[u8], package: &PreparedPublishPackage) -> (result: Result<
    (),
    VerifyError,
>)
    ensures
        carries(result, verification_verdict(meta_bytes@, package@)),
{
    match decode_version_manifest(meta_bytes) {
        Err(e) => Err(e),
        Ok(manifest) => check_version_manifest(&manifest, package),
    }
}

/// The manifest that records a package exactly as it is: every file with
/// its own checksum, and the package's own exports.
pub open spec fn own_manifest(package: PackageView) -> ManifestView {
    ManifestView {
        files: Seq::new(
            package.tarball.files.len(),
            |i: int| (package.tarball.files[i].path, package.tarball.files[i].hash),
        ),
        exports: package.exports,
    }
}

proof fn lemma_file_found(files: Seq<FileView>, i: int)
    requires
        0 <= i < files.len(),
        forall|a: int, b: int| 0 <= a < b < files.len() ==> files[a].path != files[b].path,
    ensures
        file_at_path(files, files[i].path) == Some(files[i]),
    decreases files.len(),
{
    if i > 0 {
        let rest = files.drop_first();
        assert forall|a: int, b: int| 0 <= a < b < rest.len() implies rest[a].path
            != rest[b].path by {
            assert(rest[a] == files[a + 1] && rest[b] == files[b + 1]);
        }
        lemma_file_found(rest, i - 1);
        assert(rest[i - 1] == files[i]);
    }
}

proof fn lemma_export_found(exports: Seq<(Seq<char>, Seq<char>)>, i: int)
    requires
        0 <= i < exports.len(),
        forall|a: int, b: int| 0 <= a < b < exports.len() ==> exports[a].0 != exports[b].0,
    ensures
        export_target(exports, exports[i].0) == Some(exports[i].1),
    decreases exports.len(),
{
    if i > 0 {
        let rest = exports.drop_first();
        assert forall|a: int, b: int| 0 <= a < b < rest.len() implies rest[a].0 != rest[b].0 by {
            assert(rest[a] == exports[a + 1] && rest[b] == exports[b + 1]);
        }
        lemma_export_found(rest, i - 1);
        assert(rest[i - 1] == exports[i]);
    }
}

proof fn lemma_no_entry_fails(entries: Seq<(Seq<char>, Seq<char>)>, files: Seq<FileView>)
    requires
        forall|i: int| 0 <= i < entries.len() ==> entry_failure(#[trigger] entries[i], files) is None,
    ensures
        first_entry_failure(entries, files) is None,
    decreases entries.len(),
{
    if entries.len() > 0 {
        let rest = entries.drop_first();
        assert forall|i: int| 0 <= i < rest.len() implies entry_failure(
            #[trigger] rest[i],
            files,
        ) is None by {
            assert(rest[i] == entries[i + 1]);
        }
        lemma_no_entry_fails(rest, files);
    }
}

proof fn lemma_no_export_fails(
    listed: Seq<(Seq<char>, Seq<char>)>,
    exports: Seq<(Seq<char>, Seq<char>)>,
)
    requires
        forall|i: int|
            0 <= i < listed.len() ==> export_failure(#[trigger] listed[i], exports) is None,
    ensures
        first_export_failure(listed, exports) is None,
    decreases listed.len(),
{
    if listed.len() > 0 {
        let rest = listed.drop_first();
        assert forall|i: int| 0 <= i < rest.len() implies export_failure(
            #[trigger] rest[i],
            exports,
        ) is None by {
            assert(rest[i] == listed[i + 1]);
        }
        lemma_no_export_fails(rest, exports);
    }
}

/// `manifest` records nothing but what `package` holds: as many entries as
/// the package has files, each entry the path and checksum of one of the
/// package's files, and each export one of the package's exports. The
/// order of the entries and of the exports is free.
pub open spec fn records_package(manifest: ManifestView, package: PackageView) -> bool {
    &&& manifest.files.len() == package.tarball.files.len()
    &&& forall|i: int|
        0 <= i < manifest.files.len() ==> exists|j: int|
            0 <= j < package.tarball.files.len() && #[trigger] manifest.files[i] == (
                package.tarball.files[j].path,
                package.tarball.files[j].hash,
            )
    &&& forall|i: int|
        0 <= i < manifest.exports.len() ==> package.exports.contains(#[trigger] manifest.exports[i])
}

/// A manifest that records nothing but what a package holds verifies
/// against that package, whatever the order of its entries, provided the
/// package's file paths are pairwise distinct and so are its export
/// specifiers.
pub proof fn lemma_recording_manifest_verifies(manifest: ManifestView, package: PackageView)
    requires
        package.well_formed(),
        records_package(manifest, package),
    ensures
        manifest_verdict(manifest, package) is Ok,
{
    let files = package.tarball.files;
    assert forall|i: int| 0 <= i < manifest.files.len() implies entry_failure(
        #[trigger] manifest.files[i],
        files,
    ) is None by {
        let j = choose|j: int|
            0 <= j < files.len() && manifest.files[i] == (files[j].path, files[j].hash);
        lemma_file_found(files, j);
    }
    lemma_no_entry_fails(manifest.files, files);
    assert forall|i: int| 0 <= i < manifest.exports.len() implies export_failure(
        #[trigger] manifest.exports[i],
        package.exports,
    ) is None by {
        assert(package.exports.contains(manifest.exports[i]));
        let j = choose|j: int|
            0 <= j < package.exports.len() && package.exports[j] == manifest.exports[i];
        lemma_export_found(package.exports, j);
    }
    lemma_no_export_fails(manifest.exports, package.exports);
}

/// A manifest that records a package exactly as it is verifies against that
/// package, provided the package's file paths are pairwise distinct and so
/// are its export specifiers.
pub proof fn lemma_own_manifest_verifies(package: PackageView)
    requires
        package.well_formed(),
    ensures
        manifest_verdict(own_manifest(package), package) is Ok,
{
    let manifest = own_manifest(package);
    assert forall|i: int| 0 <= i < manifest.exports.len() implies package.exports.contains(
        #[trigger] manifest.exports[i],
    ) by {
        assert(package.exports[i] == manifest.exports[i]);
    }
    assert(records_package(manifest, package));
    lemma_recording_manifest_verifies(manifest, package);
}

} // verus!
