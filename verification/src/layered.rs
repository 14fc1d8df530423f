//! The layered filesystem: an ordered list of content layers — folders,
//! UPKF archives, VPK archives — scanned front to back, first match wins.
//!
//! Every layer gets a stable opaque identity at creation; file handles
//! carry that identity instead of a borrow, so the layer list stays free
//! to change between queries. What a folder layer holds depends on the
//! disk and can only be probed; archive layers are fully indexed in
//! memory, and for them every operation here is specified exactly.

use vstd::prelude::*;
use crate::strutil::{str_eq, spec_extension, extension_of, concat3_str, string_from_utf8};
use crate::upkf::{Upkf, UpkfError, UpkfView, spec_upkf_contains, spec_upkf_first_match, spec_load};
use crate::vpk::{Vpk, VpkError, VpkView, VpkDirEntry, spec_vpk_lookup, spec_vpk_load, VPK_DIR_INDEX};
use vstd::utf8::{valid_utf8, decode_utf8};

verus! {

/// Errors of provider dispatch when a layer is added.
#[derive(Debug)]
pub enum LayeredFSError {
    /// The path is no directory and carries no extension.
    NoExtension,
    /// No registered provider recognizes this extension.
    Unsupported(String),
}

/// Errors of file lookup and reading.
#[derive(Debug, PartialEq, Eq, Structural)]
pub enum FsError {
    /// No layer holds the path.
    NotFound,
    /// The bytes are not valid text.
    InvalidData,
    /// The handle's content is not resident in memory; it must be read
    /// from the backing file.
    NotResident,
}

/// What a layer reports about itself.
pub struct LayerMeta {
    pub origin: Option<String>,
    pub filename: String,
    pub size: Option<u64>,
}

/// Relies on std::path::Path::is_dir: whether the path names a directory
/// on disk right now; nothing can be promised of the answer.
#[verifier::external_body]
fn path_is_dir(p: &str) -> bool {
    std::path::Path::new(p).is_dir()
}

/// Relies on std::path::Path::exists: whether the path exists on disk
/// right now; nothing can be promised of the answer.
#[verifier::external_body]
fn path_exists(p: &str) -> bool {
    std::path::Path::new(p).exists()
}

/// Relies on uuid::Uuid::new_v4: a freshly drawn random identity,
/// reduced to its 128-bit value; nothing can be promised of it.
#[verifier::external_body]
fn fresh_id() -> u128 {
    uuid::Uuid::new_v4().as_u128()
}

/// A layer backed by a plain directory; resolution probes the disk.
pub struct FolderLayer {
    path: String,
    id: u128,
}

/// A layer backed by a fully loaded UPKF archive.
pub struct UpkfLayer {
    upkf: Upkf,
    path: String,
    file_size: u64,
    id: u128,
}

/// A layer backed by a parsed VPK directory index.
pub struct VpkLayer {
    vpk: Vpk,
    file_size: u64,
    id: u128,
}

/// One backing content source: the closed set of layer kinds.
pub enum Layer {
    Folder(FolderLayer),
    Upkf(UpkfLayer),
    Vpk(VpkLayer),
}

/// The mathematical model of a layer.
pub ghost enum LayerView {
    Folder { path: Seq<char>, id: u128 },
    Upkf { archive: UpkfView, path: Seq<char>, size: u64, id: u128 },
    Vpk { index: VpkView, size: u64, id: u128 },
}

impl View for Layer {
    type V = LayerView;

    closed spec fn view(&self) -> LayerView {
        match self {
            Layer::Folder(f) => LayerView::Folder { path: f.path@, id: f.id },
            Layer::Upkf(u) => LayerView::Upkf {
                archive: u.upkf@,
                path: u.path@,
                size: u.file_size,
                id: u.id,
            },
            Layer::Vpk(v) => LayerView::Vpk { index: v.vpk@, size: v.file_size, id: v.id },
        }
    }
}

/// The identity a layer carries.
pub open spec fn layer_id(l: LayerView) -> u128 {
    match l {
        LayerView::Folder { id, .. } => id,
        LayerView::Upkf { id, .. } => id,
        LayerView::Vpk { id, .. } => id,
    }
}

/// Whether a layer's index is fully known in memory (it is no folder).
pub open spec fn is_archive(l: LayerView) -> bool {
    !(l is Folder)
}

/// Whether an archive layer holds `name`; meaningful only when
/// `is_archive(l)` — a folder's answer lives on the disk.
pub open spec fn archive_contains(l: LayerView, name: Seq<char>) -> bool {
    match l {
        LayerView::Folder { .. } => false,
        LayerView::Upkf { archive, .. } => spec_upkf_contains(archive.entries, name),
        LayerView::Vpk { index, .. } => spec_vpk_lookup(index.files, name) is Some,
    }
}

/// The concrete location a layer resolves `name` to.
pub open spec fn spec_layer_resolve(l: LayerView, name: Seq<char>) -> Seq<char> {
    match l {
        LayerView::Folder { path, .. } => path + "/"@ + name,
        LayerView::Upkf { path, .. } => path + "!/"@ + name,
        LayerView::Vpk { index, .. } => index.path + "!/"@ + name,
    }
}

/// A transient file handle: the caller owns it; it never borrows a layer.
pub enum LayeredFile {
    /// A file in a folder layer: the resolved on-disk location it is
    /// read from lazily, and the path it was asked for as.
    Folder { location: String, path: String, layer: u128 },
    /// A file in a UPKF layer: its decompressed content, already resident.
    Upkf { content: Vec<u8>, path: String, layer: u128 },
    /// A file in a VPK layer: where its payload sits, to be read lazily.
    /// `archive_path` is always the directory file's path; when the
    /// entry's `archive_index` names a numbered archive instead of the
    /// directory, `offset` is the recorded offset within that archive and
    /// the caller must locate the archive itself.
    Vpk { archive_path: String, offset: u64, length: u32, path: String, layer: u128 },
}

/// The mathematical model of a file handle.
pub ghost enum LayeredFileView {
    Folder { location: Seq<char>, path: Seq<char>, layer: u128 },
    Upkf { content: Seq<u8>, path: Seq<char>, layer: u128 },
    Vpk { archive_path: Seq<char>, offset: u64, length: u32, path: Seq<char>, layer: u128 },
}

impl View for LayeredFile {
    type V = LayeredFileView;

    closed spec fn view(&self) -> LayeredFileView {
        match self {
            LayeredFile::Folder { location, path, layer } => LayeredFileView::Folder {
                location: location@,
                path: path@,
                layer: *layer,
            },
            LayeredFile::Upkf { content, path, layer } => LayeredFileView::Upkf {
                content: content@,
                path: path@,
                layer: *layer,
            },
            LayeredFile::Vpk { archive_path, offset, length, path, layer } => LayeredFileView::Vpk {
                archive_path: archive_path@,
                offset: *offset,
                length: *length,
                path: path@,
                layer: *layer,
            },
        }
    }
}

/// The identity a handle carries.
pub open spec fn file_layer(f: LayeredFileView) -> u128 {
    match f {
        LayeredFileView::Folder { layer, .. } => layer,
        LayeredFileView::Upkf { layer, .. } => layer,
        LayeredFileView::Vpk { layer, .. } => layer,
    }
}

/// The path a handle was resolved under.
pub open spec fn file_path(f: LayeredFileView) -> Seq<char> {
    match f {
        LayeredFileView::Folder { path, .. } => path,
        LayeredFileView::Upkf { path, .. } => path,
        LayeredFileView::Vpk { path, .. } => path,
    }
}

/// The size a handle knows without touching the disk.
pub open spec fn spec_file_size(f: LayeredFileView) -> Option<u64> {
    match f {
        LayeredFileView::Folder { .. } => None,
        LayeredFileView::Upkf { content, .. } => Some(content.len() as u64),
        LayeredFileView::Vpk { length, .. } => Some(length as u64),
    }
}

impl LayeredFile {
    /// The identity of the layer this handle came from.
    pub fn layer(&self) -> (r: u128)
        ensures
            r == file_layer(self@),
    {
        match self {
            LayeredFile::Folder { layer, .. } => *layer,
            LayeredFile::Upkf { layer, .. } => *layer,
            LayeredFile::Vpk { layer, .. } => *layer,
        }
    }

    /// The path the handle was resolved under.
    pub fn path(&self) -> (r: &String)
        ensures
            r@ == file_path(self@),
    {
        match self {
            LayeredFile::Folder { path, .. } => path,
            LayeredFile::Upkf { path, .. } => path,
            LayeredFile::Vpk { path, .. } => path,
        }
    }

    /// The file's size, where it is known without touching the disk:
    /// a folder-backed file must be measured by the caller.
    pub fn size(&self) -> (r: Option<u64>)
        ensures
            r == spec_file_size(self@),
    {
        match self {
            LayeredFile::Folder { .. } => None,
            LayeredFile::Upkf { content, .. } => Some(content.len() as u64),
            LayeredFile::Vpk { length, .. } => Some(*length as u64),
        }
    }

    /// The resident bytes of the file. Content backed by a folder or a
    /// VPK payload is not resident: the caller reads it from disk.
    pub fn read(&self) -> (r: Result<Vec<u8>, FsError>)
        ensures
            match self@ {
                LayeredFileView::Upkf { content, .. } => r matches Ok(v) && v@ == content,
                _ => r == Err::<Vec<u8>, FsError>(FsError::NotResident),
            },
    {
        match self {
            LayeredFile::Upkf { content, .. } => Ok(content.clone()),
            _ => Err(FsError::NotResident),
        }
    }

    /// The resident bytes decoded as text; `InvalidData` when they are
    /// not valid UTF-8.
    pub fn read_string(&self) -> (r: Result<String, FsError>)
        ensures
            match self@ {
                LayeredFileView::Upkf { content, .. } => {
                    if valid_utf8(content) {
                        r matches Ok(s) && s@ == decode_utf8(content)
                    } else {
                        r == Err::<String, FsError>(FsError::InvalidData)
                    }
                },
                _ => r == Err::<String, FsError>(FsError::NotResident),
            },
    {
        match self {
            LayeredFile::Upkf { content, .. } => match string_from_utf8(content.clone()) {
                Some(s) => Ok(s),
                None => Err(FsError::InvalidData),
            },
            _ => Err(FsError::NotResident),
        }
    }
}

/// What a UPKF layer hands out for `name`, when it holds it.
pub open spec fn spec_upkf_get(archive: UpkfView, id: u128, name: Seq<char>) -> LayeredFileView {
    LayeredFileView::Upkf {
        content: archive.entries[spec_upkf_first_match(archive.entries, name)].content,
        path: name,
        layer: id,
    }
}

/// Where a VPK payload sits in its backing file: past the header and
/// directory tree when it follows the directory, else at the recorded
/// offset of its numbered archive.
pub open spec fn spec_vpk_data_offset(index: VpkView, e: VpkDirEntry) -> u64 {
    if e.archive_index == VPK_DIR_INDEX {
        ((if index.version == 1 {
            12u64
        } else {
            28u64
        }) + index.tree_length + e.entry_offset) as u64
    } else {
        e.entry_offset as u64
    }
}

/// What a VPK layer hands out for `name`, when it holds it.
pub open spec fn spec_vpk_get(index: VpkView, id: u128, name: Seq<char>) -> LayeredFileView {
    let e = spec_vpk_lookup(index.files, name)->Some_0;
    LayeredFileView::Vpk {
        archive_path: index.path,
        offset: spec_vpk_data_offset(index, e),
        length: e.entry_length,
        path: name,
        layer: id,
    }
}

/// What an archive layer hands out for `name`; meaningful only when
/// `archive_contains(l, name)`.
pub open spec fn spec_layer_get(l: LayerView, name: Seq<char>) -> LayeredFileView {
    match l {
        LayerView::Folder { path, id } => LayeredFileView::Folder {
            location: path + "/"@ + name,
            path: name,
            layer: id,
        },
        LayerView::Upkf { archive, id, .. } => spec_upkf_get(archive, id, name),
        LayerView::Vpk { index, id, .. } => spec_vpk_get(index, id, name),
    }
}

impl Layer {
    /// The layer's stable opaque identity.
    pub fn uuid(&self) -> (r: u128)
        ensures
            r == layer_id(self@),
    {
        match self {
            Layer::Folder(f) => f.id,
            Layer::Upkf(u) => u.id,
            Layer::Vpk(v) => v.id,
        }
    }

    /// The concrete location this layer resolves `filename` to: a real
    /// path under a folder layer, a virtual `archive!/member` location
    /// under an archive layer.
    pub fn resolve(&self, filename: &str) -> (r: String)
        ensures
            r@ == spec_layer_resolve(self@, filename@),
    {
        match self {
            Layer::Folder(f) => concat3_str(f.path.as_str(), "/", filename),
            Layer::Upkf(u) => concat3_str(u.path.as_str(), "!/", filename),
            Layer::Vpk(v) => concat3_str(v.vpk.get_path().as_str(), "!/", filename),
        }
    }

    /// Whether the layer holds `filename`. For archive layers the answer
    /// is exact; a folder layer probes the disk.
    pub fn contains(&self, filename: &str) -> (r: bool)
        ensures
            is_archive(self@) ==> r == archive_contains(self@, filename@),
    {
        match self {
            Layer::Folder(f) => {
                let p = concat3_str(f.path.as_str(), "/", filename);
                path_exists(p.as_str())
            },
            Layer::Upkf(u) => u.upkf.contains_path(filename),
            Layer::Vpk(v) => v.vpk.contains_path(filename),
        }
    }

    /// Hands out a file handle for `filename`. For archive layers this is
    /// exact: a handle exactly when the layer holds the path, else
    /// `NotFound`. A folder layer probes the disk and hands out the
    /// resolved path on success.
    pub fn get_file(&self, filename: &str) -> (r: Result<LayeredFile, FsError>)
        ensures
            is_archive(self@) && archive_contains(self@, filename@) ==> (r matches Ok(f) && f@
                == spec_layer_get(self@, filename@)),
            self@ is Folder && r is Ok ==> r->Ok_0@ == spec_layer_get(self@, filename@),
            is_archive(self@) && !archive_contains(self@, filename@) ==> r == Err::<
                LayeredFile,
                FsError,
            >(FsError::NotFound),
            r matches Err(e) ==> e == FsError::NotFound,
            r matches Ok(f) ==> file_layer(f@) == layer_id(self@) && file_path(f@) == filename@,
    {
        match self {
            Layer::Folder(f) => {
                let p = concat3_str(f.path.as_str(), "/", filename);
                if path_exists(p.as_str()) {
                    let path_string = <String as vstd::string::StringExecFns>::from_str(filename);
                    Ok(LayeredFile::Folder { location: p, path: path_string, layer: f.id })
                } else {
                    Err(FsError::NotFound)
                }
            },
            Layer::Upkf(u) => match u.upkf.find(filename) {
                Some(el) => Ok(
                    LayeredFile::Upkf {
                        content: el.get_content().clone(),
                        path: <String as vstd::string::StringExecFns>::from_str(filename),
                        layer: u.id,
                    },
                ),
                None => Err(FsError::NotFound),
            },
            Layer::Vpk(v) => match v.vpk.find(filename) {
                Some(e) => {
                    let hdr: u64 = if v.vpk.version() == 1 {
                        12
                    } else {
                        28
                    };
                    let offset: u64 = if e.archive_index == VPK_DIR_INDEX {
                        hdr + v.vpk.tree_length() as u64 + e.entry_offset as u64
                    } else {
                        e.entry_offset as u64
                    };
                    Ok(
                        LayeredFile::Vpk {
                            archive_path: v.vpk.get_path().clone(),
                            offset,
                            length: e.entry_length,
                            path: <String as vstd::string::StringExecFns>::from_str(filename),
                            layer: v.id,
                        },
                    )
                },
                None => Err(FsError::NotFound),
            },
        }
    }

    /// The layer's own description: origin, display name, size.
    pub fn meta(&self) -> (r: LayerMeta)
        ensures
            match self@ {
                LayerView::Folder { path, .. } => r.origin is None && r.filename@ == path
                    && r.size is None,
                LayerView::Upkf { archive, path, size, .. } => (r.origin matches Some(o)
                    && o@ == archive.origin) && r.filename@ == path && r.size == Some(size),
                LayerView::Vpk { index, size, .. } => r.origin is None && r.filename@
                    == index.path && r.size == Some(size),
            },
    {
        match self {
            Layer::Folder(f) => LayerMeta {
                origin: None,
                filename: f.path.clone(),
                size: None,
            },
            Layer::Upkf(u) => LayerMeta {
                origin: Some(u.upkf.get_origin().clone()),
                filename: u.path.clone(),
                size: Some(u.file_size),
            },
            Layer::Vpk(v) => LayerMeta {
                origin: None,
                filename: v.vpk.get_path().clone(),
                size: Some(v.file_size),
            },
        }
    }
}

/// Whether every layer's index is fully known in memory.
pub open spec fn all_archives(layers: Seq<LayerView>) -> bool {
    forall|i: int| 0 <= i < layers.len() ==> is_archive(#[trigger] layers[i])
}

/// Whether some layer's in-memory index holds `name`.
pub open spec fn spec_any_hit(layers: Seq<LayerView>, name: Seq<char>) -> bool {
    exists|i: int| 0 <= i < layers.len() && archive_contains(#[trigger] layers[i], name)
}

/// The index of the first layer whose in-memory index holds `name`.
pub open spec fn spec_first_hit(layers: Seq<LayerView>, name: Seq<char>) -> int
    decreases layers.len(),
{
    if layers.len() == 0 {
        0
    } else if archive_contains(layers[0], name) {
        0
    } else {
        1 + spec_first_hit(layers.drop_first(), name)
    }
}

/// The index of the last layer whose in-memory index holds `name`.
pub open spec fn spec_last_hit(layers: Seq<LayerView>, name: Seq<char>) -> int
    decreases layers.len(),
{
    if layers.len() == 0 {
        0
    } else if archive_contains(layers[layers.len() - 1], name) {
        layers.len() - 1
    } else {
        spec_last_hit(layers.drop_last(), name)
    }
}

/// Whether every layer up to and including the first in-memory hit is an
/// archive: then no folder layer stands where the disk could preempt it.
pub open spec fn archives_until_first_hit(layers: Seq<LayerView>, name: Seq<char>) -> bool {
    forall|j: int|
        0 <= j <= spec_first_hit(layers, name) && j < layers.len() ==> is_archive(
            #[trigger] layers[j],
        )
}

pub proof fn lemma_first_hit_props(layers: Seq<LayerView>, name: Seq<char>)
    requires
        spec_any_hit(layers, name),
    ensures
        0 <= spec_first_hit(layers, name) < layers.len(),
        archive_contains(layers[spec_first_hit(layers, name)], name),
        forall|j: int| 0 <= j < spec_first_hit(layers, name) ==> !archive_contains(
            #[trigger] layers[j],
            name,
        ),
    decreases layers.len(),
{
    if !archive_contains(layers[0], name) {
        let rest = layers.drop_first();
        assert(spec_any_hit(rest, name)) by {
            let w = choose|i: int|
                0 <= i < layers.len() && archive_contains(#[trigger] layers[i], name);
            assert(rest[w - 1] == layers[w]);
        }
        lemma_first_hit_props(rest, name);
        assert(forall|j: int| 1 <= j < layers.len() ==> rest[j - 1] == #[trigger] layers[j]);
    }
}

/// Where a front-to-back scan stopped: if it stopped at `i` having seen
/// no earlier archive hit, and the layers up to the first hit are all
/// archives, then `i` is exactly the first hit.
proof fn lemma_scan_stops_at_first_hit(layers: Seq<LayerView>, name: Seq<char>, i: int)
    requires
        0 <= i < layers.len(),
        forall|j: int|
            0 <= j < i && is_archive(#[trigger] layers[j]) ==> !archive_contains(layers[j], name),
        is_archive(layers[i]) ==> archive_contains(layers[i], name),
    ensures
        (spec_any_hit(layers, name) && archives_until_first_hit(layers, name)) ==> (i
            == spec_first_hit(layers, name) && is_archive(layers[i]) && archive_contains(
            layers[i],
            name,
        )),
{
    if spec_any_hit(layers, name) && archives_until_first_hit(layers, name) {
        lemma_first_hit_props(layers, name);
        let k = spec_first_hit(layers, name);
        if i < k {
            assert(is_archive(layers[i]));
            assert(false);
        }
        if i > k {
            assert(is_archive(layers[k]));
            assert(false);
        }
    }
}

/// A scan that saw no archive hit anywhere proves no layer's in-memory
/// index holds the name.
proof fn lemma_scan_found_nothing(layers: Seq<LayerView>, name: Seq<char>)
    requires
        forall|j: int|
            0 <= j < layers.len() && is_archive(#[trigger] layers[j]) ==> !archive_contains(
                layers[j],
                name,
            ),
    ensures
        !spec_any_hit(layers, name),
{
    assert forall|j: int| 0 <= j < layers.len() implies !archive_contains(
        #[trigger] layers[j],
        name,
    ) by {
        if !is_archive(layers[j]) {
            assert(layers[j] is Folder);
        }
    }
}

pub proof fn lemma_first_hit(layers: Seq<LayerView>, name: Seq<char>, i: int)
    requires
        0 <= i < layers.len(),
        archive_contains(layers[i], name),
        forall|j: int| 0 <= j < i ==> !archive_contains(#[trigger] layers[j], name),
    ensures
        spec_first_hit(layers, name) == i,
    decreases layers.len(),
{
    if !archive_contains(layers[0], name) {
        assert(forall|j: int| 0 <= j < i - 1 ==> !archive_contains(
            #[trigger] layers.drop_first()[j],
            name,
        ));
        lemma_first_hit(layers.drop_first(), name, i - 1);
    }
}

pub proof fn lemma_last_hit(layers: Seq<LayerView>, name: Seq<char>, i: int)
    requires
        0 <= i < layers.len(),
        archive_contains(layers[i], name),
        forall|j: int| i < j < layers.len() ==> !archive_contains(#[trigger] layers[j], name),
    ensures
        spec_last_hit(layers, name) == i,
    decreases layers.len(),
{
    if !archive_contains(layers[layers.len() - 1], name) {
        assert(forall|j: int| i < j < layers.len() - 1 ==> !archive_contains(
            #[trigger] layers.drop_last()[j],
            name,
        ));
        lemma_last_hit(layers.drop_last(), name, i);
    }
}

/// Layer precedence flips under reversal: where some layer holds `name`,
/// the first hit of the reversed list is the mirrored last hit of the
/// original, so the layer that loses a tie before `reverse` wins it
/// after. (Folders never count as holding a name here: what they hold
/// lives on the disk and is outside this model.)
pub proof fn lemma_reverse_precedence(layers: Seq<LayerView>, name: Seq<char>)
    requires
        spec_any_hit(layers, name),
    ensures
        spec_any_hit(layers.reverse(), name),
        0 <= spec_last_hit(layers, name) < layers.len(),
        archive_contains(layers[spec_last_hit(layers, name)], name),
        spec_first_hit(layers.reverse(), name) == layers.len() - 1 - spec_last_hit(layers, name),
{
    let w = choose|i: int| 0 <= i < layers.len() && archive_contains(#[trigger] layers[i], name);
    let r = layers.reverse();
    lemma_last_hit_exists(layers, name, w);
    let lh = spec_last_hit(layers, name);
    assert(r[layers.len() - 1 - lh] == layers[lh]);
    assert(spec_any_hit(r, name)) by {
        assert(0 <= layers.len() - 1 - lh < r.len() && archive_contains(
            r[layers.len() - 1 - lh],
            name,
        ));
    }
    assert forall|j: int| 0 <= j < layers.len() - 1 - lh implies !archive_contains(
        #[trigger] r[j],
        name,
    ) by {
        assert(r[j] == layers[layers.len() - 1 - j]);
    }
    lemma_first_hit(r, name, layers.len() - 1 - lh);
}

proof fn lemma_last_hit_exists(layers: Seq<LayerView>, name: Seq<char>, w: int)
    requires
        0 <= w < layers.len(),
        archive_contains(layers[w], name),
    ensures
        0 <= spec_last_hit(layers, name) < layers.len(),
        archive_contains(layers[spec_last_hit(layers, name)], name),
        forall|j: int| spec_last_hit(layers, name) < j < layers.len() ==> !archive_contains(
            #[trigger] layers[j],
            name,
        ),
    decreases layers.len(),
{
    if !archive_contains(layers[layers.len() - 1], name) {
        assert(layers.drop_last()[w] == layers[w]);
        lemma_last_hit_exists(layers.drop_last(), name, w);
        let lh = spec_last_hit(layers, name);
        assert forall|j: int| lh < j < layers.len() implies !archive_contains(
            #[trigger] layers[j],
            name,
        ) by {
            if j < layers.len() - 1 {
                assert(layers.drop_last()[j] == layers[j]);
            }
        }
    }
}

/// The closed set of layer providers, tried in registration order.
#[derive(Debug, Clone, Copy, PartialEq, Eq, Structural)]
pub enum ProviderKind {
    Folder,
    Upkf,
    Vpk,
}

/// Recognizes directories.
pub struct FolderLayerProvider {}

/// Recognizes existing `.upkf` archives.
pub struct UpkfLayerProvider {}

/// Recognizes existing `.vpk` directory files.
pub struct VpkLayerProvider {}

impl FolderLayerProvider {
    /// Whether the path names a directory on disk; the answer is the
    /// disk's, so nothing further can be promised of it.
    pub fn supports(&self, path: &str) -> bool {
        path_is_dir(path)
    }
}

impl UpkfLayerProvider {
    /// Whether the path carries the `upkf` extension and exists on disk.
    pub fn supports(&self, path: &str) -> (r: bool)
        ensures
            r ==> spec_extension(path@) == Some("upkf"@),
    {
        match extension_of(path) {
            Some(e) => str_eq(e.as_str(), "upkf") && path_exists(path),
            None => false,
        }
    }
}

impl VpkLayerProvider {
    /// Whether the path carries the `vpk` extension and exists on disk.
    pub fn supports(&self, path: &str) -> (r: bool)
        ensures
            r ==> spec_extension(path@) == Some("vpk"@),
    {
        match extension_of(path) {
            Some(e) => str_eq(e.as_str(), "vpk") && path_exists(path),
            None => false,
        }
    }
}

/// Where a new layer lands in the list.
pub open spec fn insert_layer(layers: Seq<LayerView>, l: LayerView, prepend: bool) -> Seq<
    LayerView,
> {
    if prepend {
        seq![l] + layers
    } else {
        layers.push(l)
    }
}

/// The mathematical model of the overlay engine.
pub ghost struct LayeredFSView {
    pub providers: Seq<ProviderKind>,
    pub layers: Seq<LayerView>,
}

/// The overlay engine: a provider registry and an ordered list of
/// layers, front first.
pub struct LayeredFS {
    providers: Vec<ProviderKind>,
    layers: Vec<Layer>,
}

impl View for LayeredFS {
    type V = LayeredFSView;

    closed spec fn view(&self) -> LayeredFSView {
        LayeredFSView {
            providers: self.providers@,
            layers: Seq::new(self.layers@.len(), |i: int| self.layers@[i]@),
        }
    }
}

impl LayeredFS {
    /// A fresh engine with the folder and VPK providers registered, in
    /// that order, and no layers.
    pub fn new() -> (r: LayeredFS)
        ensures
            r@.providers =~= seq![ProviderKind::Folder, ProviderKind::Vpk],
            r@.layers =~= Seq::<LayerView>::empty(),
    {
        let mut providers: Vec<ProviderKind> = Vec::new();
        providers.push(ProviderKind::Folder);
        providers.push(ProviderKind::Vpk);
        LayeredFS { providers, layers: Vec::new() }
    }

    /// Registers one more provider; it is tried after the existing ones.
    pub fn add_layer_provider(&mut self, kind: ProviderKind)
        ensures
            final(self)@.providers =~= old(self)@.providers.push(kind),
            final(self)@.layers == old(self)@.layers,
    {
        self.providers.push(kind);
        proof {
            assert(self@.layers =~= old(self)@.layers);
        }
    }

    /// How many layers the engine holds.
    pub fn layer_count(&self) -> (r: usize)
        ensures
            r == self@.layers.len(),
    {
        self.layers.len()
    }

    /// The layer at `i`, front first.
    pub fn layer_at(&self, i: usize) -> (r: &Layer)
        requires
            i < self@.layers.len(),
        ensures
            r@ == self@.layers[i as int],
    {
        &self.layers[i]
    }

    /// Picks the provider for `path`: the first registered one that
    /// supports it. With none, a path without an extension is refused as
    /// `NoExtension`, one with an unrecognized extension as
    /// `Unsupported` carrying that extension.
    pub fn select_provider(&self, path: &str) -> (r: Result<ProviderKind, LayeredFSError>)
        ensures
            r matches Ok(k) ==> self@.providers.contains(k),
            r matches Ok(k) && k == ProviderKind::Upkf ==> spec_extension(path@) == Some(
                "upkf"@,
            ),
            r matches Ok(k) && k == ProviderKind::Vpk ==> spec_extension(path@) == Some("vpk"@),
            r matches Err(e) && e is NoExtension ==> spec_extension(path@) is None,
            r matches Err(e) ==> (e matches LayeredFSError::Unsupported(x) ==> spec_extension(
                path@,
            ) == Some(x@)),
    {
        let n = self.providers.len();
        let mut i: usize = 0;
        while i < n
            invariant
                n == self.providers@.len(),
                i <= n,
                self@.providers == self.providers@,
            decreases n - i,
        {
            let kind = self.providers[i];
            let hit = match kind {
                ProviderKind::Folder => (FolderLayerProvider {}).supports(path),
                ProviderKind::Upkf => (UpkfLayerProvider {}).supports(path),
                ProviderKind::Vpk => (VpkLayerProvider {}).supports(path),
            };
            if hit {
                proof {
                    assert(self@.providers[i as int] == kind);
                }
                return Ok(kind);
            }
            i = i + 1;
        }
        match extension_of(path) {
            None => Err(LayeredFSError::NoExtension),
            Some(e) => Err(LayeredFSError::Unsupported(e)),
        }
    }

    /// Whether any layer, scanned front to back, holds `filename`.
    /// Exact over archive layers; folder layers probe the disk.
    pub fn contains(&self, filename: &str) -> (r: bool)
        ensures
            spec_any_hit(self@.layers, filename@) ==> r,
            all_archives(self@.layers) ==> r == spec_any_hit(self@.layers, filename@),
    {
        let n = self.layers.len();
        let mut i: usize = 0;
        while i < n
            invariant
                n == self.layers@.len(),
                i <= n,
                forall|j: int| 0 <= j < i && is_archive(#[trigger] self@.layers[j])
                    ==> !archive_contains(self@.layers[j], filename@),
            decreases n - i,
        {
            assert(self@.layers[i as int] == self.layers@[i as int]@);
            if self.layers[i].contains(filename) {
                return true;
            }
            i = i + 1;
        }
        false
    }

    /// Hands out a file handle for `filename` from the first layer that
    /// holds it, front to back. Over archive layers this is exact:
    /// the winning layer is the first hit, and a path no layer holds is
    /// `NotFound`. Folder layers answer for the disk, so with them in
    /// the list only the handle's own fields are promised.
    pub fn get_file(&self, filename: &str) -> (r: Result<LayeredFile, FsError>)
        ensures
            spec_any_hit(self@.layers, filename@) && archives_until_first_hit(
                self@.layers,
                filename@,
            ) ==> (r matches Ok(f) && f@ == spec_layer_get(
                self@.layers[spec_first_hit(self@.layers, filename@)],
                filename@,
            )),
            all_archives(self@.layers) && !spec_any_hit(self@.layers, filename@) ==> r == Err::<
                LayeredFile,
                FsError,
            >(FsError::NotFound),
            r matches Err(e) ==> e == FsError::NotFound,
            r matches Ok(f) ==> file_path(f@) == filename@ && exists|i: int|
                0 <= i < self@.layers.len() && file_layer(f@) == layer_id(
                    #[trigger] self@.layers[i],
                ),
    {
        let n = self.layers.len();
        let mut i: usize = 0;
        while i < n
            invariant
                n == self.layers@.len(),
                i <= n,
                forall|j: int| 0 <= j < i && is_archive(#[trigger] self@.layers[j])
                    ==> !archive_contains(self@.layers[j], filename@),
            decreases n - i,
        {
            assert(self@.layers[i as int] == self.layers@[i as int]@);
            if self.layers[i].contains(filename) {
                let r = self.layers[i].get_file(filename);
                proof {
                    lemma_scan_stops_at_first_hit(self@.layers, filename@, i as int);
                }
                return r;
            }
            i = i + 1;
        }
        proof {
            lemma_scan_found_nothing(self@.layers, filename@);
        }
        Err(FsError::NotFound)
    }

    /// The concrete location `filename` resolves to, from the first
    /// layer that holds it; `None` when no layer does.
    pub fn resolve(&self, filename: &str) -> (r: Option<String>)
        ensures
            spec_any_hit(self@.layers, filename@) && archives_until_first_hit(
                self@.layers,
                filename@,
            ) ==> (r matches Some(s) && s@ == spec_layer_resolve(
                self@.layers[spec_first_hit(self@.layers, filename@)],
                filename@,
            )),
            all_archives(self@.layers) && !spec_any_hit(self@.layers, filename@) ==> r is None,
    {
        let n = self.layers.len();
        let mut i: usize = 0;
        while i < n
            invariant
                n == self.layers@.len(),
                i <= n,
                forall|j: int| 0 <= j < i && is_archive(#[trigger] self@.layers[j])
                    ==> !archive_contains(self@.layers[j], filename@),
            decreases n - i,
        {
            assert(self@.layers[i as int] == self.layers@[i as int]@);
            if self.layers[i].contains(filename) {
                let s = self.layers[i].resolve(filename);
                proof {
                    lemma_scan_stops_at_first_hit(self@.layers, filename@, i as int);
                }
                return Some(s);
            }
            i = i + 1;
        }
        proof {
            lemma_scan_found_nothing(self@.layers, filename@);
        }
        None
    }

    /// Reverses the layer order in place, flipping overall precedence.
    pub fn reverse(&mut self)
        ensures
            final(self)@.layers == old(self)@.layers.reverse(),
            final(self)@.providers == old(self)@.providers,
    {
        let ghost l0 = self@.layers;
        let mut out: Vec<Layer> = Vec::new();
        proof {
            assert(Seq::new(self.layers@.len(), |i: int| self.layers@[i]@) + Seq::new(
                out@.len(),
                |i: int| out@[i]@,
            ).reverse() =~= l0);
        }
        while self.layers.len() > 0
            invariant
                Seq::new(self.layers@.len(), |i: int| self.layers@[i]@) + Seq::new(
                    out@.len(),
                    |i: int| out@[i]@,
                ).reverse() =~= l0,
                self@.providers == old(self)@.providers,
            decreases self.layers@.len(),
        {
            let ghost cur = Seq::new(self.layers@.len(), |i: int| self.layers@[i]@);
            let ghost acc = Seq::new(out@.len(), |i: int| out@[i]@);
            let x = self.layers.pop().unwrap();
            out.push(x);
            proof {
                let cur2 = Seq::new(self.layers@.len(), |i: int| self.layers@[i]@);
                let acc2 = Seq::new(out@.len(), |i: int| out@[i]@);
                assert(cur2 =~= cur.drop_last());
                assert(acc2 =~= acc.push(x@));
                assert(acc2.reverse() =~= seq![x@] + acc.reverse());
                assert(cur2 + acc2.reverse() =~= cur + acc.reverse());
            }
        }
        self.layers = out;
        proof {
            assert(Seq::new(old(self).layers@.len(), |i: int| old(self).layers@[i]@)
                == old(self)@.layers);
            assert(self@.layers =~= l0.reverse()) by {
                let fin = Seq::new(self.layers@.len(), |i: int| self.layers@[i]@);
                assert(fin.reverse() =~= l0);
                assert(fin.reverse().reverse() =~= fin);
            }
        }
    }

    /// The first layer carrying this identity, if any is in the list.
    pub fn find_layer(&self, uuid: u128) -> (r: Option<&Layer>)
        ensures
            match r {
                Some(l) => layer_id(l@) == uuid && exists|i: int|
                    0 <= i < self@.layers.len() && #[trigger] self@.layers[i] == l@,
                None => forall|i: int| 0 <= i < self@.layers.len() ==> layer_id(
                    #[trigger] self@.layers[i],
                ) != uuid,
            },
    {
        let n = self.layers.len();
        let mut i: usize = 0;
        while i < n
            invariant
                n == self.layers@.len(),
                i <= n,
                forall|j: int| 0 <= j < i ==> layer_id(#[trigger] self@.layers[j]) != uuid,
            decreases n - i,
        {
            assert(self@.layers[i as int] == self.layers@[i as int]@);
            if self.layers[i].uuid() == uuid {
                return Some(&self.layers[i]);
            }
            i = i + 1;
        }
        None
    }

    /// Appends or prepends a folder layer over `path`, under a fresh
    /// identity. Construction cannot fail: the folder is probed lazily.
    pub fn add_folder_layer(&mut self, path: String, prepend: bool)
        ensures
            exists|nid: u128|
                final(self)@.layers == #[trigger] insert_layer(
                    old(self)@.layers,
                    LayerView::Folder { path: path@, id: nid },
                    prepend,
                ),
            final(self)@.providers == old(self)@.providers,
    {
        let id = fresh_id();
        let layer = Layer::Folder(FolderLayer { path, id });
        self.insert(layer, prepend);
    }

    /// Parses `data` as a UPKF archive read from `path` and, on success,
    /// appends or prepends a layer over it under a fresh identity; with
    /// `check_content` every element's digests are verified. On failure
    /// the error is handed back and the engine is left untouched.
    pub fn add_upkf_layer(
        &mut self,
        path: String,
        data: &[u8],
        check_content: bool,
        prepend: bool,
    ) -> (r: Result<(), UpkfError>)
        ensures
            match r {
                Ok(_) => spec_load(data@, check_content) matches Ok(lv) && exists|nid: u128|
                    final(self)@.layers == #[trigger] insert_layer(
                        old(self)@.layers,
                        LayerView::Upkf {
                            archive: UpkfView {
                                origin: lv.origin,
                                path: Some(path@),
                                entries: lv.entries,
                            },
                            path: path@,
                            size: data@.len() as u64,
                            id: nid,
                        },
                        prepend,
                    ),
                Err(e) => spec_load(data@, check_content) == Err::<
                    crate::upkf::LoadedView,
                    UpkfError,
                >(e) && final(self)@ == old(self)@,
            },
            final(self)@.providers == old(self)@.providers,
    {
        let u = match Upkf::from_bytes(data, Some(path.clone()), check_content) {
            Ok(u) => u,
            Err(e) => {
                return Err(e);
            },
        };
        let id = fresh_id();
        let size = data.len() as u64;
        let layer = Layer::Upkf(UpkfLayer { upkf: u, path, file_size: size, id });
        self.insert(layer, prepend);
        Ok(())
    }

    /// Parses `data` as a VPK directory file read from `path` and, on
    /// success, appends or prepends a layer over it under a fresh
    /// identity. On failure the error is handed back and the engine is
    /// left untouched.
    pub fn add_vpk_layer(&mut self, path: String, data: &[u8], prepend: bool) -> (r: Result<
        (),
        VpkError,
    >)
        ensures
            match r {
                Ok(_) => spec_vpk_load(data@) matches Ok(pv) && exists|nid: u128|
                    final(self)@.layers == #[trigger] insert_layer(
                        old(self)@.layers,
                        LayerView::Vpk {
                            index: VpkView {
                                version: pv.version,
                                path: path@,
                                tree_length: pv.tree_length,
                                files: pv.files,
                            },
                            size: data@.len() as u64,
                            id: nid,
                        },
                        prepend,
                    ),
                Err(e) => spec_vpk_load(data@) == Err::<crate::vpk::VpkParsed, VpkError>(e)
                    && final(self)@ == old(self)@,
            },
            final(self)@.providers == old(self)@.providers,
    {
        let v = match Vpk::from_bytes(data, path) {
            Ok(v) => v,
            Err(e) => {
                return Err(e);
            },
        };
        let id = fresh_id();
        let size = data.len() as u64;
        let layer = Layer::Vpk(VpkLayer { vpk: v, file_size: size, id });
        self.insert(layer, prepend);
        Ok(())
    }

    /// Puts a constructed layer at the front or the back of the list.
    fn insert(&mut self, layer: Layer, prepend: bool)
        ensures
            final(self)@.layers == insert_layer(old(self)@.layers, layer@, prepend),
            final(self)@.providers == old(self)@.providers,
    {
        if prepend {
            self.layers.insert(0, layer);
            proof {
                assert(self@.layers =~= insert_layer(old(self)@.layers, layer@, true));
            }
        } else {
            self.layers.push(layer);
            proof {
                assert(self@.layers =~= insert_layer(old(self)@.layers, layer@, false));
            }
        }
    }
}

} // verus!
