//! Structured representation of a datapackage manifest.
//!
//! The manifest sits at the root of the WACZ and lists, for every
//! resource in the archive, its path, its SHA-256 hash and its byte
//! count, alongside the creation time and the producing software.

use vstd::prelude::*;

use crate::bytes_util::{
    append_bytes, append_json_escaped, append_lit, dec_digits, json_escaped, lit_bytes,
    push_decimal,
};
use crate::errors::IndexingError;
use crate::indexer::cdxj::{cdxj_lines_from, join_lf, to_cdxj_string};
use crate::indexer::pages::{pages_lines, to_pages_json_string};
use crate::indexer::record::IndexRecord;
use crate::indexer::records_view;

verus! {

/// What hashing bytes with SHA-256 and rendering the digest as
/// lowercase hex yields: a function of the input bytes alone.
pub uninterp spec fn sha256_hex_of(data: Seq<u8>) -> Seq<u8>;

/// Hash `data` with SHA-256 and render the digest as lowercase hex.
///
/// Relies on sha2's `Sha256::digest`, whose 32-byte output depends on
/// the input alone, and on the lowercase-hex rendering of that output:
/// two hex digits per byte, 64 bytes in all.
#[verifier::external_body]
fn sha256_hex(data: &[u8]) -> (r: Vec<u8>)
    ensures
        r@ == sha256_hex_of(data@),
        r@.len() == 64,
{
    let digest = <sha2::Sha256 as sha2::Digest>::digest(data);
    format!("{:x}", digest).into_bytes()
}

/// The local time as an RFC 3339 string.
///
/// Relies on chrono's `Local::now` and `to_rfc3339`; the result depends
/// on the clock and the machine's time zone, so only the shape of the
/// rendering is promised: `to_rfc3339` writes ASCII digits and the
/// separators `-`, `:`, `.`, `T`, `+`, so every byte is printable
/// ASCII and never a quote or a backslash.
#[verifier::external_body]
fn now_rfc3339() -> (r: Vec<u8>)
    ensures
        forall|i: int|
            0 <= i < r@.len() ==> 32 <= #[trigger] r@[i] <= 126 && r@[i] != 34 && r@[i] != 92,
{
    chrono::Local::now().to_rfc3339().into_bytes()
}

/// The kind of a resource in the archive, which fixes its directory and
/// its manifest name.
#[derive(Clone, Copy, Debug, PartialEq, Eq, Structural)]
pub enum ResourceType {
    CDXJ,
    Pages,
    Warc,
}

/// Why assembling a datapackage failed.
#[derive(Clone, Copy, Debug, PartialEq, Eq, Structural)]
pub enum DataPackageError {
    /// The source file's name is missing or cannot be read as text.
    FileNameError,
    /// The source file's path cannot be used.
    FilePathError,
    /// The source file could not be read.
    FileReadError,
    /// Projecting the index to CDXJ failed.
    IndexingFailed(IndexingError),
}

/// The mathematical content of a [`DataPackageResource`].
#[verifier::ext_equal]
pub ghost struct ResourceData {
    pub path: Seq<u8>,
    pub resource_type: ResourceType,
    pub hash: Seq<u8>,
    pub bytes: int,
    pub content: Seq<u8>,
}

/// A resource listed in the datapackage: its path in the archive, its
/// hash, its size, and the raw bytes it was built from.
#[derive(Debug, Clone)]
pub struct DataPackageResource {
    pub path: Vec<u8>,
    pub resource_type: ResourceType,
    pub hash: Vec<u8>,
    pub bytes: usize,
    /// The raw content of the resource, not written into the manifest.
    pub content: Vec<u8>,
}

impl View for DataPackageResource {
    type V = ResourceData;

    open spec fn view(&self) -> ResourceData {
        ResourceData {
            path: self.path@,
            resource_type: self.resource_type,
            hash: self.hash@,
            bytes: self.bytes as int,
            content: self.content@,
        }
    }
}

/// The mathematical content of a [`DataPackage`].
#[verifier::ext_equal]
pub ghost struct DataPackageData {
    pub profile: Seq<u8>,
    pub wacz_version: Seq<u8>,
    pub created: Seq<u8>,
    pub software: Seq<u8>,
    pub resources: Seq<ResourceData>,
}

/// The manifest for the web archive: creation metadata and the list of
/// resources with their fixity information.
#[derive(Debug)]
pub struct DataPackage {
    pub profile: Vec<u8>,
    pub wacz_version: Vec<u8>,
    /// Creation instant, the local time in RFC 3339 form.
    pub created: Vec<u8>,
    pub software: Vec<u8>,
    pub resources: Vec<DataPackageResource>,
}

impl View for DataPackage {
    type V = DataPackageData;

    open spec fn view(&self) -> DataPackageData {
        DataPackageData {
            profile: self.profile@,
            wacz_version: self.wacz_version@,
            created: self.created@,
            software: self.software@,
            resources: self.resources@.map_values(|r: DataPackageResource| r@),
        }
    }
}

/// A digest of the manifest file itself.
pub struct DataPackageDigest {
    pub path: Vec<u8>,
    pub hash: Vec<u8>,
}

/// The directory a resource of this type sits under.
pub open spec fn resource_prefix(t: ResourceType) -> Seq<u8> {
    match t {
        ResourceType::CDXJ => lit_bytes("indexes/"@),
        ResourceType::Pages => lit_bytes("pages/"@),
        ResourceType::Warc => lit_bytes("archive/"@),
    }
}

/// The manifest name of a resource of this type.
pub open spec fn resource_name(t: ResourceType) -> Seq<u8> {
    match t {
        ResourceType::CDXJ => lit_bytes("crawl_index"@),
        ResourceType::Pages => lit_bytes("pages_file"@),
        ResourceType::Warc => lit_bytes("web_archive_file"@),
    }
}

/// The JSON object of one resource in the manifest.
pub open spec fn resource_json(r: ResourceData) -> Seq<u8> {
    lit_bytes("{\"name\":\""@) + resource_name(r.resource_type) + lit_bytes("\",\"path\":\""@)
        + json_escaped(r.path) + lit_bytes("\",\"hash\":\""@) + json_escaped(r.hash) + lit_bytes(
        "\",\"bytes\":"@,
    ) + dec_digits(r.bytes as nat) + lit_bytes("}"@)
}

/// Resource objects joined with commas.
pub open spec fn join_comma(parts: Seq<Seq<u8>>) -> Seq<u8>
    decreases parts.len(),
{
    if parts.len() == 0 {
        Seq::empty()
    } else if parts.len() == 1 {
        parts[0]
    } else {
        join_comma(parts.drop_last()) + seq![44u8] + parts.last()
    }
}

/// The JSON text of the whole manifest.
pub open spec fn datapackage_json(d: DataPackageData) -> Seq<u8> {
    lit_bytes("{\"profile\":\"data-package\",\"wacz_version\":\""@) + json_escaped(
        d.wacz_version,
    ) + lit_bytes("\",\"created\":\""@) + json_escaped(d.created) + lit_bytes(
        "\",\"software\":\""@,
    ) + json_escaped(d.software) + lit_bytes("\",\"resources\":["@) + join_comma(
        d.resources.map_values(|r: ResourceData| resource_json(r)),
    ) + lit_bytes("]}"@)
}

/// The JSON text of the manifest digest object.
pub open spec fn digest_json(path: Seq<u8>, hash: Seq<u8>) -> Seq<u8> {
    lit_bytes("{\"path\":\""@) + json_escaped(path) + lit_bytes("\",\"hash\":\""@) + json_escaped(
        hash,
    ) + lit_bytes("\"}"@)
}

impl DataPackageResource {
    /// Describe one resource: its path under the directory its type
    /// fixes, the SHA-256 hash of its bytes, and their count.
    pub fn new(resource_type: ResourceType, file_name: &[u8], file_bytes: &[u8]) -> (r: Result<
        Self,
        DataPackageError,
    >)
        ensures
            r matches Ok(res) && res@ == (ResourceData {
                path: resource_prefix(resource_type) + file_name@,
                resource_type: resource_type,
                hash: lit_bytes("sha256:"@) + sha256_hex_of(file_bytes@),
                bytes: file_bytes@.len() as int,
                content: file_bytes@,
            }),
    {
        proof {
            reveal_strlit("indexes/");
            reveal_strlit("pages/");
            reveal_strlit("archive/");
            reveal_strlit("sha256:");
        }
        let mut path: Vec<u8> = Vec::new();
        match resource_type {
            ResourceType::CDXJ => append_lit(&mut path, "indexes/"),
            ResourceType::Pages => append_lit(&mut path, "pages/"),
            ResourceType::Warc => append_lit(&mut path, "archive/"),
        }
        append_bytes(&mut path, file_name);
        let mut hash: Vec<u8> = Vec::new();
        append_lit(&mut hash, "sha256:");
        let hex = sha256_hex(file_bytes);
        append_bytes(&mut hash, hex.as_slice());
        let res = DataPackageResource {
            path,
            resource_type,
            hash,
            bytes: file_bytes.len(),
            content: vstd::slice::slice_to_vec(file_bytes),
        };
        proof {
            assert(res@ =~= (ResourceData {
                path: resource_prefix(resource_type) + file_name@,
                resource_type: resource_type,
                hash: lit_bytes("sha256:"@) + sha256_hex_of(file_bytes@),
                bytes: file_bytes@.len() as int,
                content: file_bytes@,
            }));
        }
        Ok(res)
    }

    /// Serialise this resource to its manifest JSON object.
    pub fn to_json_string(&self) -> (r: Vec<u8>)
        ensures
            r@ == resource_json(self@),
    {
        proof {
            reveal_strlit("{\"name\":\"");
            reveal_strlit("\",\"path\":\"");
            reveal_strlit("\",\"hash\":\"");
            reveal_strlit("\",\"bytes\":");
            reveal_strlit("}");
            reveal_strlit("crawl_index");
            reveal_strlit("pages_file");
            reveal_strlit("web_archive_file");
        }
        let mut out: Vec<u8> = Vec::new();
        append_lit(&mut out, "{\"name\":\"");
        match self.resource_type {
            ResourceType::CDXJ => append_lit(&mut out, "crawl_index"),
            ResourceType::Pages => append_lit(&mut out, "pages_file"),
            ResourceType::Warc => append_lit(&mut out, "web_archive_file"),
        }
        append_lit(&mut out, "\",\"path\":\"");
        append_json_escaped(&mut out, self.path.as_slice());
        append_lit(&mut out, "\",\"hash\":\"");
        append_json_escaped(&mut out, self.hash.as_slice());
        append_lit(&mut out, "\",\"bytes\":");
        push_decimal(&mut out, self.bytes);
        append_lit(&mut out, "}");
        proof {
            assert(out@ =~= resource_json(self@));
        }
        out
    }
}

impl Default for DataPackage {
    /// An empty manifest, stamped with the current local time.
    fn default() -> (r: Self)
        ensures
            r@.profile == lit_bytes("data-package"@),
            r@.wacz_version == lit_bytes("1.1.1"@),
            r@.software == lit_bytes("wacksy 0.2.0"@),
            r@.resources == Seq::<ResourceData>::empty(),
    {
        proof {
            reveal_strlit("data-package");
            reveal_strlit("1.1.1");
            reveal_strlit("wacksy 0.2.0");
        }
        let r = DataPackage {
            profile: crate::bytes_util::ascii_bytes("data-package"),
            wacz_version: crate::bytes_util::ascii_bytes("1.1.1"),
            created: now_rfc3339(),
            software: crate::bytes_util::ascii_bytes("wacksy 0.2.0"),
            resources: Vec::new(),
        };
        proof {
            assert(r@.resources =~= Seq::<ResourceData>::empty());
        }
        r
    }
}

impl DataPackage {
    /// Compose the manifest for one WARC file and its index: the WARC
    /// itself, the CDXJ index and the pages file, each hashed and
    /// placed at its fixed path in the archive.
    ///
    /// Fails with the underlying indexing error exactly when the CDXJ
    /// projection fails on a retained record's timestamp.
    pub fn new(warc_file_name: &[u8], warc_bytes: &[u8], index: &[IndexRecord]) -> (r: Result<
        Self,
        DataPackageError,
    >)
        ensures
            match r {
                Ok(dp) => {
                    &&& cdxj_lines_from(records_view(index@), 0) matches Ok(ls)
                    &&& dp@.resources.len() == 3
                    &&& dp@.resources[0] == (ResourceData {
                        path: resource_prefix(ResourceType::Warc) + warc_file_name@,
                        resource_type: ResourceType::Warc,
                        hash: lit_bytes("sha256:"@) + sha256_hex_of(warc_bytes@),
                        bytes: warc_bytes@.len() as int,
                        content: warc_bytes@,
                    })
                    &&& dp@.resources[1] == (ResourceData {
                        path: resource_prefix(ResourceType::CDXJ) + lit_bytes("index.cdxj"@),
                        resource_type: ResourceType::CDXJ,
                        hash: lit_bytes("sha256:"@) + sha256_hex_of(
                            join_lf(cdxj_lines_from(records_view(index@), 0)->Ok_0),
                        ),
                        bytes: join_lf(cdxj_lines_from(records_view(index@), 0)->Ok_0).len() as int,
                        content: join_lf(cdxj_lines_from(records_view(index@), 0)->Ok_0),
                    })
                    &&& dp@.resources[2] == (ResourceData {
                        path: resource_prefix(ResourceType::Pages) + lit_bytes("pages.jsonl"@),
                        resource_type: ResourceType::Pages,
                        hash: lit_bytes("sha256:"@) + sha256_hex_of(
                            join_lf(pages_lines(records_view(index@))),
                        ),
                        bytes: join_lf(pages_lines(records_view(index@))).len() as int,
                        content: join_lf(pages_lines(records_view(index@))),
                    })
                    &&& dp@.profile == lit_bytes("data-package"@)
                    &&& dp@.wacz_version == lit_bytes("1.1.1"@)
                    &&& dp@.software == lit_bytes("wacksy 0.2.0"@)
                },
                Err(e) => {
                    &&& cdxj_lines_from(records_view(index@), 0) matches Err(e2) && e
                        == DataPackageError::IndexingFailed(e2)
                },
            },
    {
        proof {
            reveal_strlit("index.cdxj");
            reveal_strlit("pages.jsonl");
        }
        let mut data_package = Self::default();
        let warc_resource = match DataPackageResource::new(
            ResourceType::Warc,
            warc_file_name,
            warc_bytes,
        ) {
            Ok(res) => res,
            Err(e) => {
                return Err(e);
            },
        };
        Self::add_resource(&mut data_package, warc_resource);
        let cdxj_bytes = match to_cdxj_string(index) {
            Ok(b) => b,
            Err(e) => {
                return Err(DataPackageError::IndexingFailed(e));
            },
        };
        let cdxj_name = crate::bytes_util::ascii_bytes("index.cdxj");
        let cdxj_resource = match DataPackageResource::new(
            ResourceType::CDXJ,
            cdxj_name.as_slice(),
            cdxj_bytes.as_slice(),
        ) {
            Ok(res) => res,
            Err(e) => {
                return Err(e);
            },
        };
        Self::add_resource(&mut data_package, cdxj_resource);
        let pages_bytes = to_pages_json_string(index);
        let pages_name = crate::bytes_util::ascii_bytes("pages.jsonl");
        let pages_resource = match DataPackageResource::new(
            ResourceType::Pages,
            pages_name.as_slice(),
            pages_bytes.as_slice(),
        ) {
            Ok(res) => res,
            Err(e) => {
                return Err(e);
            },
        };
        Self::add_resource(&mut data_package, pages_resource);
        proof {
            assert(data_package@.resources.len() == 3);
        }
        Ok(data_package)
    }

    /// Push one resource onto the manifest's resource list.
    pub fn add_resource(data_package: &mut Self, resource: DataPackageResource)
        ensures
            final(data_package)@ == (DataPackageData {
                resources: old(data_package)@.resources.push(resource@),
                ..old(data_package)@
            }),
    {
        data_package.resources.push(resource);
        proof {
            assert(data_package@.resources =~= old(data_package)@.resources.push(resource@));
            assert(data_package@ =~= (DataPackageData {
                resources: old(data_package)@.resources.push(resource@),
                ..old(data_package)@
            }));
        }
    }

    /// Serialise the manifest to its JSON text.
    pub fn to_json_string(&self) -> (r: Vec<u8>)
        ensures
            r@ == datapackage_json(self@),
    {
        proof {
            reveal_strlit("{\"profile\":\"data-package\",\"wacz_version\":\"");
            reveal_strlit("\",\"created\":\"");
            reveal_strlit("\",\"software\":\"");
            reveal_strlit("\",\"resources\":[");
            reveal_strlit("]}");
        }
        let ghost objs = self@.resources.map_values(|r: ResourceData| resource_json(r));
        let mut out: Vec<u8> = Vec::new();
        append_lit(&mut out, "{\"profile\":\"data-package\",\"wacz_version\":\"");
        append_json_escaped(&mut out, self.wacz_version.as_slice());
        append_lit(&mut out, "\",\"created\":\"");
        append_json_escaped(&mut out, self.created.as_slice());
        append_lit(&mut out, "\",\"software\":\"");
        append_json_escaped(&mut out, self.software.as_slice());
        append_lit(&mut out, "\",\"resources\":[");
        let ghost head = out@;
        let mut i: usize = 0;
        while i < self.resources.len()
            invariant
                i <= self.resources@.len(),
                objs == self@.resources.map_values(|r: ResourceData| resource_json(r)),
                out@ == head + join_comma(objs.subrange(0, i as int)),
            decreases self.resources@.len() - i,
        {
            if i > 0 {
                out.push(44);
            }
            let obj = self.resources[i].to_json_string();
            append_bytes(&mut out, obj.as_slice());
            proof {
                let pre = objs.subrange(0, i as int);
                let cur = objs.subrange(0, i + 1);
                assert(cur.drop_last() =~= pre);
                assert(cur.last() == resource_json(self@.resources[i as int]));
                if i > 0 {
                    assert(out@ =~= head + (join_comma(pre) + seq![44u8] + cur.last()));
                } else {
                    assert(join_comma(pre) =~= Seq::<u8>::empty());
                    assert(out@ =~= head + cur.last());
                }
                assert(out@ =~= head + join_comma(cur));
            }
            i = i + 1;
        }
        proof {
            assert(objs.subrange(0, objs.len() as int) =~= objs);
        }
        append_lit(&mut out, "]}");
        proof {
            assert(out@ =~= datapackage_json(self@));
        }
        out
    }

    /// Hash the manifest's JSON text into the digest object that sits
    /// beside it in the archive.
    pub fn digest(&self) -> (r: DataPackageDigest)
        ensures
            r.path@ == lit_bytes("datapackage.json"@),
            r.hash@ == lit_bytes("sha256:"@) + sha256_hex_of(datapackage_json(self@)),
    {
        proof {
            reveal_strlit("datapackage.json");
            reveal_strlit("sha256:");
        }
        let json = self.to_json_string();
        let mut hash: Vec<u8> = Vec::new();
        append_lit(&mut hash, "sha256:");
        let hex = sha256_hex(json.as_slice());
        append_bytes(&mut hash, hex.as_slice());
        DataPackageDigest { path: crate::bytes_util::ascii_bytes("datapackage.json"), hash }
    }
}

impl DataPackageDigest {
    /// Serialise the digest to its JSON text.
    pub fn to_json_string(&self) -> (r: Vec<u8>)
        ensures
            r@ == digest_json(self.path@, self.hash@),
    {
        proof {
            reveal_strlit("{\"path\":\"");
            reveal_strlit("\",\"hash\":\"");
            reveal_strlit("\"}");
        }
        let mut out: Vec<u8> = Vec::new();
        append_lit(&mut out, "{\"path\":\"");
        append_json_escaped(&mut out, self.path.as_slice());
        append_lit(&mut out, "\",\"hash\":\"");
        append_json_escaped(&mut out, self.hash.as_slice());
        append_lit(&mut out, "\"}");
        proof {
            assert(out@ =~= digest_json(self.path@, self.hash@));
        }
        out
    }
}

impl DataPackageError {
    /// A short description of the error.
    pub fn message(&self) -> (r: Vec<u8>)
        ensures
            self is FileNameError ==> r@ == lit_bytes("file name error"@),
            self is FilePathError ==> r@ == lit_bytes("file path error"@),
            self is FileReadError ==> r@ == lit_bytes("could not read WARC file"@),
            self is IndexingFailed ==> r@ == lit_bytes("indexing error"@),
    {
        proof {
            reveal_strlit("file name error");
            reveal_strlit("file path error");
            reveal_strlit("could not read WARC file");
            reveal_strlit("indexing error");
        }
        match self {
            DataPackageError::FileNameError => crate::bytes_util::ascii_bytes("file name error"),
            DataPackageError::FilePathError => crate::bytes_util::ascii_bytes("file path error"),
            DataPackageError::FileReadError => crate::bytes_util::ascii_bytes(
                "could not read WARC file",
            ),
            DataPackageError::IndexingFailed(_) => crate::bytes_util::ascii_bytes(
                "indexing error",
            ),
        }
    }
}

} // verus!
