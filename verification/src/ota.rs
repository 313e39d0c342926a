use vstd::prelude::*;
use vstd::string::StringExecFns;

use base64::Engine;
use sha2::Digest;

use crate::format::{append_digits, nat_digits};
use std::collections::BTreeMap;

verus! {

/// The hash algorithm an OTA image checksum is made with, numbered as in the
/// IANA registry of named information hash algorithms.
#[derive(Clone, Copy, Debug, PartialEq, Eq, Structural)]
pub enum OtaChecksumType {
    NoChecksum,
    Sha256,
    Sha384,
    Sha512,
    Sha3_256,
    Sha3_384,
    Sha3_512,
}

/// The checksum type with number `code`, if there is one.
pub open spec fn checksum_type_of(code: u8) -> Option<OtaChecksumType> {
    if code == 0 {
        Some(OtaChecksumType::NoChecksum)
    } else if code == 1 {
        Some(OtaChecksumType::Sha256)
    } else if code == 7 {
        Some(OtaChecksumType::Sha384)
    } else if code == 8 {
        Some(OtaChecksumType::Sha512)
    } else if code == 10 {
        Some(OtaChecksumType::Sha3_256)
    } else if code == 11 {
        Some(OtaChecksumType::Sha3_384)
    } else if code == 12 {
        Some(OtaChecksumType::Sha3_512)
    } else {
        None
    }
}

impl OtaChecksumType {
    /// The checksum type with number `code`; the number itself when none has it.
    pub fn from_code(code: u8) -> (r: Result<OtaChecksumType, u8>)
        ensures
            match checksum_type_of(code) {
                Some(t) => r == Ok::<OtaChecksumType, u8>(t),
                None => r == Err::<OtaChecksumType, u8>(code),
            },
    {
        match code {
            0 => Ok(OtaChecksumType::NoChecksum),
            1 => Ok(OtaChecksumType::Sha256),
            7 => Ok(OtaChecksumType::Sha384),
            8 => Ok(OtaChecksumType::Sha512),
            10 => Ok(OtaChecksumType::Sha3_256),
            11 => Ok(OtaChecksumType::Sha3_384),
            12 => Ok(OtaChecksumType::Sha3_512),
            _ => Err(code),
        }
    }
}

/// A Matter product: vendor and product id.
#[derive(Clone, Copy, Debug, PartialEq, Eq, Structural, Hash)]
pub struct OtaProductId {
    pub vendor_id: u16,
    pub product_id: u16,
}

/// The key a product is stored under: vendor id in the high half, product id in the low.
pub open spec fn product_key(p: OtaProductId) -> u64 {
    (p.vendor_id as nat * 65536 + p.product_id as nat) as u64
}

impl OtaProductId {
    /// The key this product is stored under.
    pub fn key(&self) -> (k: u64)
        ensures
            k == product_key(*self),
    {
        self.vendor_id as u64 * 65536 + self.product_id as u64
    }
}

/// Distinct products have distinct keys.
pub proof fn lemma_product_key_injective(a: OtaProductId, b: OtaProductId)
    ensures
        product_key(a) == product_key(b) ==> a == b,
{
}

/// One released software version of a product, as the device ledger describes it.
#[derive(Clone, Debug)]
pub struct OtaVersion {
    pub version: u32,
    pub version_string: String,
    pub ota_url: String,
    pub ota_checksum: String,
    pub ota_checksum_type: OtaChecksumType,
    /// Lowest software version the image applies to.
    pub min_applicable_version: u32,
    /// Highest software version the image applies to.
    pub max_applicable_version: u32,
    pub release_notes_url: String,
    /// Whether the image is stored on disk.
    pub is_image_downloaded: bool,
}

/// An [`OtaVersion`] with its texts taken by their characters.
pub struct OtaVersionView {
    pub version: u32,
    pub version_string: Seq<char>,
    pub ota_url: Seq<char>,
    pub ota_checksum: Seq<char>,
    pub ota_checksum_type: OtaChecksumType,
    pub min_applicable_version: u32,
    pub max_applicable_version: u32,
    pub release_notes_url: Seq<char>,
    pub is_image_downloaded: bool,
}

impl View for OtaVersion {
    type V = OtaVersionView;

    open spec fn view(&self) -> OtaVersionView {
        OtaVersionView {
            version: self.version,
            version_string: self.version_string@,
            ota_url: self.ota_url@,
            ota_checksum: self.ota_checksum@,
            ota_checksum_type: self.ota_checksum_type,
            min_applicable_version: self.min_applicable_version,
            max_applicable_version: self.max_applicable_version,
            release_notes_url: self.release_notes_url@,
            is_image_downloaded: self.is_image_downloaded,
        }
    }
}

impl OtaVersion {
    /// Whether the image can be applied to a device running software version
    /// `software_version`: it lies in the version's applicable range, both ends included.
    pub fn applies_to(&self, software_version: u32) -> (r: bool)
        ensures
            r == (self.min_applicable_version <= software_version
                && software_version <= self.max_applicable_version),
    {
        self.min_applicable_version <= software_version && software_version <= self.max_applicable_version
    }
}

/// The outcome of fetching the version list of a product, by views.
pub open spec fn versions_result_view(r: Result<Vec<OtaVersion>, String>) -> Result<
    Seq<OtaVersionView>,
    Seq<char>,
> {
    match r {
        Ok(v) => Ok(version_views(v@)),
        Err(e) => Err(e@),
    }
}

/// The `modelVersion` object of the ledger's answer for one version.
pub struct OtaVersionResponseModelVersion {
    pub software_version: u32,
    pub software_version_string: String,
    pub ota_url: String,
    pub ota_checksum: String,
    pub ota_checksum_type: u8,
    pub min_applicable_software_version: u32,
    pub max_applicable_software_version: u32,
    pub release_notes_url: String,
}

/// The ledger's answer for one software version of a product.
pub struct OtaVersionResponse {
    pub model_version: OtaVersionResponseModelVersion,
}

/// The version described by `value`, not yet downloaded; the unknown checksum
/// type number as the error.
pub open spec fn version_from_response(value: OtaVersionResponse) -> Result<OtaVersion, u8> {
    match checksum_type_of(value.model_version.ota_checksum_type) {
        Some(t) => Ok(
            OtaVersion {
                version: value.model_version.software_version,
                version_string: value.model_version.software_version_string,
                ota_url: value.model_version.ota_url,
                ota_checksum: value.model_version.ota_checksum,
                ota_checksum_type: t,
                min_applicable_version: value.model_version.min_applicable_software_version,
                max_applicable_version: value.model_version.max_applicable_software_version,
                release_notes_url: value.model_version.release_notes_url,
                is_image_downloaded: false,
            },
        ),
        None => Err(value.model_version.ota_checksum_type),
    }
}

impl TryFrom<OtaVersionResponse> for OtaVersion {
    type Error = u8;

    fn try_from(value: OtaVersionResponse) -> (r: Result<OtaVersion, u8>)
        ensures
            r == version_from_response(value),
    {
        let m = value.model_version;
        let checksum_type = match OtaChecksumType::from_code(m.ota_checksum_type) {
            Ok(t) => t,
            Err(code) => {
                return Err(code);
            },
        };
        Ok(
            OtaVersion {
                version: m.software_version,
                version_string: m.software_version_string,
                ota_url: m.ota_url,
                ota_checksum: m.ota_checksum,
                ota_checksum_type: checksum_type,
                min_applicable_version: m.min_applicable_software_version,
                max_applicable_version: m.max_applicable_software_version,
                release_notes_url: m.release_notes_url,
                is_image_downloaded: false,
            },
        )
    }
}

impl vstd::std_specs::convert::TryFromSpecImpl<OtaVersionResponse> for OtaVersion {
    open spec fn obeys_try_from_spec() -> bool {
        true
    }

    open spec fn try_from_spec(v: OtaVersionResponse) -> Result<OtaVersion, u8> {
        version_from_response(v)
    }
}

/// Why an OTA image could not be had.
#[derive(Clone, Copy, Debug, PartialEq, Eq, Structural)]
pub enum FetchOtaError {
    /// The version list of the product is not loaded, or lacks the version.
    NotLoaded,
    /// The version has no image url to take a file name from.
    NoImageUrl,
    /// The image does not match the checksum of the version.
    ChecksumMissmatch,
    /// The ledger named a checksum type that has no number here.
    InvalidChecksumType(u8),
}

/// SHA-256 digest of `data`.
pub uninterp spec fn sha256_digest(data: Seq<u8>) -> Seq<u8>;

/// SHA-384 digest of `data`.
pub uninterp spec fn sha384_digest(data: Seq<u8>) -> Seq<u8>;

/// SHA-512 digest of `data`.
pub uninterp spec fn sha512_digest(data: Seq<u8>) -> Seq<u8>;

/// SHA3-256 digest of `data`.
pub uninterp spec fn sha3_256_digest(data: Seq<u8>) -> Seq<u8>;

/// SHA3-384 digest of `data`.
pub uninterp spec fn sha3_384_digest(data: Seq<u8>) -> Seq<u8>;

/// SHA3-512 digest of `data`.
pub uninterp spec fn sha3_512_digest(data: Seq<u8>) -> Seq<u8>;

/// The bytes that `text` stands for in standard, padded base64; `None` where it is
/// not valid base64.
pub uninterp spec fn base64_standard_decode(text: Seq<char>) -> Option<Seq<u8>>;

/// `sha2::Sha256::digest`: the claim is only that the digest is a function of the data.
#[verifier::external_body]
fn sha256_of(data: &[u8]) -> (r: Vec<u8>)
    ensures
        r@ == sha256_digest(data@),
{
    sha2::Sha256::digest(data).to_vec()
}

/// `sha2::Sha384::digest`: the claim is only that the digest is a function of the data.
#[verifier::external_body]
fn sha384_of(data: &[u8]) -> (r: Vec<u8>)
    ensures
        r@ == sha384_digest(data@),
{
    sha2::Sha384::digest(data).to_vec()
}

/// `sha2::Sha512::digest`: the claim is only that the digest is a function of the data.
#[verifier::external_body]
fn sha512_of(data: &[u8]) -> (r: Vec<u8>)
    ensures
        r@ == sha512_digest(data@),
{
    sha2::Sha512::digest(data).to_vec()
}

/// `sha3::Sha3_256::digest`: the claim is only that the digest is a function of the data.
#[verifier::external_body]
fn sha3_256_of(data: &[u8]) -> (r: Vec<u8>)
    ensures
        r@ == sha3_256_digest(data@),
{
    sha3::Sha3_256::digest(data).to_vec()
}

/// `sha3::Sha3_384::digest`: the claim is only that the digest is a function of the data.
#[verifier::external_body]
fn sha3_384_of(data: &[u8]) -> (r: Vec<u8>)
    ensures
        r@ == sha3_384_digest(data@),
{
    sha3::Sha3_384::digest(data).to_vec()
}

/// `sha3::Sha3_512::digest`: the claim is only that the digest is a function of the data.
#[verifier::external_body]
fn sha3_512_of(data: &[u8]) -> (r: Vec<u8>)
    ensures
        r@ == sha3_512_digest(data@),
{
    sha3::Sha3_512::digest(data).to_vec()
}

/// `base64::Engine::decode` with the standard engine: the claim is that the outcome,
/// bytes or failure, is a function of the text; the decode error itself is dropped.
#[verifier::external_body]
fn decode_base64(text: &str) -> (r: Option<Vec<u8>>)
    ensures
        match r {
            Some(bytes) => base64_standard_decode(text@) == Some(bytes@),
            None => base64_standard_decode(text@) is None,
        },
{
    base64::prelude::BASE64_STANDARD.decode(text).ok()
}

/// The digest of `image` under checksum type `kind`; none for [`OtaChecksumType::NoChecksum`].
pub open spec fn image_digest(kind: OtaChecksumType, image: Seq<u8>) -> Option<Seq<u8>> {
    match kind {
        OtaChecksumType::NoChecksum => None,
        OtaChecksumType::Sha256 => Some(sha256_digest(image)),
        OtaChecksumType::Sha384 => Some(sha384_digest(image)),
        OtaChecksumType::Sha512 => Some(sha512_digest(image)),
        OtaChecksumType::Sha3_256 => Some(sha3_256_digest(image)),
        OtaChecksumType::Sha3_384 => Some(sha3_384_digest(image)),
        OtaChecksumType::Sha3_512 => Some(sha3_512_digest(image)),
    }
}

/// A digest matches an expected checksum when the checksum decoded and is the digest.
pub open spec fn digest_matches(digest: Seq<u8>, expected: Option<Seq<u8>>) -> bool {
    match expected {
        Some(e) => e == digest,
        None => false,
    }
}

/// `image` passes the check of a version with checksum `checksum` (base64) of type `kind`.
pub open spec fn checksum_valid(image: Seq<u8>, kind: OtaChecksumType, checksum: Seq<char>) -> bool {
    match image_digest(kind, image) {
        Some(d) => digest_matches(d, base64_standard_decode(checksum)),
        None => false,
    }
}

/// Whether the byte strings `a` and `b` are equal.
fn bytes_equal(a: &[u8], b: &[u8]) -> (r: bool)
    ensures
        r == (a@ == b@),
{
    if a.len() != b.len() {
        return false;
    }
    let mut i: usize = 0;
    while i < a.len()
        invariant
            i <= a@.len(),
            a@.len() == b@.len(),
            forall|j: int| 0 <= j < i ==> a@[j] == b@[j],
        decreases a@.len() - i,
    {
        if a[i] != b[i] {
            return false;
        }
        i = i + 1;
    }
    proof {
        assert(a@ =~= b@);
    }
    true
}

/// Whether `digest` equals the decoded checksum `expected` (`false` when it did not decode).
pub fn checksum_matches(digest: &[u8], expected: &Option<Vec<u8>>) -> (r: bool)
    ensures
        expected is None ==> !r,
        expected matches Some(e) ==> r == (e@ == digest@),
{
    match expected {
        None => false,
        Some(e) => bytes_equal(e.as_slice(), digest),
    }
}

/// The digest of `image` under `kind`, made by the hash crates.
fn compute_digest(kind: OtaChecksumType, image: &[u8]) -> (r: Option<Vec<u8>>)
    ensures
        match r {
            Some(d) => image_digest(kind, image@) == Some(d@),
            None => image_digest(kind, image@) is None,
        },
{
    match kind {
        OtaChecksumType::NoChecksum => None,
        OtaChecksumType::Sha256 => Some(sha256_of(image)),
        OtaChecksumType::Sha384 => Some(sha384_of(image)),
        OtaChecksumType::Sha512 => Some(sha512_of(image)),
        OtaChecksumType::Sha3_256 => Some(sha3_256_of(image)),
        OtaChecksumType::Sha3_384 => Some(sha3_384_of(image)),
        OtaChecksumType::Sha3_512 => Some(sha3_512_of(image)),
    }
}

/// The address of the ledger's model version records.
pub const OTA_BASE_URL: &'static str = "https://on.dcl.csa-iot.org/dcl/model/versions/";

/// The directory downloaded OTA images are kept in.
pub const LOCAL_IMAGE_DIRECTORY: &'static str = "ota_images";

/// The url listing the software versions of `product`.
pub open spec fn versions_url_spec(product: OtaProductId) -> Seq<char> {
    OTA_BASE_URL@ + "/"@ + nat_digits(product.vendor_id as nat) + "/"@ + nat_digits(
        product.product_id as nat,
    )
}

/// The url describing software version `version` of `product`.
pub open spec fn version_url_spec(product: OtaProductId, version: u32) -> Seq<char> {
    versions_url_spec(product) + "/"@ + nat_digits(version as nat)
}

/// A name that `Path::file_name` can give: not empty, no separator, and neither `.` nor `..`.
pub open spec fn is_plain_file_name(name: Seq<char>) -> bool {
    &&& name.len() > 0
    &&& !name.contains('/')
    &&& name != seq!['.']
    &&& name != seq!['.', '.']
}

/// `needle` occurs in `hay` as a contiguous part.
pub open spec fn occurs_in(needle: Seq<char>, hay: Seq<char>) -> bool {
    exists|i: int| 0 <= i && i + needle.len() <= hay.len() && #[trigger] hay.subrange(i, i + needle.len()) == needle
}

/// The part of `path` after its last `/`; all of it when it has none.
pub open spec fn last_segment(path: Seq<char>) -> Seq<char>
    decreases path.len(),
{
    if path.len() == 0 {
        Seq::empty()
    } else if path.last() == '/' {
        Seq::empty()
    } else {
        last_segment(path.drop_last()).push(path.last())
    }
}

/// `path` without the `/` characters it ends in.
pub open spec fn trim_end_slashes(path: Seq<char>) -> Seq<char>
    decreases path.len(),
{
    if path.len() > 0 && path.last() == '/' {
        trim_end_slashes(path.drop_last())
    } else {
        path
    }
}

/// The last `/`-separated part of `path`, trailing separators ignored.
pub open spec fn final_part(path: Seq<char>) -> Seq<char> {
    last_segment(trim_end_slashes(path))
}

/// `path` is read alike by every platform's path rules as far as its last part goes:
/// it holds no `\` and does not begin with `//`.
pub open spec fn portable_path(path: Seq<char>) -> bool {
    &&& !path.contains('\\')
    &&& !(path.len() >= 2 && path[0] == '/' && path[1] == '/')
}

/// `path` ends in a plain file name that every platform's path rules read alike: it
/// is portable, and its last part, trailing separators ignored, is not empty, holds no
/// `:` and is neither `.` nor `..`.
pub open spec fn ends_in_plain_name(path: Seq<char>) -> bool {
    &&& portable_path(path)
    &&& final_part(path).len() > 0
    &&& !final_part(path).contains(':')
    &&& final_part(path) != seq!['.']
    &&& final_part(path) != seq!['.', '.']
}

/// `path` is portable and its last part, trailing separators ignored, is `..`: it
/// names a parent directory and has no file name.
pub open spec fn ends_in_parent(path: Seq<char>) -> bool {
    &&& portable_path(path)
    &&& final_part(path) == seq!['.', '.']
}

/// `std::path::Path::file_name` of `path`, as text. The claim: a name it gives is a
/// plain file name found in `path`; where `path` ends in a plain name that every
/// platform reads alike (no `\`, no leading `//`, a last `/`-separated part, trailing
/// separators ignored as the documentation of `Path` says, that is not empty, holds no
/// `:` and is not `.` or `..`), it gives that last part; and where that last part is
/// `..` it gives none, as the documentation of `file_name` says. For other paths
/// which part it picks, and whether it gives one, follows the platform's path rules
/// and is left unsaid.
#[verifier::external_body]
fn path_file_name(path: &str) -> (r: Option<String>)
    ensures
        r matches Some(name) ==> is_plain_file_name(name@) && occurs_in(name@, path@),
        ends_in_plain_name(path@) ==> r is Some,
        r matches Some(name) ==> (ends_in_plain_name(path@) ==> name@ == final_part(path@)),
        ends_in_parent(path@) ==> r is None,
{
    match std::path::Path::new(path).file_name() {
        Some(name) => name.to_str().map(String::from),
        None => None,
    }
}

impl OtaProductId {
    /// The url listing the software versions of this product.
    pub fn versions_url(&self) -> (r: String)
        ensures
            r@ == versions_url_spec(*self),
    {
        let mut url = String::from_str(OTA_BASE_URL);
        proof {
            reveal_strlit("/");
        }
        url.append("/");
        append_digits(&mut url, self.vendor_id as u64);
        url.append("/");
        append_digits(&mut url, self.product_id as u64);
        url
    }

    /// The url describing software version `version` of this product.
    pub fn version_url(&self, version: u32) -> (r: String)
        ensures
            r@ == version_url_spec(*self, version),
    {
        let mut url = self.versions_url();
        proof {
            reveal_strlit("/");
        }
        url.append("/");
        append_digits(&mut url, version as u64);
        url
    }
}

/// The local path an image with file name `file_name` is kept at.
pub open spec fn local_image_path(file_name: Seq<char>) -> Seq<char> {
    LOCAL_IMAGE_DIRECTORY@ + "/"@ + file_name
}

/// The local path of the image downloaded from `ota_url`, `/`-separated: the
/// image directory and the url's file name. `None` for an empty url or one without
/// a file name, such as one ending in `..`.
pub fn ota_url_to_local_path(ota_url: &str) -> (r: Option<String>)
    ensures
        ota_url@.len() == 0 ==> r is None,
        r matches Some(p) ==> exists|name: Seq<char>|
            is_plain_file_name(name) && occurs_in(name, ota_url@) && p@ == local_image_path(name),
        ends_in_plain_name(ota_url@) ==> (r matches Some(p) && p@ == local_image_path(
            final_part(ota_url@),
        )),
        ends_in_parent(ota_url@) ==> r is None,
{
    if ota_url.unicode_len() == 0 {
        return None;
    }
    let name = path_file_name(ota_url);
    match name {
        Some(name) => Some(image_path_for_name(name.as_str())),
        None => None,
    }
}

/// The local path of an image with file name `file_name`.
pub fn image_path_for_name(file_name: &str) -> (r: String)
    ensures
        r@ == local_image_path(file_name@),
{
    let mut path = String::from_str(LOCAL_IMAGE_DIRECTORY);
    proof {
        reveal_strlit("/");
    }
    path.append("/");
    path.append(file_name);
    path
}

/// Whether `image` matches the checksum that `version` gives for it: the image's
/// digest under the version's checksum type equals the version's base64 checksum
/// decoded. A version without checksum type matches nothing.
pub fn validate_checksum(image: &[u8], version: &OtaVersion) -> (r: bool)
    ensures
        r == checksum_valid(image@, version.ota_checksum_type, version.ota_checksum@),
{
    let digest = match compute_digest(version.ota_checksum_type, image) {
        Some(d) => d,
        None => {
            return false;
        },
    };
    let expected = decode_base64(version.ota_checksum.as_str());
    checksum_matches(digest.as_slice(), &expected)
}

/// `i` is the first position in `s` of a version numbered `version`.
pub open spec fn is_first_version_at(s: Seq<OtaVersion>, version: u32, i: int) -> bool {
    &&& 0 <= i < s.len()
    &&& s[i].version == version
    &&& forall|j: int| 0 <= j < i ==> s[j].version != version
}

/// Some version in `s` is numbered `version`.
pub open spec fn has_version(s: Seq<OtaVersion>, version: u32) -> bool {
    exists|i: int| 0 <= i < s.len() && s[i].version == version
}

/// The position of the first version in `list` numbered `version`.
fn version_index(list: &Vec<OtaVersion>, version: u32) -> (r: Option<usize>)
    ensures
        match r {
            Some(i) => is_first_version_at(list@, version, i as int),
            None => !has_version(list@, version),
        },
{
    let mut i: usize = 0;
    while i < list.len()
        invariant
            i <= list@.len(),
            forall|j: int| 0 <= j < i ==> list@[j].version != version,
        decreases list@.len() - i,
    {
        if list[i].version == version {
            return Some(i);
        }
        i = i + 1;
    }
    None
}

/// Whether two versions are equal by their views.
fn same_version(a: &OtaVersion, b: &OtaVersion) -> (r: bool)
    ensures
        r == (a@ == b@),
{
    a.version == b.version && a.version_string == b.version_string && a.ota_url == b.ota_url
        && a.ota_checksum == b.ota_checksum && a.ota_checksum_type == b.ota_checksum_type
        && a.min_applicable_version == b.min_applicable_version && a.max_applicable_version
        == b.max_applicable_version && a.release_notes_url == b.release_notes_url
        && a.is_image_downloaded == b.is_image_downloaded
}

/// The views of the versions in `list`.
pub open spec fn version_views(list: Seq<OtaVersion>) -> Seq<OtaVersionView> {
    list.map_values(|v: OtaVersion| v@)
}

/// Whether two version lists are equal by their views.
fn same_version_lists(x: &Vec<OtaVersion>, y: &Vec<OtaVersion>) -> (r: bool)
    ensures
        r == (version_views(x@) == version_views(y@)),
{
    if x.len() != y.len() {
        proof {
            assert(version_views(x@).len() != version_views(y@).len());
        }
        return false;
    }
    let mut i: usize = 0;
    while i < x.len()
        invariant
            i <= x@.len(),
            x@.len() == y@.len(),
            forall|j: int| 0 <= j < i ==> #[trigger] version_views(x@)[j] == version_views(y@)[j],
        decreases x@.len() - i,
    {
        if !same_version(&x[i], &y[i]) {
            proof {
                assert(version_views(x@)[i as int] != version_views(y@)[i as int]);
            }
            return false;
        }
        i = i + 1;
    }
    proof {
        assert(version_views(x@) =~= version_views(y@));
    }
    true
}

/// Two outcomes of fetching a version list are equal by their views.
pub open spec fn same_outcome(a: Result<Vec<OtaVersion>, String>, b: Result<Vec<OtaVersion>, String>) -> bool {
    versions_result_view(a) == versions_result_view(b)
}

/// Whether two outcomes of fetching a version list are equal by their views.
fn same_versions(a: &Result<Vec<OtaVersion>, String>, b: &Result<Vec<OtaVersion>, String>) -> (r:
    bool)
    ensures
        r == same_outcome(*a, *b),
{
    match a {
        Ok(x) => match b {
            Ok(y) => same_version_lists(x, y),
            Err(_) => false,
        },
        Err(x) => match b {
            Ok(_) => false,
            Err(y) => *x == *y,
        },
    }
}

/// The version lists fetched for each product, and the decisions made on them.
pub struct OtaManager {
    versions: BTreeMap<u64, Result<Vec<OtaVersion>, String>>,
}

impl OtaManager {
    /// The list is well formed and holds only keys of products.
    pub closed spec fn wf(&self) -> bool {
        forall|k: u64| #[trigger] self.versions@.contains_key(k) ==> k < 0x1_0000_0000
    }

    /// The outcome of the last fetch of the version list of `product` that changed it.
    pub closed spec fn stored(&self, product: OtaProductId) -> Option<Result<Vec<OtaVersion>, String>> {
        if self.versions@.contains_key(product_key(product)) {
            Some(self.versions@[product_key(product)])
        } else {
            None
        }
    }

    /// The version `version` of `product` is loaded: the last fetch of the product's
    /// list succeeded and the list holds that version.
    pub open spec fn loaded(&self, product: OtaProductId, version: u32) -> bool {
        self.stored(product) matches Some(Ok(list)) && has_version(list@, version)
    }

    /// `v` is the version `version` of `product` that lookups find: the first so
    /// numbered in its list.
    pub open spec fn found(&self, product: OtaProductId, version: u32, v: OtaVersion) -> bool {
        self.stored(product) matches Some(Ok(list)) && exists|i: int|
            is_first_version_at(list@, version, i) && list@[i] == v
    }

    /// A manager with nothing stored.
    pub fn new() -> (m: Self)
        ensures
            m.wf(),
            forall|p: OtaProductId| m.stored(p) is None,
    {
        OtaManager { versions: BTreeMap::new() }
    }

    /// Stores the outcome of fetching the version list of `product`, and says whether
    /// it differs from the stored one, in which case the change is to be announced.
    /// An outcome equal to the stored one leaves everything as it was.
    pub fn record_versions(&mut self, product: OtaProductId, new_versions: Result<Vec<OtaVersion>, String>) -> (changed: bool)
        requires
            old(self).wf(),
        ensures
            final(self).wf(),
            record_step(*old(self), *final(self), product, new_versions, changed),
    {
        let k = product.key();
        let unchanged = match self.versions.get(&k) {
            Some(cur) => same_versions(cur, &new_versions),
            None => false,
        };
        if unchanged {
            return false;
        }
        self.versions.insert(k, new_versions);
        proof {
            assert forall|q: OtaProductId| q != product implies self.stored(q) == old(self).stored(q) by {
                lemma_product_key_injective(q, product);
            }
        }
        true
    }

    /// The version `version` of `product`: the first so numbered in its list;
    /// [`FetchOtaError::NotLoaded`] when it is not loaded.
    pub fn find_version(&self, product: OtaProductId, version: u32) -> (r: Result<&OtaVersion, FetchOtaError>)
        requires
            self.wf(),
        ensures
            match r {
                Ok(v) => self.found(product, version, *v),
                Err(e) => e == FetchOtaError::NotLoaded && !self.loaded(product, version),
            },
    {
        match self.versions.get(&product.key()) {
            Some(Ok(list)) => match version_index(list, version) {
                Some(i) => Ok(&list[i]),
                None => Err(FetchOtaError::NotLoaded),
            },
            _ => Err(FetchOtaError::NotLoaded),
        }
    }

    /// The local path that the image of version `version` of `product` is kept at:
    /// [`FetchOtaError::NotLoaded`] when the version is not loaded,
    /// [`FetchOtaError::NoImageUrl`] when its url gives no file name.
    pub fn image_path(&self, product: OtaProductId, version: u32) -> (r: Result<String, FetchOtaError>)
        requires
            self.wf(),
        ensures
            !self.loaded(product, version) <==> r == Err::<String, FetchOtaError>(FetchOtaError::NotLoaded),
            r matches Err(e) ==> e == FetchOtaError::NotLoaded || e == FetchOtaError::NoImageUrl,
            forall|v: OtaVersion| #[trigger] self.found(product, version, v) ==> {
                &&& v.ota_url@.len() == 0 ==> r == Err::<String, FetchOtaError>(FetchOtaError::NoImageUrl)
                &&& r matches Ok(p) ==> exists|name: Seq<char>|
                    is_plain_file_name(name) && occurs_in(name, v.ota_url@) && p@ == local_image_path(name)
                &&& ends_in_plain_name(v.ota_url@) ==> (r matches Ok(p) && p@ == local_image_path(
                    final_part(v.ota_url@),
                ))
                &&& ends_in_parent(v.ota_url@) ==> r == Err::<String, FetchOtaError>(
                    FetchOtaError::NoImageUrl,
                )
            },
    {
        let v = match self.find_version(product, version) {
            Ok(v) => v,
            Err(e) => {
                return Err(e);
            },
        };
        proof {
            lemma_found_unique(self, product, version, *v);
        }
        match ota_url_to_local_path(v.ota_url.as_str()) {
            Some(p) => Ok(p),
            None => Err(FetchOtaError::NoImageUrl),
        }
    }

    /// Checks a fetched image against the checksum of version `version` of `product`:
    /// [`FetchOtaError::NotLoaded`] when the version is not loaded,
    /// [`FetchOtaError::ChecksumMissmatch`] when the image does not pass.
    pub fn check_image(&self, product: OtaProductId, version: u32, image: &[u8]) -> (r: Result<(), FetchOtaError>)
        requires
            self.wf(),
        ensures
            !self.loaded(product, version) ==> r == Err::<(), FetchOtaError>(FetchOtaError::NotLoaded),
            forall|v: OtaVersion| #[trigger] self.found(product, version, v) ==> r == if checksum_valid(
                image@,
                v.ota_checksum_type,
                v.ota_checksum@,
            ) {
                Ok::<(), FetchOtaError>(())
            } else {
                Err(FetchOtaError::ChecksumMissmatch)
            },
    {
        let v = match self.find_version(product, version) {
            Ok(v) => v,
            Err(e) => {
                return Err(e);
            },
        };
        proof {
            lemma_found_unique(self, product, version, *v);
        }
        if validate_checksum(image, v) {
            Ok(())
        } else {
            Err(FetchOtaError::ChecksumMissmatch)
        }
    }

    /// Marks the image of version `version` of `product` as stored on disk; says
    /// whether the version is loaded. Nothing else changes.
    pub fn mark_image_downloaded(&mut self, product: OtaProductId, version: u32) -> (r: bool)
        requires
            old(self).wf(),
        ensures
            final(self).wf(),
            r == old(self).loaded(product, version),
            !r ==> forall|q: OtaProductId| final(self).stored(q) == old(self).stored(q),
            r ==> forall|q: OtaProductId| q != product ==> final(self).stored(q) == old(self).stored(q),
            r ==> (old(self).stored(product) matches Some(Ok(list)) && (final(self).stored(
                product,
            ) matches Some(Ok(new_list)) && marked_downloaded(list@, new_list@, version))),
            r ==> final(self).loaded(product, version),
            forall|w: OtaVersion| #[trigger] final(self).found(product, version, w) ==> w.is_image_downloaded,
    {
        let k = product.key();
        let taken = self.versions.remove(&k);
        match taken {
            Some(Ok(mut list)) => {
                let ghost old_list = list@;
                match version_index(&list, version) {
                    Some(i) => {
                        let mut item = list.remove(i);
                        item.is_image_downloaded = true;
                        list.insert(i, item);
                        proof {
                            assert(list@ =~= old_list.update(
                                i as int,
                                OtaVersion { is_image_downloaded: true, ..old_list[i as int] },
                            ));
                        }
                        self.versions.insert(k, Ok(list));
                        proof {
                            assert(self.versions@ =~= old(self).versions@.insert(k, Ok(list)));
                            assert forall|q: OtaProductId| q != product implies self.stored(q) == old(self).stored(q) by {
                                lemma_product_key_injective(q, product);
                            }
                            assert(self.stored(product) == Some(Ok::<Vec<OtaVersion>, String>(list)));
                            assert(is_first_version_at(list@, version, i as int));
                            assert forall|w: OtaVersion| #[trigger] self.found(product, version, w) implies w.is_image_downloaded by {
                                let j = choose|j: int| is_first_version_at(list@, version, j) && list@[j] == w;
                                if j < i {
                                    assert(list@[j].version == old_list[j].version);
                                } else if j > i {
                                    assert(list@[i as int].version == version);
                                }
                            }
                        }
                        true
                    },
                    None => {
                        self.versions.insert(k, Ok(list));
                        proof {
                            assert(self.versions@ =~= old(self).versions@);
                        }
                        false
                    },
                }
            },
            Some(Err(e)) => {
                self.versions.insert(k, Err(e));
                proof {
                    assert(self.versions@ =~= old(self).versions@);
                }
                false
            },
            None => {
                proof {
                    assert(self.versions@ =~= old(self).versions@);
                }
                false
            },
        }
    }

    /// The stored outcome for `product`, if any.
    pub fn stored_outcome(&self, product: OtaProductId) -> (r: Option<&Result<Vec<OtaVersion>, String>>)
        ensures
            match r {
                Some(v) => self.stored(product) == Some(*v),
                None => self.stored(product) is None,
            },
    {
        self.versions.get(&product.key())
    }

    /// The products with a stored outcome, each once.
    pub fn stored_products(&self) -> (r: Vec<OtaProductId>)
        requires
            self.wf(),
        ensures
            r@.no_duplicates(),
            forall|p: OtaProductId| #[trigger] self.stored(p) is Some <==> r@.contains(p),
    {
        broadcast use vstd::std_specs::btree::group_btree_axioms;
        let mut out: Vec<OtaProductId> = Vec::new();
        let ghost all = vstd::std_specs::iter::IteratorSpec::remaining(
            &vstd::std_specs::btree::spec_keys_iter(&self.versions),
        );
        for k in it: self.versions.keys()
            invariant
                self.wf(),
                out@.len() == it.index(),
                it.seq() == all,
                forall|j: int| 0 <= j < it.index() ==> product_key(#[trigger] out@[j]) == *all[j],
        {
            proof {
                let ks = it.seq().unref();
                assert(*k == ks[it.index() as int]);
                assert(ks.to_set().contains(*k));
                assert(self.versions@.contains_key(*k));
            }
            let product = OtaProductId { vendor_id: (*k / 65536) as u16, product_id: (*k % 65536) as u16 };
            proof {
                assert(product_key(product) == *k);
            }
            out.push(product);
        }
        proof {
            let ks = all.unref();
            assert(ks.len() == out@.len());
            assert forall|a: int, b: int| 0 <= a < b < out@.len() implies out@[a] != out@[b] by {
                assert(*all[a] != *all[b]);
                lemma_product_key_injective(out@[a], out@[b]);
            }
            assert forall|p: OtaProductId| #[trigger] self.stored(p) is Some <==> out@.contains(p) by {
                let key = product_key(p);
                if self.stored(p) is Some {
                    assert(ks.to_set().contains(key));
                    let j = choose|j: int| 0 <= j < ks.len() && ks[j] == key;
                    assert(product_key(out@[j]) == key);
                    lemma_product_key_injective(out@[j], p);
                    assert(out@[j] == p);
                }
                if out@.contains(p) {
                    let j = choose|j: int| 0 <= j < out@.len() && out@[j] == p;
                    assert(ks[j] == key);
                    assert(ks.to_set().contains(key));
                }
            }
        }
        out
    }
}

/// `new_list` is `old_list` with the first version numbered `version` marked as
/// downloaded.
pub open spec fn marked_downloaded(old_list: Seq<OtaVersion>, new_list: Seq<OtaVersion>, version: u32) -> bool {
    exists|i: int|
        is_first_version_at(old_list, version, i) && new_list == old_list.update(
            i,
            OtaVersion { is_image_downloaded: true, ..old_list[i] },
        )
}

/// Lookups find at most one version.
pub proof fn lemma_found_unique(m: &OtaManager, product: OtaProductId, version: u32, v: OtaVersion)
    requires
        m.found(product, version, v),
    ensures
        m.loaded(product, version),
        forall|w: OtaVersion| #[trigger] m.found(product, version, w) ==> w == v,
{
    let list = m.stored(product)->0->Ok_0;
    let i = choose|i: int| is_first_version_at(list@, version, i) && list@[i] == v;
    assert forall|w: OtaVersion| #[trigger] m.found(product, version, w) implies w == v by {
        let j = choose|j: int| is_first_version_at(list@, version, j) && list@[j] == w;
        if j < i {
            assert(list@[j].version != version);
        } else if i < j {
            assert(list@[i].version != version);
        }
    }
}

/// `after` is `before` once the outcome `new_versions` of fetching the version list
/// of `product` is recorded, and `changed` says whether that is to be announced: it is
/// exactly when the stored outcome differs by view. A changed outcome is stored and
/// nothing else moves; an unchanged one leaves everything as it was.
pub open spec fn record_step(
    before: OtaManager,
    after: OtaManager,
    product: OtaProductId,
    new_versions: Result<Vec<OtaVersion>, String>,
    changed: bool,
) -> bool {
    &&& changed == !(before.stored(product) matches Some(cur) && same_outcome(cur, new_versions))
    &&& changed ==> after.stored(product) == Some(new_versions)
    &&& changed ==> forall|q: OtaProductId| q != product ==> after.stored(q) == before.stored(q)
    &&& !changed ==> forall|q: OtaProductId| after.stored(q) == before.stored(q)
}

/// Recording the same outcome twice in a row announces it at most once: the second
/// recording says nothing changed and leaves every stored outcome as it was.
pub proof fn law_record_twice_is_silent(
    m0: OtaManager,
    m1: OtaManager,
    m2: OtaManager,
    product: OtaProductId,
    outcome: Result<Vec<OtaVersion>, String>,
    first: bool,
    second: bool,
)
    requires
        record_step(m0, m1, product, outcome, first),
        record_step(m1, m2, product, outcome, second),
    ensures
        !second,
        forall|q: OtaProductId| m2.stored(q) == m1.stored(q),
{
}


/// The number of checksum type `t` in the IANA registry of named information hash
/// algorithms.
pub open spec fn checksum_type_number(t: OtaChecksumType) -> u8 {
    match t {
        OtaChecksumType::NoChecksum => 0,
        OtaChecksumType::Sha256 => 1,
        OtaChecksumType::Sha384 => 7,
        OtaChecksumType::Sha512 => 8,
        OtaChecksumType::Sha3_256 => 10,
        OtaChecksumType::Sha3_384 => 11,
        OtaChecksumType::Sha3_512 => 12,
    }
}

/// A checksum type code names the type with that IANA number (0 none, 1 SHA-256,
/// 7 SHA-384, 8 SHA-512, 10 SHA3-256, 11 SHA3-384, 12 SHA3-512), and any other code
/// names none.
pub proof fn law_checksum_type_numbering(code: u8, t: OtaChecksumType)
    ensures
        checksum_type_of(code) == Some(t) <==> checksum_type_number(t) == code,
        checksum_type_of(code) is None <==> !(code == 0 || code == 1 || code == 7 || code == 8
            || code == 10 || code == 11 || code == 12),
{
}

} // verus!
