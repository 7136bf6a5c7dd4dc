//! The decoded forms of the RFC 6962 structures: the Merkle tree leaf with
//! its timestamped entry, certificate chains, the owning certificate views,
//! and the typed responses of the log endpoints. The decoders here are
//! verified against the wire-format definition in the sibling module.

use vstd::prelude::*;

use crate::ct::wire::{
    self, EntryModel, ExtraModel, LeafModel, SignedEntryModel, cert_wf, enc_certs,
    entry_type_of, extra_entry_type, parse_cert, parse_certs, parse_chain, parse_exts, parse_extra,
    parse_leaf, parse_signed,
};
use crate::reader::{Reader, be, lemma_be_bound, pow256};
use crate::{CTLogError, DecodeError};

use x509_parser::certificate::X509Certificate;
use x509_parser::certificate::TbsCertificate;
use x509_parser::prelude::FromDer;

verus! {

/// The version of the leaf structure. Only v1 exists.
#[derive(Debug, Clone, Copy, PartialEq, Eq, Structural)]
pub enum Version {
    V1,
}

/// The kind of Merkle tree leaf. Only the timestamped entry exists.
#[derive(Debug, Clone, Copy, PartialEq, Eq, Structural)]
pub enum MerkleLeafType {
    TimestampedEntry,
}

/// The kind of entry a log holds: a certificate, or a precertificate.
#[derive(Debug, Clone, Copy, PartialEq, Eq, Structural)]
pub enum LogEntryType {
    X509Entry,
    PrecertEntry,
}

impl LogEntryType {
    /// The two-byte tag this entry type is written as on the wire.
    pub open spec fn tag(self) -> nat {
        match self {
            LogEntryType::X509Entry => 0,
            LogEntryType::PrecertEntry => 1,
        }
    }
}

// ----------------------------------------------------------------------------
// Owning certificate views
// ----------------------------------------------------------------------------
/// Whether the DER parser accepts the bytes as an X.509 certificate,
/// trailing bytes allowed. The answer depends on the bytes alone.
pub uninterp spec fn x509_der_parses(b: Seq<u8>) -> bool;

/// Whether the DER parser accepts the bytes as a bare TBSCertificate body,
/// trailing bytes allowed. The answer depends on the bytes alone.
pub uninterp spec fn tbs_der_parses(b: Seq<u8>) -> bool;

/// Relies on `X509Certificate::from_der` of the DER parser: whether it
/// accepts the bytes is a function of the bytes alone, and it returns an
/// error on malformed input rather than aborting.
#[verifier::external_body]
fn x509_der_check(v: &[u8]) -> (r: bool)
    ensures
        r == x509_der_parses(v@),
{
    X509Certificate::from_der(v).is_ok()
}

/// Relies on `TbsCertificate::from_der` of the DER parser, as
/// `x509_der_check` relies on the certificate parser.
#[verifier::external_body]
fn tbs_der_check(v: &[u8]) -> (r: bool)
    ensures
        r == tbs_der_parses(v@),
{
    TbsCertificate::from_der(v).is_ok()
}

/// A certificate buffer that owns its DER bytes. The parsed certificate is
/// never stored alongside the buffer: it is re-derived on demand from the
/// owned bytes, so no view can outlive or be moved apart from them.
/// Equality is by the owned bytes, not by parsed structure.
#[derive(Debug, Clone)]
pub struct WrapX509Certificate {
    raw: Vec<u8>,
}

impl View for WrapX509Certificate {
    type V = Seq<u8>;

    closed spec fn view(&self) -> Seq<u8> {
        self.raw@
    }
}

impl WrapX509Certificate {
    /// Whether the owned bytes parse as a certificate.
    pub open spec fn der_valid(self) -> bool {
        x509_der_parses(self@)
    }

    /// Takes ownership of `v` and checks that it parses as DER. Malformed
    /// bytes are reported, never a panic; the buffer is simply dropped.
    pub fn from_bytes(v: &[u8]) -> (r: Result<Self, DecodeError>)
        ensures
            match r {
                Ok(w) => w@ == v@ && x509_der_parses(v@),
                Err(e) => e == DecodeError::CertificateParseError && !x509_der_parses(v@),
            },
    {
        if x509_der_check(v) {
            Ok(Self { raw: slice_to_owned(v) })
        } else {
            Err(DecodeError::CertificateParseError)
        }
    }

    /// Takes ownership of a buffer without judging it as DER. The
    /// structural leaf decode stores certificate bytes this way, so that a
    /// blob that fails as DER is still carried and the failure surfaces in
    /// `from_bytes` or `parses`, independently of the structural stage.
    pub fn from_raw(raw: Vec<u8>) -> (r: Self)
        ensures
            r@ == raw@,
    {
        Self { raw }
    }

    /// The owned DER bytes, borrowed read-only.
    pub fn raw_bytes(&self) -> (r: &Vec<u8>)
        ensures
            r@ == self@,
    {
        &self.raw
    }

    /// Re-derives the parse verdict from the owned bytes.
    pub fn parses(&self) -> (r: bool)
        ensures
            r == self.der_valid(),
    {
        x509_der_check(self.raw.as_slice())
    }
}

impl PartialEq for WrapX509Certificate {
    fn eq(&self, other: &Self) -> (r: bool) {
        vecs_equal(&self.raw, &other.raw)
    }
}

impl vstd::std_specs::cmp::PartialEqSpecImpl for WrapX509Certificate {
    open spec fn obeys_eq_spec() -> bool {
        true
    }

    open spec fn eq_spec(&self, other: &Self) -> bool {
        self@ == other@
    }
}

/// A to-be-signed certificate body that owns its DER bytes; the same
/// ownership discipline as `WrapX509Certificate`, for the bare
/// TBSCertificate blob a precertificate leaf carries.
#[derive(Debug, Clone)]
pub struct WrapTbsCertificate {
    raw: Vec<u8>,
}

impl View for WrapTbsCertificate {
    type V = Seq<u8>;

    closed spec fn view(&self) -> Seq<u8> {
        self.raw@
    }
}

impl WrapTbsCertificate {
    /// Whether the owned bytes parse as a TBSCertificate body.
    pub open spec fn der_valid(self) -> bool {
        tbs_der_parses(self@)
    }

    /// Takes ownership of `v` and checks that it parses as a bare
    /// TBSCertificate. Malformed bytes are reported, never a panic.
    pub fn from_bytes(v: &[u8]) -> (r: Result<Self, DecodeError>)
        ensures
            match r {
                Ok(w) => w@ == v@ && tbs_der_parses(v@),
                Err(e) => e == DecodeError::CertificateParseError && !tbs_der_parses(v@),
            },
    {
        if tbs_der_check(v) {
            Ok(Self { raw: slice_to_owned(v) })
        } else {
            Err(DecodeError::CertificateParseError)
        }
    }

    /// Takes ownership of a buffer without judging it as DER.
    pub fn from_raw(raw: Vec<u8>) -> (r: Self)
        ensures
            r@ == raw@,
    {
        Self { raw }
    }

    /// The owned DER bytes, borrowed read-only.
    pub fn raw_bytes(&self) -> (r: &Vec<u8>)
        ensures
            r@ == self@,
    {
        &self.raw
    }

    /// Re-derives the parse verdict from the owned bytes.
    pub fn parses(&self) -> (r: bool)
        ensures
            r == self.der_valid(),
    {
        tbs_der_check(self.raw.as_slice())
    }
}

impl PartialEq for WrapTbsCertificate {
    fn eq(&self, other: &Self) -> (r: bool) {
        vecs_equal(&self.raw, &other.raw)
    }
}

impl vstd::std_specs::cmp::PartialEqSpecImpl for WrapTbsCertificate {
    open spec fn obeys_eq_spec() -> bool {
        true
    }

    open spec fn eq_spec(&self, other: &Self) -> bool {
        self@ == other@
    }
}

/// Copies a borrowed slice into an owned buffer.
fn slice_to_owned(v: &[u8]) -> (r: Vec<u8>)
    ensures
        r@ == v@,
{
    let mut out: Vec<u8> = Vec::new();
    let n = v.len();
    let mut i: usize = 0;
    while i < n
        invariant
            n == v@.len(),
            i <= n,
            out@ == v@.subrange(0, i as int),
        decreases n - i,
    {
        out.push(v[i]);
        proof {
            assert(v@.subrange(0, i + 1) =~= v@.subrange(0, i as int).push(v@[i as int]));
        }
        i = i + 1;
    }
    proof {
        assert(v@.subrange(0, n as int) =~= v@);
    }
    out
}

/// Byte-for-byte comparison of two buffers.
fn vecs_equal(a: &Vec<u8>, b: &Vec<u8>) -> (r: bool)
    ensures
        r == (a@ == b@),
{
    if a.len() != b.len() {
        proof {
            assert(a@ != b@);
        }
        return false;
    }
    let n = a.len();
    let mut i: usize = 0;
    while i < n
        invariant
            n == a@.len(),
            n == b@.len(),
            i <= n,
            forall|j: int| 0 <= j < i ==> a@[j] == b@[j],
        decreases n - i,
    {
        if a[i] != b[i] {
            proof {
                assert(a@[i as int] != b@[i as int]);
            }
            return false;
        }
        i = i + 1;
    }
    proof {
        assert(a@ =~= b@);
    }
    true
}

// ----------------------------------------------------------------------------
// Decoded wire structures
// ----------------------------------------------------------------------------
/// The SHA-256 hash of the issuing certificate's public key, 32 raw bytes.
#[derive(Debug, Clone)]
pub struct IssuerKeyHash {
    hash: Vec<u8>,
}

impl View for IssuerKeyHash {
    type V = Seq<u8>;

    closed spec fn view(&self) -> Seq<u8> {
        self.hash@
    }
}

impl IssuerKeyHash {
    pub open spec fn wf(self) -> bool {
        self@.len() == 32
    }

    pub fn new(hash: Vec<u8>) -> (r: Self)
        requires
            hash@.len() == 32,
        ensures
            r@ == hash@,
            r.wf(),
    {
        Self { hash }
    }

    /// The raw hash bytes, borrowed read-only.
    pub fn bytes(&self) -> (r: &Vec<u8>)
        ensures
            r@ == self@,
    {
        &self.hash
    }
}

/// One certificate of a chain: its declared byte count and its bytes, held
/// as an owning view.
#[derive(Debug, Clone)]
pub struct ASN1Cert {
    pub length: u32,
    pub certificate: Box<WrapX509Certificate>,
}

impl View for ASN1Cert {
    type V = Seq<u8>;

    open spec fn view(&self) -> Seq<u8> {
        self.certificate@
    }
}

impl ASN1Cert {
    /// The declared length counts exactly the owned bytes and fits its
    /// three-byte prefix.
    pub open spec fn wf(self) -> bool {
        self.certificate@.len() == self.length && self.length < 0x1000000
    }
}

/// The models of the certificates a chain holds, in order.
pub open spec fn chain_model(cs: Seq<ASN1Cert>) -> Seq<Seq<u8>> {
    cs.map_values(|c: ASN1Cert| c@)
}

/// An ordered certificate chain: the declared byte count of the whole
/// sequence, and the certificates decoded greedily out of exactly that
/// many bytes.
#[derive(Debug, Clone)]
pub struct ASN1CertChain {
    pub length: u32,
    pub certificates: Vec<ASN1Cert>,
}

impl View for ASN1CertChain {
    type V = Seq<Seq<u8>>;

    open spec fn view(&self) -> Seq<Seq<u8>> {
        chain_model(self.certificates@)
    }
}

impl ASN1CertChain {
    /// The declared length counts exactly the bytes the certificates
    /// occupy on the wire, prefixes included.
    pub open spec fn wf(self) -> bool {
        &&& forall|i: int|
            0 <= i < self.certificates@.len() ==> (#[trigger] self.certificates@[i]).wf()
        &&& self.length == enc_certs(self@).len()
        &&& self.length < 0x1000000
    }
}

/// A precertificate entry's signed payload: the issuer key hash and the
/// bare to-be-signed certificate body.
#[derive(Debug, Clone)]
pub struct PreCert {
    pub issuer_key_hash: IssuerKeyHash,
    pub length: u32,
    pub tbs_certificate: Box<WrapTbsCertificate>,
}

impl PreCert {
    pub open spec fn wf(self) -> bool {
        &&& self.issuer_key_hash.wf()
        &&& self.tbs_certificate@.len() == self.length
        &&& self.length < 0x1000000
    }
}

/// The extra data of a precertificate entry: the full precertificate and
/// its issuing chain.
#[derive(Debug, Clone)]
pub struct PrecertChainEntry {
    pub pre_certificate: ASN1Cert,
    pub precertificate_chain: ASN1CertChain,
}

impl PrecertChainEntry {
    pub open spec fn wf(self) -> bool {
        self.pre_certificate.wf() && self.precertificate_chain.wf()
    }
}

/// The opaque extensions blob of a timestamped entry.
#[derive(Debug, Clone)]
pub struct CtExtensions {
    pub length: u16,
    pub extensions: Vec<u8>,
}

impl View for CtExtensions {
    type V = Seq<u8>;

    open spec fn view(&self) -> Seq<u8> {
        self.extensions@
    }
}

impl CtExtensions {
    pub open spec fn wf(self) -> bool {
        self.extensions@.len() == self.length
    }
}

/// The signed payload of a timestamped entry, selected by the entry type.
#[derive(Debug, Clone)]
pub enum TimestampedEntrySignedInner {
    X509(ASN1Cert),
    Precert(PreCert),
}

impl View for TimestampedEntrySignedInner {
    type V = SignedEntryModel;

    open spec fn view(&self) -> SignedEntryModel {
        match self {
            TimestampedEntrySignedInner::X509(c) => SignedEntryModel::X509 { cert: c@ },
            TimestampedEntrySignedInner::Precert(p) => SignedEntryModel::Precert {
                issuer_key_hash: p.issuer_key_hash@,
                tbs: p.tbs_certificate@,
            },
        }
    }
}

impl TimestampedEntrySignedInner {
    pub open spec fn wf(self) -> bool {
        match self {
            TimestampedEntrySignedInner::X509(c) => c.wf(),
            TimestampedEntrySignedInner::Precert(p) => p.wf(),
        }
    }
}

/// The timestamped entry a leaf wraps: when the log issued its SCT, what
/// kind of entry it is, the signed payload, and the opaque extensions.
#[derive(Debug, Clone)]
pub struct TimestampedEntry {
    pub timestamp: u64,
    pub entry_type: LogEntryType,
    pub signed_entry: TimestampedEntrySignedInner,
    pub extensions: CtExtensions,
}

impl View for TimestampedEntry {
    type V = LeafModel;

    open spec fn view(&self) -> LeafModel {
        LeafModel {
            timestamp: self.timestamp,
            signed_entry: self.signed_entry@,
            extensions: self.extensions@,
        }
    }
}

impl TimestampedEntry {
    /// The entry type tag always agrees with the payload variant.
    pub open spec fn wf(self) -> bool {
        &&& self.signed_entry.wf()
        &&& self.extensions.wf()
        &&& self.entry_type == entry_type_of(self.signed_entry@)
    }
}

/// A decoded Merkle tree leaf. Immutable once decoded.
#[derive(Debug, Clone)]
pub struct MerkleTreeLeaf {
    pub version: Version,
    pub leaf_type: MerkleLeafType,
    pub timestamped_entry: TimestampedEntry,
}

impl View for MerkleTreeLeaf {
    type V = LeafModel;

    open spec fn view(&self) -> LeafModel {
        self.timestamped_entry@
    }
}

impl MerkleTreeLeaf {
    pub open spec fn wf(self) -> bool {
        self.timestamped_entry.wf()
    }
}

/// The extra data of an entry, decoded independently of its leaf.
#[derive(Debug, Clone)]
pub enum DecodedEntryInner {
    X509(ASN1CertChain),
    Precert(PrecertChainEntry),
}

impl View for DecodedEntryInner {
    type V = ExtraModel;

    open spec fn view(&self) -> ExtraModel {
        match self {
            DecodedEntryInner::X509(chain) => ExtraModel::X509 { chain: chain@ },
            DecodedEntryInner::Precert(p) => ExtraModel::Precert {
                pre_certificate: p.pre_certificate@,
                chain: p.precertificate_chain@,
            },
        }
    }
}

impl DecodedEntryInner {
    pub open spec fn wf(self) -> bool {
        match self {
            DecodedEntryInner::X509(chain) => chain.wf(),
            DecodedEntryInner::Precert(p) => p.wf(),
        }
    }
}

/// One raw entry as a log returns it: both fields still base64-encoded.
#[derive(Debug, Clone)]
pub struct Entry {
    /// The base64-encoded Merkle tree leaf structure.
    pub leaf_input: String,
    /// The base64-encoded unsigned data of the entry: a certificate chain
    /// for an X.509 entry, the whole precertificate chain entry otherwise.
    pub extra_data: String,
}

/// A fully decoded log entry: the leaf and its extra data, their entry
/// types checked to agree.
#[derive(Debug, Clone)]
pub struct DecodedEntry {
    pub leaf: MerkleTreeLeaf,
    pub extra_data: DecodedEntryInner,
}

impl View for DecodedEntry {
    type V = EntryModel;

    open spec fn view(&self) -> EntryModel {
        EntryModel { leaf: self.leaf@, extra: self.extra_data@ }
    }
}

impl DecodedEntry {
    /// Both halves are well-formed and answer to the same entry type.
    pub open spec fn wf(self) -> bool {
        &&& self.leaf.wf()
        &&& self.extra_data.wf()
        &&& extra_entry_type(self.extra_data@) == entry_type_of(self.leaf@.signed_entry)
    }
}

// ----------------------------------------------------------------------------
// Endpoint responses
// ----------------------------------------------------------------------------
/// The signed certificate timestamp returned when a chain is submitted.
#[derive(Debug, Clone)]
pub struct AddChainResponse {
    /// The version of the SignedCertificateTimestamp structure, in decimal.
    pub sct_version: u8,
    /// The log ID, base64 encoded.
    pub id: String,
    /// The SCT timestamp, in decimal.
    pub timestamp: u64,
    /// Opaque data for future expansion; base64 encoded.
    pub extensions: String,
    /// The SCT signature, base64 encoded.
    pub signature: String,
}

/// The latest signed tree head.
#[derive(Debug, Clone)]
pub struct GetSthResponse {
    /// The size of the tree, in entries, in decimal.
    pub tree_size: u64,
    /// The timestamp, in decimal.
    pub timestamp: u64,
    /// The Merkle tree hash of the tree, in base64.
    pub sha256_root_hash: String,
    /// A TreeHeadSignature over the above data.
    pub tree_head_signature: String,
}

/// A consistency proof between two signed tree heads.
#[derive(Debug, Clone)]
pub struct GetSthConsistencyResponse {
    /// An array of Merkle tree nodes, base64 encoded.
    pub consistency: Vec<String>,
}

/// An audit proof for one leaf hash.
#[derive(Debug, Clone)]
pub struct GetProofByHashResponse {
    /// The 0-based index of the end entity the hash names.
    pub leaf_index: u64,
    /// An array of base64-encoded Merkle tree nodes proving inclusion.
    pub audit_path: Vec<String>,
}

/// A range of raw entries. A log may answer with fewer entries than were
/// asked for; the caller reads the actual count from `entries` and
/// continues from the next index.
#[derive(Debug, Clone)]
pub struct GetEntriesResponse {
    /// The entries, still encoded; see `Entry`.
    pub entries: Vec<Entry>,
}

/// The root certificates the log accepts.
#[derive(Debug, Clone)]
pub struct GetRootsResponse {
    /// An array of base64-encoded root certificates.
    pub certificates: Vec<String>,
}

/// One entry together with its audit proof.
#[derive(Debug, Clone)]
pub struct GetEntryAndProofResponse {
    /// The base64-encoded Merkle tree leaf structure.
    pub leaf_input: String,
    /// The base64-encoded unsigned data, as in `Entry`.
    pub extra_data: String,
    /// An array of base64-encoded Merkle tree nodes proving inclusion.
    pub audit_path: Vec<String>,
}

// ----------------------------------------------------------------------------
// Decoding
// ----------------------------------------------------------------------------
/// What `base64::decode` makes of a string: `None` where it reports an
/// error, otherwise the decoded bytes. A function of the characters alone.
pub uninterp spec fn base64_decoded(s: Seq<char>) -> Option<Seq<u8>>;

/// Relies on `base64::decode` with the standard alphabet: whether a string
/// decodes, and to what bytes, depends on the characters alone, and
/// malformed input is reported as an error, never a panic.
#[verifier::external_body]
fn base64_decode_str(s: &str) -> (r: Result<Vec<u8>, DecodeError>)
    ensures
        match r {
            Ok(v) => base64_decoded(s@) == Option::Some(v@),
            Err(e) => e == DecodeError::Base64Error && base64_decoded(s@) is None,
        },
{
    match base64::decode(s) {
        Ok(v) => Ok(v),
        Err(_) => Err(DecodeError::Base64Error),
    }
}

proof fn lemma_chain_model_push(cs: Seq<ASN1Cert>, c: ASN1Cert)
    ensures
        chain_model(cs.push(c)) =~= chain_model(cs).push(c@),
{
}

/// Reads one length-prefixed certificate from the cursor, as `parse_cert`
/// describes it.
fn read_cert(r: &mut Reader) -> (res: Result<ASN1Cert, DecodeError>)
    requires
        old(r).wf(),
    ensures
        final(r).data@ == old(r).data@,
        final(r).wf(),
        match (res, parse_cert(old(r).data@.skip(old(r).pos as int))) {
            (Ok(c), Ok((cb, n))) => c@ == cb && c.wf() && final(r).pos == old(r).pos + n,
            (Err(e1), Err(e2)) => e1 == e2,
            _ => false,
        },
{
    let ghost rem = r.data@.skip(r.pos as int);
    let ghost pos0 = r.pos as int;
    let l64 = match r.read_be(3) {
        Ok(v) => v,
        Err(e) => {
            return Err(e);
        },
    };
    proof {
        assert(rem.take(3) =~= r.data@.subrange(pos0, pos0 + 3));
        lemma_be_bound(r.data@.subrange(pos0, pos0 + 3));
        reveal_with_fuel(pow256, 4);
    }
    let l = l64 as usize;
    let bytes = match r.read_bytes(l) {
        Ok(v) => v,
        Err(e) => {
            return Err(e);
        },
    };
    proof {
        assert(bytes@ =~= rem.subrange(3, 3 + l as int));
    }
    Ok(
        ASN1Cert {
            length: l64 as u32,
            certificate: Box::new(WrapX509Certificate::from_raw(bytes)),
        },
    )
}

/// Reads the length-prefixed to-be-signed certificate body of a
/// precertificate, as `parse_cert` describes the field.
fn read_tbs(r: &mut Reader) -> (res: Result<(u32, Box<WrapTbsCertificate>), DecodeError>)
    requires
        old(r).wf(),
    ensures
        final(r).data@ == old(r).data@,
        final(r).wf(),
        match (res, parse_cert(old(r).data@.skip(old(r).pos as int))) {
            (Ok((len, t)), Ok((cb, n))) => t@ == cb && t@.len() == len && len < 0x1000000
                && final(r).pos == old(r).pos + n,
            (Err(e1), Err(e2)) => e1 == e2,
            _ => false,
        },
{
    let ghost rem = r.data@.skip(r.pos as int);
    let ghost pos0 = r.pos as int;
    let l64 = match r.read_be(3) {
        Ok(v) => v,
        Err(e) => {
            return Err(e);
        },
    };
    proof {
        assert(rem.take(3) =~= r.data@.subrange(pos0, pos0 + 3));
        lemma_be_bound(r.data@.subrange(pos0, pos0 + 3));
        reveal_with_fuel(pow256, 4);
    }
    let l = l64 as usize;
    let bytes = match r.read_bytes(l) {
        Ok(v) => v,
        Err(e) => {
            return Err(e);
        },
    };
    proof {
        assert(bytes@ =~= rem.subrange(3, 3 + l as int));
    }
    Ok((l64 as u32, Box::new(WrapTbsCertificate::from_raw(bytes))))
}

/// Reads the length-prefixed extensions blob, as `parse_exts` describes it.
fn read_exts(r: &mut Reader) -> (res: Result<CtExtensions, DecodeError>)
    requires
        old(r).wf(),
    ensures
        final(r).data@ == old(r).data@,
        final(r).wf(),
        match (res, parse_exts(old(r).data@.skip(old(r).pos as int))) {
            (Ok(x), Ok((xb, n))) => x@ == xb && x.wf() && final(r).pos == old(r).pos + n,
            (Err(e1), Err(e2)) => e1 == e2,
            _ => false,
        },
{
    let ghost rem = r.data@.skip(r.pos as int);
    let ghost pos0 = r.pos as int;
    let l64 = match r.read_be(2) {
        Ok(v) => v,
        Err(e) => {
            return Err(e);
        },
    };
    proof {
        assert(rem.take(2) =~= r.data@.subrange(pos0, pos0 + 2));
        lemma_be_bound(r.data@.subrange(pos0, pos0 + 2));
        reveal_with_fuel(pow256, 3);
    }
    let l = l64 as usize;
    let bytes = match r.read_bytes(l) {
        Ok(v) => v,
        Err(e) => {
            return Err(e);
        },
    };
    proof {
        assert(bytes@ =~= rem.subrange(2, 2 + l as int));
    }
    Ok(CtExtensions { length: l64 as u16, extensions: bytes })
}

/// Reads a whole certificate chain, as `parse_chain` describes it: the
/// declared region must split exactly into certificates, and any surplus
/// or shortfall inside it is a `ChainLengthMismatch`.
fn read_chain(r: &mut Reader) -> (res: Result<ASN1CertChain, DecodeError>)
    requires
        old(r).wf(),
    ensures
        final(r).data@ == old(r).data@,
        final(r).wf(),
        match (res, parse_chain(old(r).data@.skip(old(r).pos as int))) {
            (Ok(ch), Ok((cs, n))) => ch@ == cs && ch.wf() && final(r).pos == old(r).pos + n,
            (Err(e1), Err(e2)) => e1 == e2,
            _ => false,
        },
{
    let ghost rem = r.data@.skip(r.pos as int);
    let ghost pos0 = r.pos as int;
    let l64 = match r.read_be(3) {
        Ok(v) => v,
        Err(e) => {
            return Err(e);
        },
    };
    proof {
        assert(rem.take(3) =~= r.data@.subrange(pos0, pos0 + 3));
        lemma_be_bound(r.data@.subrange(pos0, pos0 + 3));
        reveal_with_fuel(pow256, 4);
    }
    let l = l64 as usize;
    let region = match r.read_bytes(l) {
        Ok(v) => v,
        Err(e) => {
            return Err(e);
        },
    };
    proof {
        assert(region@ =~= rem.subrange(3, 3 + l as int));
    }
    let mut rr = Reader::new(&region);
    let mut certs: Vec<ASN1Cert> = Vec::new();
    proof {
        assert(region@.skip(0) =~= region@);
        assert(chain_model(certs@) =~= Seq::<Seq<u8>>::empty());
        match parse_certs(region@) {
            Option::Some(rest) => {
                assert(chain_model(certs@) + rest =~= rest);
            },
            Option::None => {},
        }
    }
    while rr.pos < region.len()
        invariant
            r.data@ == old(r).data@,
            r.wf(),
            rem == old(r).data@.skip(old(r).pos as int),
            pos0 == old(r).pos,
            r.pos == pos0 + 3 + l,
            l == l64,
            l64 == be(rem.take(3)),
            l64 < 0x1000000,
            rem.len() >= 3 + l,
            region@ == rem.subrange(3, 3 + l as int),
            rr.data@ == region@,
            rr.wf(),
            forall|i: int| 0 <= i < certs@.len() ==> (#[trigger] certs@[i]).wf(),
            parse_certs(region@) == match parse_certs(region@.skip(rr.pos as int)) {
                Option::Some(rest) => Option::Some(chain_model(certs@) + rest),
                Option::None => Option::<Seq<Seq<u8>>>::None,
            },
        decreases region@.len() - rr.pos,
    {
        let ghost sub = region@.skip(rr.pos as int);
        let ghost certs0 = certs@;
        let ghost pos_before = rr.pos as int;
        let c = match read_cert(&mut rr) {
            Ok(c) => c,
            Err(_) => {
                proof {
                    assert(parse_certs(sub) is None);
                    assert(parse_certs(region@) is None);
                }
                return Err(DecodeError::ChainLengthMismatch);
            },
        };
        proof {
            let (cb, n) = parse_cert(sub)->Ok_0;
            assert(sub.len() >= 3);
            assert(sub.skip(3 + be(sub.take(3)) as int) =~= region@.skip(pos_before + n));
            assert(parse_certs(sub) == match parse_certs(region@.skip(pos_before + n)) {
                Option::Some(rest) => Option::Some(seq![cb] + rest),
                Option::None => Option::<Seq<Seq<u8>>>::None,
            });
            lemma_chain_model_push(certs0, c);
        }
        certs.push(c);
        proof {
            match parse_certs(region@.skip(rr.pos as int)) {
                Option::Some(rest) => {
                    assert(chain_model(certs0) + (seq![c@] + rest) =~= chain_model(certs@)
                        + rest);
                },
                Option::None => {},
            }
        }
    }
    proof {
        assert(region@.skip(rr.pos as int) =~= Seq::<u8>::empty());
        assert(parse_certs(region@.skip(rr.pos as int)) == Option::Some(
            Seq::<Seq<u8>>::empty(),
        ));
        assert(chain_model(certs@) + Seq::<Seq<u8>>::empty() =~= chain_model(certs@));
        assert(parse_certs(region@) == Option::Some(chain_model(certs@)));
        wire::lemma_parse_certs_exact(region@, chain_model(certs@));
        assert(forall|i: int|
            0 <= i < chain_model(certs@).len() ==> cert_wf(#[trigger] chain_model(certs@)[i]));
    }
    Ok(ASN1CertChain { length: l64 as u32, certificates: certs })
}

impl MerkleTreeLeaf {
    /// Decodes a Merkle tree leaf from raw bytes, field by field in wire
    /// order, exactly as `parse_leaf` describes it. On success the second
    /// result is the count of trailing bytes left after the extensions:
    /// they are not an error, but are reported for diagnostics.
    pub fn parse(bytes: &Vec<u8>) -> (res: Result<(MerkleTreeLeaf, usize), DecodeError>)
        ensures
            match (res, parse_leaf(bytes@)) {
                (Ok((leaf, trailing)), Ok((m, n))) => leaf@ == m && leaf.wf() && trailing
                    == bytes@.len() - n,
                (Err(e1), Err(e2)) => e1 == e2,
                _ => false,
            },
    {
        let mut r = Reader::new(bytes);
        let version = match r.read_u8() {
            Ok(v) => v,
            Err(e) => {
                return Err(e);
            },
        };
        if version != 0 {
            return Err(DecodeError::UnsupportedVersion);
        }
        let leaf_type = match r.read_u8() {
            Ok(v) => v,
            Err(e) => {
                return Err(e);
            },
        };
        if leaf_type != 0 {
            return Err(DecodeError::UnsupportedLeafType);
        }
        let timestamp = match r.read_be(8) {
            Ok(v) => v,
            Err(_) => {
                return Err(DecodeError::Truncated);
            },
        };
        let tag = match r.read_be(2) {
            Ok(v) => v,
            Err(_) => {
                return Err(DecodeError::Truncated);
            },
        };
        let ghost b = bytes@;
        proof {
            assert(b.subrange(2, 10) == r.data@.subrange(2, 10));
            assert(b.subrange(10, 12) == r.data@.subrange(10, 12));
        }
        let (entry_type, signed_entry) = if tag == 0 {
            let c = match read_cert(&mut r) {
                Ok(c) => c,
                Err(e) => {
                    return Err(e);
                },
            };
            (LogEntryType::X509Entry, TimestampedEntrySignedInner::X509(c))
        } else if tag == 1 {
            let hash = match r.read_bytes(32) {
                Ok(v) => v,
                Err(_) => {
                    return Err(DecodeError::Truncated);
                },
            };
            proof {
                assert(hash@ =~= b.skip(12).take(32));
                assert(b.skip(12).skip(32) =~= b.skip(44));
            }
            let (tbs_len, tbs) = match read_tbs(&mut r) {
                Ok(v) => v,
                Err(e) => {
                    return Err(e);
                },
            };
            let pre_cert = PreCert {
                issuer_key_hash: IssuerKeyHash::new(hash),
                length: tbs_len,
                tbs_certificate: tbs,
            };
            (LogEntryType::PrecertEntry, TimestampedEntrySignedInner::Precert(pre_cert))
        } else {
            return Err(DecodeError::UnknownEntryType);
        };
        proof {
            let (s, n) = parse_signed(b.skip(12), tag as nat)->Ok_0;
            assert(signed_entry@ =~= s);
            assert(b.skip(12 + n) =~= r.data@.skip(r.pos as int));
        }
        let extensions = match read_exts(&mut r) {
            Ok(x) => x,
            Err(e) => {
                return Err(e);
            },
        };
        let trailing = r.remaining();
        let leaf = MerkleTreeLeaf {
            version: Version::V1,
            leaf_type: MerkleLeafType::TimestampedEntry,
            timestamped_entry: TimestampedEntry {
                timestamp,
                entry_type,
                signed_entry,
                extensions,
            },
        };
        proof {
            let (m, n) = parse_leaf(b)->Ok_0;
            assert(leaf@ =~= m);
        }
        Ok((leaf, trailing))
    }
}

/// Decodes the base64-wrapped leaf field of an entry into a Merkle tree
/// leaf, with the count of trailing bytes ignored after the extensions.
pub fn decode_leaf(leaf_input: &str) -> (res: Result<(MerkleTreeLeaf, usize), DecodeError>)
    ensures
        match base64_decoded(leaf_input@) {
            Option::None => res == Result::<(MerkleTreeLeaf, usize), DecodeError>::Err(
                DecodeError::Base64Error,
            ),
            Option::Some(bytes) => match (res, parse_leaf(bytes)) {
                (Ok((leaf, trailing)), Ok((m, n))) => leaf@ == m && leaf.wf() && trailing
                    == bytes.len() - n,
                (Err(e1), Err(e2)) => e1 == e2,
                _ => false,
            },
        },
{
    let bytes = match base64_decode_str(leaf_input) {
        Ok(v) => v,
        Err(e) => {
            return Err(e);
        },
    };
    MerkleTreeLeaf::parse(&bytes)
}

/// Decodes the base64-wrapped extra-data field of an entry under the
/// entry type its leaf declared: a certificate chain for an X.509 entry,
/// a precertificate followed by its issuing chain otherwise. Trailing
/// bytes after the structure are ignored.
pub fn decode_extra_data(extra_data: &str, entry_type: LogEntryType) -> (res: Result<
    DecodedEntryInner,
    DecodeError,
>)
    ensures
        match base64_decoded(extra_data@) {
            Option::None => res == Result::<DecodedEntryInner, DecodeError>::Err(
                DecodeError::Base64Error,
            ),
            Option::Some(bytes) => match (res, parse_extra(bytes, entry_type)) {
                (Ok(x), Ok((xm, n))) => x@ == xm && x.wf() && extra_entry_type(x@) == entry_type,
                (Err(e1), Err(e2)) => e1 == e2,
                _ => false,
            },
        },
{
    let bytes = match base64_decode_str(extra_data) {
        Ok(v) => v,
        Err(e) => {
            return Err(e);
        },
    };
    let mut r = Reader::new(&bytes);
    proof {
        assert(bytes@.skip(0) =~= bytes@);
    }
    match entry_type {
        LogEntryType::X509Entry => {
            let chain = match read_chain(&mut r) {
                Ok(c) => c,
                Err(e) => {
                    return Err(e);
                },
            };
            Ok(DecodedEntryInner::X509(chain))
        },
        LogEntryType::PrecertEntry => {
            let pre_certificate = match read_cert(&mut r) {
                Ok(c) => c,
                Err(e) => {
                    return Err(e);
                },
            };
            proof {
                let (pc, n) = parse_cert(bytes@)->Ok_0;
                assert(bytes@.skip(n) =~= r.data@.skip(r.pos as int));
            }
            let precertificate_chain = match read_chain(&mut r) {
                Ok(c) => c,
                Err(e) => {
                    return Err(e);
                },
            };
            Ok(
                DecodedEntryInner::Precert(
                    PrecertChainEntry { pre_certificate, precertificate_chain },
                ),
            )
        },
    }
}

impl DecodedEntry {
    /// Assembles one raw entry into a decoded record: decodes the leaf,
    /// decodes the extra data under the leaf's own entry type, and pairs
    /// them. The two entry-type tags agree by construction, which the
    /// result's well-formedness states; a decode failure of either half
    /// fails the whole entry and returns no partial structure.
    pub fn try_from(entry: &Entry) -> (res: Result<DecodedEntry, CTLogError>)
        ensures
            match base64_decoded(entry.leaf_input@) {
                Option::None => res == Result::<DecodedEntry, CTLogError>::Err(
                    CTLogError::Decode(DecodeError::Base64Error),
                ),
                Option::Some(lb) => match parse_leaf(lb) {
                    Result::Err(e) => res == Result::<DecodedEntry, CTLogError>::Err(
                        CTLogError::Decode(e),
                    ),
                    Result::Ok((m, n)) => match base64_decoded(entry.extra_data@) {
                        Option::None => res == Result::<DecodedEntry, CTLogError>::Err(
                            CTLogError::Decode(DecodeError::Base64Error),
                        ),
                        Option::Some(eb) => match parse_extra(
                            eb,
                            entry_type_of(m.signed_entry),
                        ) {
                            Result::Err(e) => res == Result::<DecodedEntry, CTLogError>::Err(
                                CTLogError::Decode(e),
                            ),
                            Result::Ok((x, k)) => match res {
                                Result::Ok(de) => de@ == (EntryModel { leaf: m, extra: x })
                                    && de.wf(),
                                Result::Err(_) => false,
                            },
                        },
                    },
                },
            },
    {
        let (leaf, _trailing) = match decode_leaf(entry.leaf_input.as_str()) {
            Ok(v) => v,
            Err(e) => {
                return Err(CTLogError::Decode(e));
            },
        };
        let entry_type = leaf.timestamped_entry.entry_type;
        let extra_data = match decode_extra_data(entry.extra_data.as_str(), entry_type) {
            Ok(v) => v,
            Err(e) => {
                return Err(CTLogError::Decode(e));
            },
        };
        let out = DecodedEntry { leaf, extra_data };
        proof {
            assert(extra_entry_type(out.extra_data@) == entry_type_of(out.leaf@.signed_entry));
        }
        Ok(out)
    }
}

} // verus!
