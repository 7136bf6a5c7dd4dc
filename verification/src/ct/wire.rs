//! The mathematical definition of the RFC 6962 binary leaf and chain wire
//! format: ghost models of the decoded structures, a parser over byte
//! sequences, an encoder back to bytes, and the laws that tie the two
//! together. The executable decoders in the sibling module promise to return
//! exactly what these parsers say.

use vstd::prelude::*;

use crate::ct::v1::LogEntryType;
use crate::reader::{be, pow256, lemma_be_bound};
use crate::DecodeError;

verus! {

/// The payload a timestamped entry signs: either one certificate, or an
/// issuer key hash with a bare to-be-signed certificate body.
#[verifier::ext_equal]
pub ghost enum SignedEntryModel {
    X509 { cert: Seq<u8> },
    Precert { issuer_key_hash: Seq<u8>, tbs: Seq<u8> },
}

/// What a well-formed Merkle tree leaf holds once decoded.
#[verifier::ext_equal]
pub ghost struct LeafModel {
    pub timestamp: u64,
    pub signed_entry: SignedEntryModel,
    pub extensions: Seq<u8>,
}

/// What a well-formed extra-data payload holds once decoded: a certificate
/// chain for an X.509 entry, or a precertificate with its issuing chain.
#[verifier::ext_equal]
pub ghost enum ExtraModel {
    X509 { chain: Seq<Seq<u8>> },
    Precert { pre_certificate: Seq<u8>, chain: Seq<Seq<u8>> },
}

/// A decoded entry: the leaf and the extra data it was fetched with.
#[verifier::ext_equal]
pub ghost struct EntryModel {
    pub leaf: LeafModel,
    pub extra: ExtraModel,
}

/// The wire tag of the entry type a signed entry carries.
pub open spec fn entry_type_tag(s: SignedEntryModel) -> nat {
    match s {
        SignedEntryModel::X509 { .. } => 0,
        SignedEntryModel::Precert { .. } => 1,
    }
}

/// The entry type a signed entry carries.
pub open spec fn entry_type_of(s: SignedEntryModel) -> LogEntryType {
    match s {
        SignedEntryModel::X509 { .. } => LogEntryType::X509Entry,
        SignedEntryModel::Precert { .. } => LogEntryType::PrecertEntry,
    }
}

/// The entry type an extra-data payload answers to.
pub open spec fn extra_entry_type(x: ExtraModel) -> LogEntryType {
    match x {
        ExtraModel::X509 { .. } => LogEntryType::X509Entry,
        ExtraModel::Precert { .. } => LogEntryType::PrecertEntry,
    }
}

/// A certificate blob small enough for its three-byte length prefix.
pub open spec fn cert_wf(c: Seq<u8>) -> bool {
    c.len() < 0x1000000
}

/// Every certificate in the chain fits its prefix, and so does the whole
/// encoded chain.
pub open spec fn chain_wf(cs: Seq<Seq<u8>>) -> bool {
    &&& forall|i: int| 0 <= i < cs.len() ==> cert_wf(#[trigger] cs[i])
    &&& enc_certs(cs).len() < 0x1000000
}

pub open spec fn signed_wf(s: SignedEntryModel) -> bool {
    match s {
        SignedEntryModel::X509 { cert } => cert_wf(cert),
        SignedEntryModel::Precert { issuer_key_hash, tbs } => issuer_key_hash.len() == 32
            && cert_wf(tbs),
    }
}

pub open spec fn leaf_wf(m: LeafModel) -> bool {
    signed_wf(m.signed_entry) && m.extensions.len() < 0x10000
}

pub open spec fn extra_wf(x: ExtraModel) -> bool {
    match x {
        ExtraModel::X509 { chain } => chain_wf(chain),
        ExtraModel::Precert { pre_certificate, chain } => cert_wf(pre_certificate) && chain_wf(
            chain,
        ),
    }
}

// ----------------------------------------------------------------------------
// Encoding
// ----------------------------------------------------------------------------
/// `v` as a `w`-byte big-endian field, most significant byte first.
pub open spec fn enc_be(v: nat, w: nat) -> Seq<u8>
    decreases w,
{
    if w == 0 {
        Seq::empty()
    } else {
        enc_be(v / 256, (w - 1) as nat).push((v % 256) as u8)
    }
}

/// One certificate: a three-byte length prefix, then the bytes themselves.
pub open spec fn enc_cert(c: Seq<u8>) -> Seq<u8> {
    enc_be(c.len(), 3) + c
}

/// Certificates one after the other, each with its own length prefix.
pub open spec fn enc_certs(cs: Seq<Seq<u8>>) -> Seq<u8>
    decreases cs.len(),
{
    if cs.len() == 0 {
        Seq::empty()
    } else {
        enc_cert(cs.first()) + enc_certs(cs.drop_first())
    }
}

/// A chain: the total byte count of its certificates, then the certificates.
pub open spec fn enc_chain(cs: Seq<Seq<u8>>) -> Seq<u8> {
    enc_be(enc_certs(cs).len(), 3) + enc_certs(cs)
}

pub open spec fn enc_signed(s: SignedEntryModel) -> Seq<u8> {
    match s {
        SignedEntryModel::X509 { cert } => enc_cert(cert),
        SignedEntryModel::Precert { issuer_key_hash, tbs } => issuer_key_hash + enc_cert(tbs),
    }
}

/// A whole leaf: version, leaf type, timestamp, entry type tag, signed
/// entry, then the length-prefixed extensions blob.
pub open spec fn enc_leaf(m: LeafModel) -> Seq<u8> {
    seq![0u8, 0u8] + enc_be(m.timestamp as nat, 8) + enc_be(entry_type_tag(m.signed_entry), 2)
        + enc_signed(m.signed_entry) + enc_be(m.extensions.len(), 2) + m.extensions
}

/// A whole extra-data payload.
pub open spec fn enc_extra(x: ExtraModel) -> Seq<u8> {
    match x {
        ExtraModel::X509 { chain } => enc_chain(chain),
        ExtraModel::Precert { pre_certificate, chain } => enc_cert(pre_certificate) + enc_chain(
            chain,
        ),
    }
}

// ----------------------------------------------------------------------------
// Parsing
// ----------------------------------------------------------------------------
/// Greedily parses length-prefixed certificates until the bytes run out.
/// `None` means the bytes do not split exactly into certificates: a prefix
/// shorter than three bytes is left over, or the last prefix promises more
/// bytes than remain.
pub open spec fn parse_certs(b: Seq<u8>) -> Option<Seq<Seq<u8>>>
    decreases b.len(),
{
    if b.len() == 0 {
        Option::Some(Seq::empty())
    } else if b.len() < 3 {
        Option::None
    } else {
        let l = be(b.take(3)) as int;
        if b.len() < 3 + l {
            Option::None
        } else {
            match parse_certs(b.skip(3 + l)) {
                Option::Some(rest) => Option::Some(seq![b.subrange(3, 3 + l)] + rest),
                Option::None => Option::None,
            }
        }
    }
}

/// One certificate at the front of `b`: its bytes and how far it reaches.
pub open spec fn parse_cert(b: Seq<u8>) -> Result<(Seq<u8>, int), DecodeError> {
    if b.len() < 3 {
        Result::Err(DecodeError::Truncated)
    } else {
        let l = be(b.take(3)) as int;
        if b.len() < 3 + l {
            Result::Err(DecodeError::Truncated)
        } else {
            Result::Ok((b.subrange(3, 3 + l), 3 + l))
        }
    }
}

/// A chain at the front of `b`: the declared region must split exactly into
/// certificates, or the chain is corrupt.
pub open spec fn parse_chain(b: Seq<u8>) -> Result<(Seq<Seq<u8>>, int), DecodeError> {
    if b.len() < 3 {
        Result::Err(DecodeError::Truncated)
    } else {
        let l = be(b.take(3)) as int;
        if b.len() < 3 + l {
            Result::Err(DecodeError::Truncated)
        } else {
            match parse_certs(b.subrange(3, 3 + l)) {
                Option::Some(cs) => Result::Ok((cs, 3 + l)),
                Option::None => Result::Err(DecodeError::ChainLengthMismatch),
            }
        }
    }
}

/// The signed entry selected by the entry type tag.
pub open spec fn parse_signed(b: Seq<u8>, tag: nat) -> Result<
    (SignedEntryModel, int),
    DecodeError,
>
    recommends
        tag == 0 || tag == 1,
{
    if tag == 0 {
        match parse_cert(b) {
            Result::Ok((c, n)) => Result::Ok((SignedEntryModel::X509 { cert: c }, n)),
            Result::Err(e) => Result::Err(e),
        }
    } else {
        if b.len() < 32 {
            Result::Err(DecodeError::Truncated)
        } else {
            match parse_cert(b.skip(32)) {
                Result::Ok((t, n)) => Result::Ok(
                    (SignedEntryModel::Precert { issuer_key_hash: b.take(32), tbs: t }, 32 + n),
                ),
                Result::Err(e) => Result::Err(e),
            }
        }
    }
}

/// The opaque extensions blob: a two-byte length prefix, then the bytes.
pub open spec fn parse_exts(b: Seq<u8>) -> Result<(Seq<u8>, int), DecodeError> {
    if b.len() < 2 {
        Result::Err(DecodeError::Truncated)
    } else {
        let l = be(b.take(2)) as int;
        if b.len() < 2 + l {
            Result::Err(DecodeError::Truncated)
        } else {
            Result::Ok((b.subrange(2, 2 + l), 2 + l))
        }
    }
}

/// A whole Merkle tree leaf, checked field by field in wire order. The
/// version byte is judged before anything after it is looked at, then the
/// leaf type, then the fixed header, then the tagged payload. Trailing
/// bytes past the extensions are not consumed and are not an error.
pub open spec fn parse_leaf(b: Seq<u8>) -> Result<(LeafModel, int), DecodeError> {
    if b.len() < 1 {
        Result::Err(DecodeError::Truncated)
    } else if b[0] != 0 {
        Result::Err(DecodeError::UnsupportedVersion)
    } else if b.len() < 2 {
        Result::Err(DecodeError::Truncated)
    } else if b[1] != 0 {
        Result::Err(DecodeError::UnsupportedLeafType)
    } else if b.len() < 12 {
        Result::Err(DecodeError::Truncated)
    } else {
        let ts = be(b.subrange(2, 10));
        let tag = be(b.subrange(10, 12));
        if tag != 0 && tag != 1 {
            Result::Err(DecodeError::UnknownEntryType)
        } else {
            match parse_signed(b.skip(12), tag) {
                Result::Ok((s, n)) => match parse_exts(b.skip(12 + n)) {
                    Result::Ok((e, m)) => Result::Ok(
                        (
                            LeafModel { timestamp: ts as u64, signed_entry: s, extensions: e },
                            12 + n + m,
                        ),
                    ),
                    Result::Err(err) => Result::Err(err),
                },
                Result::Err(e) => Result::Err(e),
            }
        }
    }
}

/// The extra-data payload, decoded under the entry type the leaf declared.
pub open spec fn parse_extra(b: Seq<u8>, t: LogEntryType) -> Result<(ExtraModel, int), DecodeError> {
    match t {
        LogEntryType::X509Entry => match parse_chain(b) {
            Result::Ok((cs, n)) => Result::Ok((ExtraModel::X509 { chain: cs }, n)),
            Result::Err(e) => Result::Err(e),
        },
        LogEntryType::PrecertEntry => match parse_cert(b) {
            Result::Ok((pc, n)) => match parse_chain(b.skip(n)) {
                Result::Ok((cs, m)) => Result::Ok(
                    (ExtraModel::Precert { pre_certificate: pc, chain: cs }, n + m),
                ),
                Result::Err(e) => Result::Err(e),
            },
            Result::Err(e) => Result::Err(e),
        },
    }
}

// ----------------------------------------------------------------------------
// Laws
// ----------------------------------------------------------------------------
pub proof fn lemma_enc_be_len(v: nat, w: nat)
    ensures
        enc_be(v, w).len() == w,
    decreases w,
{
    if w > 0 {
        lemma_enc_be_len(v / 256, (w - 1) as nat);
    }
}

/// Reading back a big-endian encoding gives the value encoded.
pub proof fn lemma_be_enc_be(v: nat, w: nat)
    requires
        v < pow256(w),
    ensures
        be(enc_be(v, w)) == v,
    decreases w,
{
    if w > 0 {
        let s = enc_be(v / 256, (w - 1) as nat);
        assert(enc_be(v, w).drop_last() =~= s);
        vstd::arithmetic::div_mod::lemma_fundamental_div_mod(v as int, 256);
        assert(v / 256 < pow256((w - 1) as nat));
        lemma_be_enc_be(v / 256, (w - 1) as nat);
    }
}

/// Encoding the value a byte string reads as, at the string's own width,
/// gives the string back: a big-endian field encodes one way only.
pub proof fn lemma_enc_be_inv(b: Seq<u8>)
    ensures
        enc_be(be(b), b.len()) == b,
    decreases b.len(),
{
    if b.len() == 0 {
        assert(enc_be(be(b), b.len()) =~= b);
    } else {
        let v = be(b);
        let q = be(b.drop_last());
        let r = b.last() as int;
        vstd::arithmetic::div_mod::lemma_fundamental_div_mod_converse(
            v as int,
            256,
            q as int,
            r,
        );
        lemma_enc_be_inv(b.drop_last());
        assert(enc_be(v, b.len()) =~= b);
    }
}

/// A sequence of well-formed certificates reads back from its encoding:
/// the greedy parse consumes it exactly and returns the same certificates.
pub proof fn lemma_parse_certs_of_enc(cs: Seq<Seq<u8>>)
    requires
        forall|i: int| 0 <= i < cs.len() ==> cert_wf(#[trigger] cs[i]),
    ensures
        parse_certs(enc_certs(cs)) == Option::Some(cs),
    decreases cs.len(),
{
    reveal_with_fuel(pow256, 4);
    if cs.len() == 0 {
        assert(enc_certs(cs).len() == 0);
    } else {
        let f = cs.first();
        let rest = cs.drop_first();
        let b = enc_certs(cs);
        lemma_enc_be_len(f.len(), 3);
        assert(b.take(3) =~= enc_be(f.len(), 3));
        lemma_be_enc_be(f.len(), 3);
        let l = f.len() as int;
        assert(b.subrange(3, 3 + l) =~= f);
        assert(b.skip(3 + l) =~= enc_certs(rest));
        assert(forall|i: int| 0 <= i < rest.len() ==> cert_wf(#[trigger] rest[i]));
        lemma_parse_certs_of_enc(rest);
        assert(seq![b.subrange(3, 3 + l)] + rest =~= cs);
    }
}

/// The greedy certificate parse succeeds only on an exact encoding: if it
/// returns certificates, the input is byte for byte their encoding. With
/// the law above, a declared chain region decodes if and only if it splits
/// exactly; any surplus or shortfall is rejected.
pub proof fn lemma_parse_certs_exact(b: Seq<u8>, cs: Seq<Seq<u8>>)
    requires
        parse_certs(b) == Option::Some(cs),
    ensures
        b == enc_certs(cs),
        forall|i: int| 0 <= i < cs.len() ==> cert_wf(#[trigger] cs[i]),
    decreases b.len(),
{
    reveal_with_fuel(pow256, 4);
    if b.len() == 0 {
        assert(cs =~= Seq::<Seq<u8>>::empty());
        assert(b =~= enc_certs(cs));
    } else {
        let l = be(b.take(3)) as int;
        lemma_be_bound(b.take(3));
        let first = b.subrange(3, 3 + l);
        let tail = b.skip(3 + l);
        let rest = parse_certs(tail)->Some_0;
        lemma_parse_certs_exact(tail, rest);
        assert(cs == seq![first] + rest);
        assert(cs.first() == first);
        assert(cs.drop_first() =~= rest);
        lemma_enc_be_inv(b.take(3));
        assert(enc_be(first.len(), 3) == b.take(3));
        assert(b =~= enc_cert(first) + enc_certs(rest));
        assert(forall|i: int| 0 <= i < cs.len() ==> cert_wf(#[trigger] cs[i]));
    }
}

/// One encoded certificate at the front of a buffer reads back as itself,
/// whatever follows it.
pub proof fn lemma_parse_cert_of_enc(c: Seq<u8>, suffix: Seq<u8>)
    requires
        cert_wf(c),
    ensures
        parse_cert(enc_cert(c) + suffix) == Result::<(Seq<u8>, int), DecodeError>::Ok(
            (c, 3 + c.len() as int),
        ),
{
    reveal_with_fuel(pow256, 4);
    let b = enc_cert(c) + suffix;
    lemma_enc_be_len(c.len(), 3);
    assert(b.take(3) =~= enc_be(c.len(), 3));
    lemma_be_enc_be(c.len(), 3);
    let l = c.len() as int;
    assert(b.subrange(3, 3 + l) =~= c);
}

/// An encoded chain at the front of a buffer reads back as itself,
/// whatever follows it.
pub proof fn lemma_parse_chain_of_enc(cs: Seq<Seq<u8>>, suffix: Seq<u8>)
    requires
        chain_wf(cs),
    ensures
        parse_chain(enc_chain(cs) + suffix) == Result::<(Seq<Seq<u8>>, int), DecodeError>::Ok(
            (cs, 3 + enc_certs(cs).len() as int),
        ),
{
    reveal_with_fuel(pow256, 4);
    let body = enc_certs(cs);
    let b = enc_chain(cs) + suffix;
    lemma_enc_be_len(body.len(), 3);
    assert(b.take(3) =~= enc_be(body.len(), 3));
    lemma_be_enc_be(body.len(), 3);
    let l = body.len() as int;
    assert(b.subrange(3, 3 + l) =~= body);
    lemma_parse_certs_of_enc(cs);
}

/// A length-prefixed extensions blob at the front of a buffer reads back
/// as itself, whatever follows it.
pub proof fn lemma_parse_exts_of_enc(x: Seq<u8>, suffix: Seq<u8>)
    requires
        x.len() < 0x10000,
    ensures
        parse_exts(enc_be(x.len(), 2) + x + suffix) == Result::<(Seq<u8>, int), DecodeError>::Ok(
            (x, 2 + x.len() as int),
        ),
{
    reveal_with_fuel(pow256, 3);
    let b = enc_be(x.len(), 2) + x + suffix;
    lemma_enc_be_len(x.len(), 2);
    assert(b.take(2) =~= enc_be(x.len(), 2));
    lemma_be_enc_be(x.len(), 2);
    let l = x.len() as int;
    assert(b.subrange(2, 2 + l) =~= x);
}

/// A whole encoded leaf reads back as the model it encodes, whatever
/// trailing bytes follow it; the trailing bytes are left unconsumed.
#[verifier::rlimit(100)]
pub proof fn lemma_parse_leaf_of_enc(m: LeafModel, trailing: Seq<u8>)
    requires
        leaf_wf(m),
    ensures
        parse_leaf(enc_leaf(m) + trailing) == Result::<(LeafModel, int), DecodeError>::Ok(
            (m, enc_leaf(m).len() as int),
        ),
{
    reveal_with_fuel(pow256, 9);
    let ts_b = enc_be(m.timestamp as nat, 8);
    let tag = entry_type_tag(m.signed_entry);
    let tag_b = enc_be(tag, 2);
    let s_b = enc_signed(m.signed_entry);
    let e_b = enc_be(m.extensions.len(), 2);
    let b = enc_leaf(m) + trailing;
    lemma_enc_be_len(m.timestamp as nat, 8);
    lemma_enc_be_len(tag, 2);
    lemma_enc_be_len(m.extensions.len(), 2);
    let slen = s_b.len() as int;
    let xlen = m.extensions.len() as int;
    let suffix = e_b + m.extensions + trailing;
    assert(b =~= seq![0u8, 0u8] + ts_b + tag_b + s_b + e_b + m.extensions + trailing);
    assert(b.len() == 14 + slen + xlen + trailing.len());
    assert(b[0] == 0);
    assert(b[1] == 0);
    assert(b.subrange(2, 10) =~= ts_b);
    lemma_be_enc_be(m.timestamp as nat, 8);
    assert(be(b.subrange(2, 10)) == m.timestamp as nat);
    assert(b.subrange(10, 12) =~= tag_b);
    lemma_be_enc_be(tag, 2);
    assert(be(b.subrange(10, 12)) == tag);
    let after_header = b.skip(12);
    assert(after_header =~= s_b + suffix);
    let after_signed = b.skip(12 + slen);
    assert(after_signed =~= suffix);
    lemma_parse_exts_of_enc(m.extensions, trailing);
    assert(enc_be(m.extensions.len(), 2) + m.extensions + trailing == suffix);
    assert(parse_exts(after_signed) == Result::<(Seq<u8>, int), DecodeError>::Ok(
        (m.extensions, 2 + xlen),
    ));
    match m.signed_entry {
        SignedEntryModel::X509 { cert } => {
            lemma_parse_cert_of_enc(cert, suffix);
            lemma_enc_be_len(cert.len(), 3);
            assert(after_header =~= enc_cert(cert) + suffix);
            assert(parse_cert(after_header) == Result::<(Seq<u8>, int), DecodeError>::Ok(
                (cert, 3 + cert.len() as int),
            ));
            assert(slen == 3 + cert.len());
            assert(parse_signed(after_header, tag) == Result::<
                (SignedEntryModel, int),
                DecodeError,
            >::Ok((m.signed_entry, slen)));
        },
        SignedEntryModel::Precert { issuer_key_hash, tbs } => {
            lemma_enc_be_len(tbs.len(), 3);
            assert(after_header.take(32) =~= issuer_key_hash);
            assert(after_header.skip(32) =~= enc_cert(tbs) + suffix);
            lemma_parse_cert_of_enc(tbs, suffix);
            assert(parse_cert(after_header.skip(32)) == Result::<
                (Seq<u8>, int),
                DecodeError,
            >::Ok((tbs, 3 + tbs.len() as int)));
            assert(slen == 32 + 3 + tbs.len());
            assert(parse_signed(after_header, tag) == Result::<
                (SignedEntryModel, int),
                DecodeError,
            >::Ok((m.signed_entry, slen)));
        },
    }
    assert(parse_signed(after_header, tag) == Result::<(SignedEntryModel, int), DecodeError>::Ok(
        (m.signed_entry, slen),
    ));
    assert((m.timestamp as nat) as u64 == m.timestamp);
    assert(parse_leaf(b) == Result::<(LeafModel, int), DecodeError>::Ok(
        (
            LeafModel {
                timestamp: m.timestamp,
                signed_entry: m.signed_entry,
                extensions: m.extensions,
            },
            12 + slen + 2 + xlen,
        ),
    ));
    assert(LeafModel {
        timestamp: m.timestamp,
        signed_entry: m.signed_entry,
        extensions: m.extensions,
    } =~= m);
    assert(enc_leaf(m).len() == 14 + slen + xlen);
}

/// A whole encoded extra-data payload reads back as the model it encodes,
/// under the entry type that payload answers to.
pub proof fn lemma_parse_extra_of_enc(x: ExtraModel, trailing: Seq<u8>)
    requires
        extra_wf(x),
    ensures
        parse_extra(enc_extra(x) + trailing, extra_entry_type(x)) == Result::<
            (ExtraModel, int),
            DecodeError,
        >::Ok((x, enc_extra(x).len() as int)),
{
    match x {
        ExtraModel::X509 { chain } => {
            lemma_parse_chain_of_enc(chain, trailing);
            lemma_enc_be_len(enc_certs(chain).len(), 3);
        },
        ExtraModel::Precert { pre_certificate, chain } => {
            lemma_enc_be_len(pre_certificate.len(), 3);
            lemma_enc_be_len(enc_certs(chain).len(), 3);
            let b = enc_extra(x) + trailing;
            assert(b =~= enc_cert(pre_certificate) + (enc_chain(chain) + trailing));
            lemma_parse_cert_of_enc(pre_certificate, enc_chain(chain) + trailing);
            assert(parse_cert(b) == Result::<(Seq<u8>, int), DecodeError>::Ok(
                (pre_certificate, 3 + pre_certificate.len() as int),
            ));
            let n = 3 + pre_certificate.len() as int;
            assert(b.skip(n) =~= enc_chain(chain) + trailing);
            lemma_parse_chain_of_enc(chain, trailing);
        },
    }
}

/// The version byte is judged before any later field: a leaf whose first
/// byte is not the supported version fails with `UnsupportedVersion`
/// whatever else the buffer holds, and nothing after that byte is read.
pub proof fn lemma_version_judged_first(b: Seq<u8>)
    requires
        b.len() >= 1,
        b[0] != 0,
    ensures
        parse_leaf(b) == Result::<(LeafModel, int), DecodeError>::Err(
            DecodeError::UnsupportedVersion,
        ),
{
}

/// A leaf and an extra-data payload decoded under the leaf's own entry
/// type always agree on the entry type: the decode is driven by the tag,
/// so a disagreement cannot arise.
pub proof fn lemma_entry_types_agree(
    leaf_bytes: Seq<u8>,
    extra_bytes: Seq<u8>,
    m: LeafModel,
    n: int,
    x: ExtraModel,
    k: int,
)
    requires
        parse_leaf(leaf_bytes) == Result::<(LeafModel, int), DecodeError>::Ok((m, n)),
        parse_extra(extra_bytes, entry_type_of(m.signed_entry)) == Result::<
            (ExtraModel, int),
            DecodeError,
        >::Ok((x, k)),
    ensures
        extra_entry_type(x) == entry_type_of(m.signed_entry),
{
}

} // verus!
