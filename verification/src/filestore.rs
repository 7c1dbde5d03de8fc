//! PEM-backed material and the file cache. Decoding PEM sections and
//! checking trust-anchor DER is done by the `pem`, `rustls-pemfile` and
//! `webpki` crates behind trusted wrappers; the kind checks, tag checks
//! and the cache discipline (at most one parse per path) are verified.
//! Reading file bytes happens outside; this module parses and caches.

use vstd::prelude::*;

use crate::config::{FileContent, PrivateKey, PrivateKeyKind};
use crate::error::ErrorReason;
use crate::text::bytes_to_vec;

verus! {

/// The PEM sections of a byte string: each section's tag and decoded
/// contents, in order; nothing when the input is not well-formed PEM.
/// Decoding is a function of the bytes alone.
pub uninterp spec fn spec_pem_blocks(data: Seq<u8>) -> Option<Seq<(Seq<char>, Seq<u8>)>>;

/// Relies on `pem::parse_many` and `pem::Pem::{tag, into_contents}`: the
/// tag and contents of every PEM section, in order.
#[verifier::external_body]
pub(crate) fn pem_parse_many(data: &[u8]) -> (r: Result<Vec<(String, Vec<u8>)>, ()>)
    ensures
        r is Ok <==> spec_pem_blocks(data@) is Some,
        r matches Ok(v) ==> Some(Seq::new(v@.len(), |i: int| (v@[i].0@, v@[i].1@))) == spec_pem_blocks(data@),
{
    match pem::parse_many(data) {
        Ok(pems) => Ok(pems
            .into_iter()
            .map(|p| {
                let tag = p.tag().to_owned();
                (tag, p.into_contents())
            })
            .collect()),
        Err(_) => Err(()),
    }
}

/// The DER contents of the CERTIFICATE sections of a byte string, or
/// nothing when a section is malformed; a function of the bytes alone.
pub uninterp spec fn spec_pemfile_certs(data: Seq<u8>) -> Option<Seq<Seq<u8>>>;

/// Relies on `rustls_pemfile::certs`: the DER bytes of each CERTIFICATE
/// section, in order.
#[verifier::external_body]
pub(crate) fn pemfile_certs(data: &[u8]) -> (r: Result<Vec<Vec<u8>>, ()>)
    ensures
        r is Ok <==> spec_pemfile_certs(data@) is Some,
        r matches Ok(v) ==> Some(v.deep_view()) == spec_pemfile_certs(data@),
{
    let mut cursor = std::io::Cursor::new(data);
    match rustls_pemfile::certs(&mut cursor).collect::<Result<Vec<_>, std::io::Error>>() {
        Ok(certs) => Ok(certs.into_iter().map(|c| c.as_ref().to_vec()).collect()),
        Err(_) => Err(()),
    }
}

/// The first private key of a byte string — its kind and DER bytes — or
/// none; a function of the bytes alone.
pub uninterp spec fn spec_pemfile_key(data: Seq<u8>) -> Option<Option<(PrivateKeyKind, Seq<u8>)>>;

/// Relies on `rustls_pemfile::private_key` and pki-types'
/// `PrivateKeyDer::secret_der`: the first PKCS#1, PKCS#8 or SEC1 key.
#[verifier::external_body]
pub(crate) fn pemfile_private_key(data: &[u8]) -> (r: Result<Option<PrivateKey>, ()>)
    ensures
        r is Ok <==> spec_pemfile_key(data@) is Some,
        r matches Ok(ko) ==> Some(match ko {
            Some(k) => Some((k.kind, k.der@)),
            None => None,
        }) == spec_pemfile_key(data@),
{
    let mut cursor = std::io::Cursor::new(data);
    match rustls_pemfile::private_key(&mut cursor) {
        Ok(Some(k)) => {
            let kind = match &k {
                rustls_pki_types::PrivateKeyDer::Pkcs1(_) => PrivateKeyKind::Pkcs1,
                rustls_pki_types::PrivateKeyDer::Pkcs8(_) => PrivateKeyKind::Pkcs8,
                rustls_pki_types::PrivateKeyDer::Sec1(_) => PrivateKeyKind::Sec1,
                _ => PrivateKeyKind::Pkcs8,
            };
            Ok(Some(PrivateKey { kind, der: k.secret_der().to_vec() }))
        },
        Ok(None) => Ok(None),
        Err(_) => Err(()),
    }
}

/// Whether DER bytes form a usable trust-anchor certificate; a function
/// of the bytes alone.
pub uninterp spec fn spec_trust_anchor_ok(der: Seq<u8>) -> bool;

/// Relies on `webpki::TrustAnchor::try_from_cert_der`: whether the DER
/// parses as a certificate whose subject, key info and name constraints
/// can serve as a trust anchor. webpki checks neither self-signedness nor
/// the CA basic constraint here.
#[verifier::external_body]
pub(crate) fn trust_anchor_der_ok(der: &[u8]) -> (r: bool)
    ensures
        r == spec_trust_anchor_ok(der@),
{
    webpki::TrustAnchor::try_from_cert_der(der).is_ok()
}

/// Whether two string slices hold the same characters.
pub fn str_eq(a: &str, b: &str) -> (r: bool)
    ensures
        r == (a@ == b@),
{
    let n: usize = a.unicode_len();
    if n != b.unicode_len() {
        assert(a@.len() != b@.len());
        return false;
    }
    for i in 0..n
        invariant
            n == a@.len() && n == b@.len(),
            forall|j: int| 0 <= j < i ==> a@[j] == b@[j],
    {
        if a.get_char(i) != b.get_char(i) {
            return false;
        }
    }
    proof {
        assert(a@ =~= b@);
    }
    true
}

/// What kind of material a file is parsed as.
#[derive(Clone, Copy, Debug, PartialEq, Eq, Structural)]
pub enum FileType {
    TrustAnchors,
    Certificates,
    PrivateKey,
    Data,
}

/// Parsed file material: trust anchors or certificates as DER lists, a
/// private key, or raw bytes.
#[derive(Clone, Debug)]
pub enum FileData {
    TrustAnchors(Vec<Vec<u8>>),
    Certificates(Vec<Vec<u8>>),
    PrivateKey(PrivateKey),
    Data(Vec<u8>),
}

/// The spec-level shape of parsed file material.
#[verifier::ext_equal]
pub enum FileDataV {
    TrustAnchors(Seq<Seq<u8>>),
    Certificates(Seq<Seq<u8>>),
    PrivateKey(PrivateKeyKind, Seq<u8>),
    Data(Seq<u8>),
}

impl View for FileData {
    type V = FileDataV;

    open spec fn view(&self) -> FileDataV {
        match self {
            FileData::TrustAnchors(v) => FileDataV::TrustAnchors(v.deep_view()),
            FileData::Certificates(v) => FileDataV::Certificates(v.deep_view()),
            FileData::PrivateKey(k) => FileDataV::PrivateKey(k.kind, k.der@),
            FileData::Data(d) => FileDataV::Data(d@),
        }
    }
}

impl FileData {
    /// A copy with the same contents.
    pub fn duplicate(&self) -> (r: FileData)
        ensures
            r@ == self@,
    {
        match self {
            FileData::TrustAnchors(v) => FileData::TrustAnchors(crate::config::clone_bytes_list(v)),
            FileData::Certificates(v) => FileData::Certificates(crate::config::clone_bytes_list(v)),
            FileData::PrivateKey(k) => FileData::PrivateKey(k.duplicate()),
            FileData::Data(d) => FileData::Data(d.clone()),
        }
    }

    /// The trust anchors, when this is trust-anchor material.
    pub fn clone_trust_anchors(&self) -> (r: Option<Vec<Vec<u8>>>)
        ensures
            match r {
                Some(v) => self@ matches FileDataV::TrustAnchors(a) && v.deep_view() == a,
                None => !(self@ is TrustAnchors),
            },
    {
        match self {
            FileData::TrustAnchors(v) => Some(crate::config::clone_bytes_list(v)),
            _ => None,
        }
    }

    /// The certificate chain, when this is certificate material.
    pub fn clone_certificates(&self) -> (r: Option<Vec<Vec<u8>>>)
        ensures
            match r {
                Some(v) => self@ matches FileDataV::Certificates(a) && v.deep_view() == a,
                None => !(self@ is Certificates),
            },
    {
        match self {
            FileData::Certificates(v) => Some(crate::config::clone_bytes_list(v)),
            _ => None,
        }
    }

    /// The private key, when this is key material.
    pub fn clone_private_key(&self) -> (r: Option<PrivateKey>)
        ensures
            match r {
                Some(k) => self@ matches FileDataV::PrivateKey(kk, dd) && k.kind == kk && k.der@ == dd,
                None => !(self@ is PrivateKey),
            },
    {
        match self {
            FileData::PrivateKey(k) => Some(k.duplicate()),
            _ => None,
        }
    }
}

/// What parsing a buffer as a given kind yields: the material on success,
/// the owed error otherwise. Trust-anchor material keeps every CERTIFICATE
/// section; certificate material must be nonempty; key material must hold
/// a key.
pub open spec fn spec_parse_outcome(data: Seq<u8>, file_type: FileType) -> Result<FileDataV, ErrorReason> {
    match file_type {
        FileType::TrustAnchors => match spec_pemfile_certs(data) {
            Some(certs) => Ok(FileDataV::TrustAnchors(certs)),
            None => Err(ErrorReason::InvalidPemTag),
        },
        FileType::Certificates => match spec_pemfile_certs(data) {
            Some(certs) => if certs.len() > 0 {
                Ok(FileDataV::Certificates(certs))
            } else {
                Err(ErrorReason::InvalidPemTag)
            },
            None => Err(ErrorReason::InvalidPemTag),
        },
        FileType::PrivateKey => match spec_pemfile_key(data) {
            Some(k) => match k {
                Some((kind, der)) => Ok(FileDataV::PrivateKey(kind, der)),
                None => Err(ErrorReason::MissingPrivateKey),
            },
            None => Err(ErrorReason::InvalidPemTag),
        },
        FileType::Data => Ok(FileDataV::Data(data)),
    }
}

/// Parses a buffer as the requested kind of material. Certificate
/// material must hold at least one certificate; key material must hold a
/// key; trust-anchor material keeps every CERTIFICATE section (unusable
/// ones are dropped later, when an actual root store is built).
pub fn parse_buffer(buf: &[u8], file_type: FileType) -> (r: Result<FileData, ErrorReason>)
    ensures
        match r {
            Ok(d) => spec_parse_outcome(buf@, file_type) == Ok::<FileDataV, ErrorReason>(d@),
            Err(e) => spec_parse_outcome(buf@, file_type) == Err::<FileDataV, ErrorReason>(e),
        },
{
    match file_type {
        FileType::TrustAnchors => {
            match pemfile_certs(buf) {
                Ok(certs) => Ok(FileData::TrustAnchors(certs)),
                Err(_) => Err(ErrorReason::InvalidPemTag),
            }
        },
        FileType::Certificates => {
            match pemfile_certs(buf) {
                Ok(certs) => {
                    if certs.len() == 0 {
                        proof {
                            assert(certs.deep_view() =~= Seq::<Seq<u8>>::empty());
                        }
                        Err(ErrorReason::InvalidPemTag)
                    } else {
                        Ok(FileData::Certificates(certs))
                    }
                },
                Err(_) => Err(ErrorReason::InvalidPemTag),
            }
        },
        FileType::PrivateKey => {
            match pemfile_private_key(buf) {
                Ok(Some(key)) => Ok(FileData::PrivateKey(key)),
                Ok(None) => Err(ErrorReason::MissingPrivateKey),
                Err(_) => Err(ErrorReason::InvalidPemTag),
            }
        },
        FileType::Data => Ok(FileData::Data(bytes_to_vec(buf))),
    }
}

/// The path-keyed cache of parsed file material. Entries are inserted
/// once per path and then reused, so each path is read and parsed at most
/// once.
#[derive(Debug)]
pub struct FileStore {
    pub data: Vec<(String, FileData)>,
}

impl FileStore {
    /// Paths are cached at most once.
    pub open spec fn wf(&self) -> bool {
        forall|i: int, j: int| 0 <= i < j < self.data@.len()
            ==> (#[trigger] self.data@[i].0)@ != (#[trigger] self.data@[j].0)@
    }

    /// Whether a path is cached, and as what.
    pub open spec fn spec_get(&self, path: Seq<char>) -> Option<FileDataV> {
        if exists|i: int| 0 <= i < self.data@.len() && (#[trigger] self.data@[i].0)@ == path {
            let i = choose|i: int| 0 <= i < self.data@.len() && (#[trigger] self.data@[i].0)@ == path;
            Some(self.data@[i].1@)
        } else {
            None
        }
    }

    /// An empty cache.
    pub fn new() -> (r: FileStore)
        ensures
            r.wf(),
            r.data@.len() == 0,
    {
        FileStore { data: Vec::new() }
    }

    /// The cached material of a path, if any.
    #[verifier::loop_isolation(false)]
    pub fn get(&self, path: &String) -> (r: Option<FileData>)
        requires
            self.wf(),
        ensures
            match r {
                Some(d) => self.spec_get(path@) == Some(d@),
                None => self.spec_get(path@) is None,
            },
    {
        let n: usize = self.data.len();
        for i in 0..n
            invariant
                n == self.data@.len(),
                forall|j: int| 0 <= j < i ==> (#[trigger] self.data@[j].0)@ != path@,
        {
            if self.data[i].0 == *path {
                proof {
                    let w = choose|w: int| 0 <= w < self.data@.len() && (#[trigger] self.data@[w].0)@ == path@;
                    if w != i as int {
                        if w < i as int {
                            assert(self.data@[w].0@ != self.data@[i as int].0@);
                        } else {
                            assert(self.data@[i as int].0@ != self.data@[w].0@);
                        }
                    }
                }
                return Some(self.data[i].1.duplicate());
            }
        }
        None
    }

    /// Caches material for a path not yet cached.
    pub fn insert(&mut self, path: String, data: FileData)
        requires
            old(self).wf(),
            old(self).spec_get(path@) is None,
        ensures
            final(self).wf(),
            final(self).spec_get(path@) == Some(data@),
            forall|p: Seq<char>| p != path@
                ==> #[trigger] final(self).spec_get(p) == old(self).spec_get(p),
    {
        let ghost pathv = path@;
        let ghost datav = data@;
        self.data.push((path, data));
        proof {
            let pre = old(self);
            let n = pre.data@.len() as int;
            assert(self.data@.drop_last() =~= pre.data@);
            assert forall|i: int, j: int| 0 <= i < j < self.data@.len()
                implies (#[trigger] self.data@[i].0)@ != (#[trigger] self.data@[j].0)@ by {
                if j < n {
                    assert(pre.data@[i].0@ != pre.data@[j].0@);
                } else {
                    assert(self.data@[j].0@ == pathv);
                    if pre.data@[i].0@ == pathv {
                        assert(pre.spec_get(pathv) is Some);
                    }
                }
            }
            assert(self.data@[n].0@ == pathv);
            assert(self.spec_get(pathv) == Some(datav)) by {
                let w = choose|w: int| 0 <= w < self.data@.len() && (#[trigger] self.data@[w].0)@ == pathv;
                if w != n {
                    assert(self.data@[w].0@ != self.data@[n].0@);
                }
            }
            assert forall|p: Seq<char>| p != pathv
                implies #[trigger] self.spec_get(p) == pre.spec_get(p) by {
                if exists|i: int| 0 <= i < pre.data@.len() && (#[trigger] pre.data@[i].0)@ == p {
                    let w = choose|i: int| 0 <= i < pre.data@.len() && (#[trigger] pre.data@[i].0)@ == p;
                    assert(self.data@[w].0@ == p);
                    let w1 = choose|i: int| 0 <= i < self.data@.len() && (#[trigger] self.data@[i].0)@ == p;
                    let w2 = choose|i: int| 0 <= i < pre.data@.len() && (#[trigger] pre.data@[i].0)@ == p;
                    if w1 != w2 {
                        if w1 < w2 {
                            assert(self.data@[w1].0@ != self.data@[w2].0@);
                        } else {
                            assert(self.data@[w2].0@ != self.data@[w1].0@);
                        }
                    }
                } else {
                    if exists|i: int| 0 <= i < self.data@.len() && (#[trigger] self.data@[i].0)@ == p {
                        let w = choose|i: int| 0 <= i < self.data@.len() && (#[trigger] self.data@[i].0)@ == p;
                        assert(w == n);
                    }
                }
            }
        }
    }

    /// Parses bytes for a path and caches the outcome; the cached entry
    /// wins when the path was already parsed, whatever was read since. A
    /// failed parse is not cached.
    pub fn store_parsed(&mut self, path: &String, bytes: &[u8], file_type: FileType) -> (r: Result<FileData, ErrorReason>)
        requires
            old(self).wf(),
        ensures
            final(self).wf(),
            old(self).spec_get(path@) matches Some(d)
                ==> (r matches Ok(v) && v@ == d) && *final(self) == *old(self),
            old(self).spec_get(path@) is None ==> match r {
                Ok(v) => spec_parse_outcome(bytes@, file_type) == Ok::<FileDataV, ErrorReason>(v@)
                    && final(self).spec_get(path@) == Some(v@)
                    && (forall|p: Seq<char>| p != path@
                        ==> #[trigger] final(self).spec_get(p) == old(self).spec_get(p)),
                Err(e) => spec_parse_outcome(bytes@, file_type) == Err::<FileDataV, ErrorReason>(e)
                    && *final(self) == *old(self),
            },
    {
        if let Some(cached) = self.get(path) {
            return Ok(cached);
        }
        match parse_buffer(bytes, file_type) {
            Ok(data) => {
                let out = data.duplicate();
                self.insert(path.clone(), data);
                Ok(out)
            },
            Err(e) => Err(e),
        }
    }

    /// Parses an inline or path-backed reference: inline content is
    /// parsed on demand and never cached; path content must have its
    /// bytes supplied by the caller and goes through the cache.
    pub fn load_file_content(&mut self, file_content: &FileContent, bytes: &[u8], file_type: FileType) -> (r: Result<FileData, ErrorReason>)
        requires
            old(self).wf(),
        ensures
            final(self).wf(),
            file_content matches FileContent::Inline { content } ==> *final(self) == *old(self)
                && match r {
                    Ok(d) => spec_parse_outcome(content@, file_type) == Ok::<FileDataV, ErrorReason>(d@),
                    Err(e) => spec_parse_outcome(content@, file_type) == Err::<FileDataV, ErrorReason>(e),
                },
            file_content matches FileContent::Path { path } ==> {
                &&& old(self).spec_get(path@) matches Some(d)
                    ==> (r matches Ok(v) && v@ == d) && *final(self) == *old(self)
                &&& old(self).spec_get(path@) is None ==> match r {
                    Ok(v) => spec_parse_outcome(bytes@, file_type) == Ok::<FileDataV, ErrorReason>(v@)
                        && final(self).spec_get(path@) == Some(v@),
                    Err(e) => spec_parse_outcome(bytes@, file_type) == Err::<FileDataV, ErrorReason>(e)
                        && *final(self) == *old(self),
                }
            },
    {
        match file_content {
            FileContent::Inline { content } => parse_buffer(content.as_slice(), file_type),
            FileContent::Path { path } => self.store_parsed(path, bytes, file_type),
        }
    }

    /// Drops one cached path.
    #[verifier::loop_isolation(false)]
    pub fn remove_file(&mut self, path: &String)
        requires
            old(self).wf(),
        ensures
            final(self).wf(),
            final(self).spec_get(path@) is None,
    {
        let n: usize = self.data.len();
        for i in 0..n
            invariant
                n == self.data@.len(),
                self == old(self),
                forall|j: int| 0 <= j < i ==> (#[trigger] self.data@[j].0)@ != path@,
        {
            if self.data[i].0 == *path {
                self.data.remove(i);
                proof {
                    let pre = old(self);
                    assert forall|a: int, b: int| 0 <= a < b < self.data@.len()
                        implies (#[trigger] self.data@[a].0)@ != (#[trigger] self.data@[b].0)@ by {
                        let a0 = if a < i as int { a } else { a + 1 };
                        let b0 = if b < i as int { b } else { b + 1 };
                        assert(self.data@[a] == pre.data@[a0]);
                        assert(self.data@[b] == pre.data@[b0]);
                        assert(pre.data@[a0].0@ != pre.data@[b0].0@);
                    }
                    assert forall|w: int| 0 <= w < self.data@.len()
                        implies (#[trigger] self.data@[w].0)@ != path@ by {
                        let w0 = if w < i as int { w } else { w + 1 };
                        assert(self.data@[w] == pre.data@[w0]);
                        if w0 != i as int {
                            if w0 < i as int {
                                assert(pre.data@[w0].0@ != pre.data@[i as int].0@);
                            } else {
                                assert(pre.data@[i as int].0@ != pre.data@[w0].0@);
                            }
                        }
                    }
                }
                return;
            }
        }
    }

    /// Empties the cache.
    pub fn clear(&mut self)
        ensures
            final(self).wf(),
            final(self).data@.len() == 0,
    {
        self.data.clear();
    }
}

/// The verdict of the trust-anchor checks on a block list: the error the
/// first offending block earns — a wrong tag before an unusable anchor —
/// or nothing when every block passes.
pub open spec fn spec_anchor_verdict(blocks: Seq<(Seq<char>, Seq<u8>)>) -> Option<ErrorReason>
    decreases blocks.len(),
{
    if blocks.len() == 0 {
        None
    } else if blocks.first().0 != "CERTIFICATE"@ {
        Some(ErrorReason::InvalidPemTag)
    } else if !spec_trust_anchor_ok(blocks.first().1) {
        Some(ErrorReason::CertificateParse)
    } else {
        spec_anchor_verdict(blocks.drop_first())
    }
}

/// Reads a PEM bundle of trust anchors: every section must be a
/// CERTIFICATE and decode as a usable trust anchor; the DER contents are
/// returned in order.
#[verifier::loop_isolation(false)]
pub fn load_trusted_anchors(data: &[u8]) -> (r: Result<Vec<Vec<u8>>, ErrorReason>)
    ensures
        spec_pem_blocks(data@) is None ==> r == Err::<Vec<Vec<u8>>, ErrorReason>(ErrorReason::InvalidPemTag),
        spec_pem_blocks(data@) matches Some(blocks) ==> match r {
            Ok(v) => spec_anchor_verdict(blocks) is None
                && v.deep_view() == Seq::new(blocks.len(), |i: int| blocks[i].1)
                && (forall|i: int| 0 <= i < blocks.len() ==> (#[trigger] blocks[i]).0 == "CERTIFICATE"@)
                && (forall|i: int| 0 <= i < blocks.len() ==> spec_trust_anchor_ok((#[trigger] blocks[i]).1)),
            Err(e) => Some(e) == spec_anchor_verdict(blocks),
        },
{
    let blocks = match pem_parse_many(data) {
        Ok(b) => b,
        Err(_) => {
            return Err(ErrorReason::InvalidPemTag);
        },
    };
    let ghost blocks_v = spec_pem_blocks(data@).unwrap();
    proof {
        assert(blocks_v.skip(0) =~= blocks_v);
    }
    let mut anchors: Vec<Vec<u8>> = Vec::new();
    let n: usize = blocks.len();
    for i in 0..n
        invariant
            n == blocks@.len(),
            blocks_v == Seq::new(blocks@.len(), |j: int| (blocks@[j].0@, blocks@[j].1@)),
            anchors@.len() == i,
            spec_anchor_verdict(blocks_v) == spec_anchor_verdict(blocks_v.skip(i as int)),
            forall|j: int| 0 <= j < i ==> (#[trigger] anchors@[j])@ == blocks_v[j].1,
            forall|j: int| 0 <= j < i ==> (#[trigger] blocks_v[j]).0 == "CERTIFICATE"@,
            forall|j: int| 0 <= j < i ==> spec_trust_anchor_ok((#[trigger] blocks_v[j]).1),
    {
        proof {
            assert(blocks_v.skip(i as int).first() == blocks_v[i as int]);
            assert(blocks_v.skip(i as int).drop_first() =~= blocks_v.skip(i + 1));
        }
        if !str_eq(blocks[i].0.as_str(), "CERTIFICATE") {
            return Err(ErrorReason::InvalidPemTag);
        }
        if !trust_anchor_der_ok(blocks[i].1.as_slice()) {
            return Err(ErrorReason::CertificateParse);
        }
        anchors.push(blocks[i].1.clone());
    }
    proof {
        assert(blocks_v.skip(n as int) =~= Seq::<(Seq<char>, Seq<u8>)>::empty());
        assert(anchors.deep_view() =~~= Seq::new(blocks_v.len(), |i: int| blocks_v[i].1));
    }
    Ok(anchors)
}

/// Reads a single-certificate PEM: the first section must exist and be a
/// CERTIFICATE; its DER contents are returned.
#[verifier::loop_isolation(false)]
pub fn load_certificate(data: &[u8]) -> (r: Result<Vec<u8>, ErrorReason>)
    ensures
        spec_pem_blocks(data@) is None ==> r == Err::<Vec<u8>, ErrorReason>(ErrorReason::InvalidPemTag),
        spec_pem_blocks(data@) matches Some(blocks) ==> match r {
            Ok(v) => blocks.len() > 0 && blocks[0].0 == "CERTIFICATE"@ && v@ == blocks[0].1,
            Err(e) => e matches ErrorReason::InvalidPemTag
                && (blocks.len() == 0 || blocks[0].0 != "CERTIFICATE"@),
        },
{
    let mut blocks = match pem_parse_many(data) {
        Ok(b) => b,
        Err(_) => {
            return Err(ErrorReason::InvalidPemTag);
        },
    };
    if blocks.len() == 0 {
        return Err(ErrorReason::InvalidPemTag);
    }
    if !str_eq(blocks[0].0.as_str(), "CERTIFICATE") {
        return Err(ErrorReason::InvalidPemTag);
    }
    let (_, contents) = blocks.remove(0);
    Ok(contents)
}

impl PrivateKey {
    /// Reads a private key from PEM material.
    pub fn load_from_pem(data: &[u8]) -> (r: Result<PrivateKey, ErrorReason>)
        ensures
            match spec_pemfile_key(data@) {
                Some(k) => match k {
                    Some(kd) => r matches Ok(key) && key.kind == kd.0 && key.der@ == kd.1,
                    None => r == Err::<PrivateKey, ErrorReason>(ErrorReason::MissingPrivateKey),
                },
                None => r == Err::<PrivateKey, ErrorReason>(ErrorReason::InvalidPemTag),
            },
    {
        match pemfile_private_key(data) {
            Ok(Some(key)) => Ok(key),
            Ok(None) => Err(ErrorReason::MissingPrivateKey),
            Err(_) => Err(ErrorReason::InvalidPemTag),
        }
    }
}

} // verus!
