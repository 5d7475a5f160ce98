//! The signed manifest of a release.
use vstd::prelude::*;
use vstd::string::*;
use vstd::utf8::encode_utf8;

use crate::digest::{hex_bytes, hex_decode, hex_encode, hex_text, sha256_hex, sha256_hex_of};
use crate::order::{
    keeps_order, lemma_lex_irreflexive, sort, sorted, str_less, SortKey, Sortable,
};
use crate::seqs::{kept, lemma_kept_step};
use crate::text::{
    concat, ends_with, is_digit, join2, str_eq, strip_prefix, strip_suffix, trim, trimmed,
};

verus! {

/// A binary of a release.
#[derive(Debug)]
pub struct ManifestAsset {
    pub name: String,
    pub binary: String,
    pub platform: String,
    pub download_url: String,
    pub sha256: String,
    pub signature: String,
    pub sigstore_bundle_url: String,
}

/// The manifest of a release.
#[derive(Debug)]
pub struct Manifest {
    pub version: String,
    pub release_tag: String,
    pub repository: String,
    pub signature_algorithm: &'static str,
    pub signature_context: &'static str,
    pub release_public_key: String,
    pub assets: Vec<ManifestAsset>,
}

// ---------------------------------------------------------------------------
// Names
// ---------------------------------------------------------------------------

/// A name without the ending of a Windows program.
pub open spec fn without_exe(name: Seq<char>) -> Seq<char> {
    if ".exe"@.is_suffix_of(name) {
        name.take(name.len() - ".exe"@.len())
    } else {
        name
    }
}

/// The binary and the platform that a file's name says. Digests and signatures
/// that lie beside a binary are not binaries.
pub open spec fn artifact(name: Seq<char>) -> Option<(Seq<char>, Seq<char>)> {
    let stem = without_exe(name);
    if ".sha256"@.is_suffix_of(name) || ".sigstore.json"@.is_suffix_of(name) {
        None
    } else if "edgepacer-manager-"@.is_prefix_of(stem) {
        Some(("edgepacer-manager"@, stem.skip("edgepacer-manager-"@.len() as int)))
    } else if "edgepacer-"@.is_prefix_of(stem) {
        Some(("edgepacer"@, stem.skip("edgepacer-"@.len() as int)))
    } else {
        None
    }
}

/// The binary and the platform that a file's name says.
pub fn parse_release_artifact_name(name: &str) -> (r: Option<(String, String)>)
    ensures
        match r {
            Some(a) => artifact(name@) == Some((a.0@, a.1@)),
            None => artifact(name@) is None,
        },
{
    if ends_with(name, ".sha256") || ends_with(name, ".sigstore.json") {
        return None;
    }
    let stem = match strip_suffix(name, ".exe") {
        Some(stem) => stem,
        None => name,
    };
    if let Some(platform) = strip_prefix(stem, "edgepacer-manager-") {
        return Some(("edgepacer-manager".to_owned(), platform.to_owned()));
    }
    match strip_prefix(stem, "edgepacer-") {
        Some(platform) => Some(("edgepacer".to_owned(), platform.to_owned())),
        None => None,
    }
}

// ---------------------------------------------------------------------------
// Assets
// ---------------------------------------------------------------------------

/// A file of a release.
pub struct ReleaseFile {
    pub name: String,
    pub content: Vec<u8>,
}

/// What an asset says.
#[verifier::ext_equal]
pub struct AssetView {
    pub name: Seq<char>,
    pub binary: Seq<char>,
    pub platform: Seq<char>,
    pub download_url: Seq<char>,
    pub sha256: Seq<char>,
    pub signature: Seq<char>,
    pub sigstore_bundle_url: Seq<char>,
}

impl View for ManifestAsset {
    type V = AssetView;

    open spec fn view(&self) -> AssetView {
        AssetView {
            name: self.name@,
            binary: self.binary@,
            platform: self.platform@,
            download_url: self.download_url@,
            sha256: self.sha256@,
            signature: self.signature@,
            sigstore_bundle_url: self.sigstore_bundle_url@,
        }
    }
}

/// What assets say.
pub open spec fn asset_views(assets: Seq<ManifestAsset>) -> Seq<AssetView> {
    assets.map_values(|a: ManifestAsset| a@)
}

/// Where a file of a release is downloaded from.
pub open spec fn download_url(
    repository: Seq<char>,
    release_tag: Seq<char>,
    name: Seq<char>,
) -> Seq<char> {
    "https://github.com/"@ + repository + "/releases/download/"@ + release_tag + "/"@ + name
}

/// The asset that a file is, not yet signed, if its name says so.
pub open spec fn asset_of(f: ReleaseFile, release_tag: Seq<char>, repository: Seq<char>) -> Option<
    AssetView,
> {
    match artifact(f.name@) {
        Some(a) => Some(
            AssetView {
                name: f.name@,
                binary: a.0,
                platform: a.1,
                download_url: download_url(repository, release_tag, f.name@),
                sha256: sha256_hex(f.content@),
                signature: seq![],
                sigstore_bundle_url: download_url(repository, release_tag, f.name@)
                    + ".sigstore.json"@,
            },
        ),
        None => None,
    }
}

fn asset_from_file(f: &ReleaseFile, release_tag: &str, repository: &str) -> (r: Option<
    ManifestAsset,
>)
    ensures
        match r {
            Some(a) => asset_of(*f, release_tag@, repository@) == Some(a@),
            None => asset_of(*f, release_tag@, repository@) is None,
        },
{
    let (binary, platform) = match parse_release_artifact_name(f.name.as_str()) {
        Some(a) => a,
        None => {
            return None;
        },
    };
    let mut url = concat("https://github.com/", repository);
    url.append("/releases/download/");
    url.append(release_tag);
    url.append("/");
    url.append(f.name.as_str());
    let bundle = concat(url.as_str(), ".sigstore.json");
    let signature = String::new();
    Some(
        ManifestAsset {
            name: f.name.clone(),
            binary,
            platform,
            download_url: url,
            sha256: sha256_hex_of(f.content.as_slice()),
            signature,
            sigstore_bundle_url: bundle,
        },
    )
}

/// The assets among the files of a release, not yet signed; none where there is
/// no binary among them.
pub fn release_assets(files: &Vec<ReleaseFile>, release_tag: &str, repository: &str) -> (r: Option<
    Vec<ManifestAsset>,
>)
    ensures
        ({
            let all = kept(
                files@,
                |f: ReleaseFile| asset_of(f, release_tag@, repository@),
            );
            match r {
                Some(assets) => all.len() > 0 && asset_views(assets@) == all,
                None => all.len() == 0,
            }
        }),
{
    let ghost f = |f: ReleaseFile| asset_of(f, release_tag@, repository@);
    let mut assets: Vec<ManifestAsset> = Vec::new();
    let mut i: usize = 0;
    assert(asset_views(assets@) =~= kept(files@.take(0), f));
    while i < files.len()
        invariant
            i <= files@.len(),
            f == (|f: ReleaseFile| asset_of(f, release_tag@, repository@)),
            asset_views(assets@) == kept(files@.take(i as int), f),
        decreases files.len() - i,
    {
        proof {
            lemma_kept_step(files@, f, i as int);
        }
        let ghost before = asset_views(assets@);
        if let Some(asset) = asset_from_file(&files[i], release_tag, repository) {
            assets.push(asset);
            assert(asset_views(assets@) =~= before.push(asset@));
        }
        i = i + 1;
    }
    assert(files@.take(i as int) =~= files@);
    assert(asset_views(assets@).len() == assets@.len());
    if assets.len() == 0 {
        None
    } else {
        Some(assets)
    }
}

/// The tag of a release: the one that is given, else the version behind a `v`.
pub fn release_tag_of(version: &str, release_tag: Option<&str>) -> (r: String)
    ensures
        r@ == match release_tag {
            Some(tag) => tag@,
            None => "v"@ + version@,
        },
{
    match release_tag {
        Some(tag) => tag.to_owned(),
        None => concat("v", version),
    }
}

// ---------------------------------------------------------------------------
// Signatures
// ---------------------------------------------------------------------------

/// Whether a text is the seed of a key: 64 hexadecimal digits.
pub open spec fn is_seed(raw: Seq<char>) -> bool {
    raw.len() == 64 && forall|i: int| 0 <= i < raw.len() ==> is_digit(#[trigger] raw[i], 16)
}

/// The seed of the signing key, from its hexadecimal digits. Nothing comes of a
/// text that is not 64 of them.
pub fn signing_key_from_hex(raw: &str) -> (r: Option<Vec<u8>>)
    ensures
        match r {
            Some(seed) => is_seed(trimmed(raw@)) && hex_bytes(trimmed(raw@)) == Some(seed@)
                && seed@.len() == 32,
            None => !is_seed(trimmed(raw@)),
        },
{
    let raw = trim(raw);
    match hex_decode(raw) {
        Some(seed) => if seed.len() == 32 {
            Some(seed)
        } else {
            None
        },
        None => None,
    }
}

/// The Ed25519 signature of a message under the key with a seed.
pub uninterp spec fn ed25519_signature(seed: Seq<u8>, message: Seq<u8>) -> Seq<u8>;

/// `ed25519_dalek::SigningKey::from_bytes` and `sign`: 64 bytes that the seed and
/// the message decide.
#[verifier::external_body]
fn sign_message(seed: &[u8], message: &[u8]) -> (r: Vec<u8>)
    requires
        seed@.len() == 32,
    ensures
        r@ == ed25519_signature(seed@, message@),
        r@.len() == 64,
{
    let mut bytes = [0u8; 32];
    bytes.copy_from_slice(seed);
    let key = ed25519_dalek::SigningKey::from_bytes(&bytes);
    ed25519_dalek::Signer::sign(&key, message).to_bytes().to_vec()
}

/// The Ed25519 public key of the key with a seed.
pub uninterp spec fn ed25519_public_key(seed: Seq<u8>) -> Seq<u8>;

/// `ed25519_dalek::SigningKey::verifying_key`: 32 bytes that the seed decides.
#[verifier::external_body]
fn verifying_key(seed: &[u8]) -> (r: Vec<u8>)
    requires
        seed@.len() == 32,
    ensures
        r@ == ed25519_public_key(seed@),
        r@.len() == 32,
{
    let mut bytes = [0u8; 32];
    bytes.copy_from_slice(seed);
    ed25519_dalek::SigningKey::from_bytes(&bytes).verifying_key().to_bytes().to_vec()
}

/// The public key of the signing key, in hexadecimal digits.
pub fn public_key_hex(seed: &Vec<u8>) -> (r: String)
    requires
        seed@.len() == 32,
    ensures
        r@ == hex_text(ed25519_public_key(seed@)),
{
    hex_encode(verifying_key(seed.as_slice()).as_slice())
}

/// The asset with its signature, over the text that stands for it.
pub fn sign_asset(asset: ManifestAsset, seed: &Vec<u8>, payload: &str) -> (r: ManifestAsset)
    requires
        seed@.len() == 32,
    ensures
        r@ == (AssetView {
            signature: hex_text(ed25519_signature(seed@, encode_utf8(payload@))),
            ..asset@
        }),
{
    let signature = sign_message(seed.as_slice(), payload.as_bytes());
    ManifestAsset {
        name: asset.name,
        binary: asset.binary,
        platform: asset.platform,
        download_url: asset.download_url,
        sha256: asset.sha256,
        signature: hex_encode(signature.as_slice()),
        sigstore_bundle_url: asset.sigstore_bundle_url,
    }
}

// ---------------------------------------------------------------------------
// The manifest
// ---------------------------------------------------------------------------

/// What an asset is sorted by: its binary, its platform, its name.
pub open spec fn asset_key(a: AssetView) -> SortKey {
    SortKey { major: 0, first: a.binary, second: a.platform, third: a.name, minor: 0 }
}

impl Sortable for ManifestAsset {
    open spec fn sort_key(&self) -> SortKey {
        asset_key(self@)
    }

    fn precedes(&self, other: &Self) -> (r: bool) {
        proof {
            lemma_lex_irreflexive(self.name@);
        }
        if !str_eq(self.binary.as_str(), other.binary.as_str()) {
            str_less(self.binary.as_str(), other.binary.as_str())
        } else if !str_eq(self.platform.as_str(), other.platform.as_str()) {
            str_less(self.platform.as_str(), other.platform.as_str())
        } else {
            str_less(self.name.as_str(), other.name.as_str())
        }
    }
}

/// The manifest of signed assets, which stand sorted in it. Assets that are sorted by
/// the same keep their order.
pub fn build_manifest(
    version: String,
    release_tag: String,
    repository: String,
    signature_context: &'static str,
    seed: &Vec<u8>,
    assets: Vec<ManifestAsset>,
) -> (r: Manifest)
    requires
        seed@.len() == 32,
    ensures
        r.version@ == version@,
        r.release_tag@ == release_tag@,
        r.repository@ == repository@,
        r.signature_algorithm@ == "Ed25519"@,
        r.signature_context@ == signature_context@,
        r.release_public_key@ == hex_text(ed25519_public_key(seed@)),
        r.assets@.to_multiset() == assets@.to_multiset(),
        sorted(r.assets@),
        keeps_order(assets@, r.assets@),
{
    Manifest {
        version,
        release_tag,
        repository,
        signature_algorithm: "Ed25519",
        signature_context,
        release_public_key: public_key_hex(seed),
        assets: sort(assets),
    }
}

/// One line for each asset: its digest, two spaces, its name.
pub open spec fn checksum_lines(assets: Seq<AssetView>) -> Seq<char>
    decreases assets.len(),
{
    if assets.len() == 0 {
        seq![]
    } else {
        checksum_lines(assets.drop_last()) + (assets.last().sha256 + "  "@ + assets.last().name
            + "\n"@)
    }
}

/// The file with the digests of a release.
pub fn checksums(manifest: &Manifest) -> (r: String)
    ensures
        r@ == checksum_lines(asset_views(manifest.assets@)),
{
    let ghost all = asset_views(manifest.assets@);
    let mut out = String::new();
    let mut i: usize = 0;
    assert(out@ =~= checksum_lines(all.take(0)));
    while i < manifest.assets.len()
        invariant
            i <= manifest.assets@.len(),
            all == asset_views(manifest.assets@),
            out@ == checksum_lines(all.take(i as int)),
        decreases manifest.assets.len() - i,
    {
        let ghost before = out@;
        let asset = &manifest.assets[i];
        let line = join2(asset.sha256.as_str(), "  ", asset.name.as_str());
        out.append(line.as_str());
        out.append("\n");
        proof {
            let next = all.take(i + 1);
            assert(next.drop_last() =~= all.take(i as int));
            assert(next.last() == asset@);
            assert(out@ =~= before + (asset@.sha256 + "  "@ + asset@.name + "\n"@));
        }
        i = i + 1;
    }
    assert(all.take(i as int) =~= all);
    out
}

} // verus!
