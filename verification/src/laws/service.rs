//! What the agent's own service rests on: its version and release, its host, its session
//! and its requests.
use vstd::prelude::*;
use vstd::string::*;
use vstd::utf8::encode_utf8;

use crate::auth_session::{
    blames_config, refresh_wait, refuses_token, tokens_of_exchange, AuthResponse,
};
use crate::bootstrap::{
    context_of, first_mem_total, mem_total, memory_mb, os_version, pretty_name, runtime_of, unquoted,
    unquoted_end, unquoted_start, ContainerTraces,
};
use crate::common::{
    header_text, is_random_uuid, loopback_host, may_carry_tokens, one_line, quoted_body, url_error,
    url_of, EdgepacerError, UrlError,
};
use crate::delivery::ErrorClass;
use crate::config::app::AppConfigError;
use crate::digest::{hex_text, is_digest_text, sha256_hex};
use crate::release_manifest::{
    artifact, asset_key, asset_of, checksum_lines, is_seed, AssetView, ReleaseFile,
};
use crate::text::{decimal, is_digit, lines, occurs, parsed, stands_at, trimmed, words};
use crate::version::version_of;

verus! {

// ---------------------------------------------------------------------------
// Releases
// ---------------------------------------------------------------------------

/// What an ending of a program, a digest or a signature is told from others by.
proof fn lemma_endings(s: Seq<char>)
    requires
        s.len() > 0,
    ensures
        s.last() != 'e' ==> !".exe"@.is_suffix_of(s),
        s.last() != '6' ==> !".sha256"@.is_suffix_of(s),
        s.last() != 'n' ==> !".sigstore.json"@.is_suffix_of(s),
        (s + ".exe"@).last() == 'e',
        ".exe"@.is_suffix_of(s + ".exe"@),
        (s + ".exe"@).take((s + ".exe"@).len() - ".exe"@.len()) == s,
        ".sha256"@.is_suffix_of(s + ".sha256"@),
        ".sigstore.json"@.is_suffix_of(s + ".sigstore.json"@),
{
    reveal_strlit(".exe");
    reveal_strlit(".sha256");
    reveal_strlit(".sigstore.json");
    if s.last() != 'e' {
        lemma_no_end(s, ".exe"@);
    }
    if s.last() != '6' {
        lemma_no_end(s, ".sha256"@);
    }
    if s.last() != 'n' {
        lemma_no_end(s, ".sigstore.json"@);
    }
    assert((s + ".exe"@).take((s + ".exe"@).len() - ".exe"@.len()) =~= s);
}

/// A file of a release that begins with a binary's name is that binary for the platform
/// behind it, on Windows without the ending of programs.
pub proof fn files_name_binary_and_platform(platform: Seq<char>)
    requires
        platform.len() > 0,
        platform.last() != 'e',
        platform.last() != '6',
        platform.last() != 'n',
        platform[0] != 'm',
    ensures
        artifact("edgepacer-manager-"@ + platform) == Some(("edgepacer-manager"@, platform)),
        artifact("edgepacer-manager-"@ + platform + ".exe"@) == Some(
            ("edgepacer-manager"@, platform),
        ),
        artifact("edgepacer-"@ + platform) == Some(("edgepacer"@, platform)),
        artifact("edgepacer-"@ + platform + ".exe"@) == Some(("edgepacer"@, platform)),
{
    let m = "edgepacer-manager-"@;
    let e = "edgepacer-"@;
    let mp = m + platform;
    let ep = e + platform;
    assert(m.len() == 18 && e.len() == 10 && m[10] == 'm') by {
        reveal_strlit("edgepacer-manager-");
        reveal_strlit("edgepacer-");
    }
    assert(mp.last() == platform.last() && ep.last() == platform.last());
    lemma_endings(mp);
    lemma_endings(ep);
    lemma_endings(mp + ".exe"@);
    lemma_endings(ep + ".exe"@);
    assert(mp.skip(18) =~= platform && ep.skip(10) =~= platform);
    assert(m.is_prefix_of(mp) && e.is_prefix_of(ep));
    assert(!m.is_prefix_of(ep)) by {
        if m.is_prefix_of(ep) {
            assert(ep[10] == m[10]);
            assert(ep[10] == platform[0]);
        }
    }
}

/// What ends as digests and signatures do is no binary, nor is what has another name.
pub proof fn other_files_are_no_binaries(name: Seq<char>)
    requires
        name.len() > 0,
    ensures
        artifact(name + ".sha256"@) is None,
        artifact(name + ".sigstore.json"@) is None,
        name[0] != 'e' ==> artifact(name) is None,
{
    lemma_endings(name);
    if name[0] != 'e' {
        assert("edgepacer-manager-"@.len() > 0 && "edgepacer-"@.len() > 0
            && "edgepacer-manager-"@[0] == 'e' && "edgepacer-"@[0] == 'e') by {
            reveal_strlit("edgepacer-manager-");
            reveal_strlit("edgepacer-");
        }
        let m = "edgepacer-manager-"@;
        let e = "edgepacer-"@;
        let stem = crate::release_manifest::without_exe(name);
        if e.is_prefix_of(stem) {
            assert(stem[0] == e[0]);
            assert(stem[0] == name[0]);
        }
        if m.is_prefix_of(stem) {
            assert(stem[0] == m[0]);
            assert(stem[0] == name[0]);
        }
    }
}

proof fn lemma_no_end(s: Seq<char>, end: Seq<char>)
    requires
        s.len() > 0,
        end.len() > 0,
        s.last() != end.last(),
    ensures
        !end.is_suffix_of(s),
{
    if end.is_suffix_of(s) {
        assert(s.last() == end.last());
    }
}

/// An asset is downloaded from the release of its repository under its own name, and its
/// bundle of signatures lies beside it; its digest is that of its content. It is not signed
/// yet.
pub proof fn assets_lie_in_their_release(
    f: ReleaseFile,
    tag: Seq<char>,
    repository: Seq<char>,
)
    ensures
        artifact(f.name@) is None ==> asset_of(f, tag, repository) is None,
        artifact(f.name@) is Some ==> {
            let a = asset_of(f, tag, repository);
            let url = "https://github.com/"@ + repository + "/releases/download/"@ + tag + seq!['/']
                + f.name@;
            &&& a is Some
            &&& a->0.name == f.name@
            &&& a->0.binary == (artifact(f.name@)->0).0
            &&& a->0.platform == (artifact(f.name@)->0).1
            &&& a->0.download_url == url
            &&& a->0.sigstore_bundle_url == url + ".sigstore.json"@
            &&& a->0.sha256 == sha256_hex(f.content@)
            &&& a->0.signature.len() == 0
        },
{
    reveal_strlit("/");
    assert("/"@ =~= seq!['/']);
}

/// The file of digests has a line for each asset, in order: the digest, two spaces and the
/// name.
pub proof fn digests_are_listed(assets: Seq<AssetView>, a: AssetView)
    ensures
        checksum_lines(Seq::<AssetView>::empty()) == Seq::<char>::empty(),
        checksum_lines(assets.push(a)) == checksum_lines(assets) + a.sha256 + seq![' ', ' '] + a.name
            + seq!['\n'],
{
    reveal_strlit("  ");
    reveal_strlit("\n");
    assert("  "@ =~= seq![' ', ' '] && "\n"@ =~= seq!['\n']);
    assert(assets.push(a).drop_last() =~= assets);
    assert(checksum_lines(assets.push(a)) =~= checksum_lines(assets) + a.sha256 + seq![' ', ' ']
        + a.name + seq!['\n']);
}

/// Assets are sorted by their binary, then by their platform, then by their name.
pub proof fn assets_are_sorted_by_binary_platform_and_name(a: AssetView, b: AssetView)
    ensures
        a.binary != b.binary ==> (crate::order::key_less(asset_key(a), asset_key(b))
            <==> crate::order::lex_less(a.binary, b.binary)),
        a.binary == b.binary && a.platform != b.platform ==> (crate::order::key_less(
            asset_key(a),
            asset_key(b),
        ) <==> crate::order::lex_less(a.platform, b.platform)),
        a.binary == b.binary && a.platform == b.platform && a.name != b.name ==> (
        crate::order::key_less(asset_key(a), asset_key(b)) <==> crate::order::lex_less(
            a.name,
            b.name,
        )),
        a.binary == b.binary && a.platform == b.platform && a.name == b.name
            ==> !crate::order::key_less(asset_key(a), asset_key(b)),
{
}

/// A seed is 64 hexadecimal digits.
pub proof fn seeds_are_hexadecimal(raw: Seq<char>, i: int)
    ensures
        is_seed(raw) ==> raw.len() == 64,
        is_seed(raw) && 0 <= i < raw.len() ==> (0x30 <= raw[i] as int <= 0x39) || (0x41 <= raw[i] as int
            <= 0x46) || (0x61 <= raw[i] as int <= 0x66),
        raw.len() == 64 && (forall|j: int|
            0 <= j < 64 ==> (0x30 <= #[trigger] raw[j] as int <= 0x39) || (0x61 <= raw[j] as int
                <= 0x66)) ==> is_seed(raw),
{
    if 0 <= i < raw.len() {
        crate::laws::text::hexadecimal_digits_are_known(raw[i]);
    }
    if raw.len() == 64 && (forall|j: int|
        0 <= j < 64 ==> (0x30 <= #[trigger] raw[j] as int <= 0x39) || (0x61 <= raw[j] as int
            <= 0x66)) {
        assert forall|j: int| 0 <= j < raw.len() implies is_digit(#[trigger] raw[j], 16) by {
            crate::laws::text::hexadecimal_digits_are_known(raw[j]);
        }
    }
}

/// A byte is written as two small hexadecimal digits, the higher half first.
pub proof fn bytes_are_written_in_hexadecimal(bytes: Seq<u8>, i: int)
    requires
        0 <= i < bytes.len(),
    ensures
        hex_text(bytes).len() == 2 * bytes.len(),
        ({
            let hi = bytes[i] as int / 16;
            let lo = bytes[i] as int % 16;
            &&& hi < 10 ==> hex_text(bytes)[2 * i] as int == 0x30 + hi
            &&& hi >= 10 ==> hex_text(bytes)[2 * i] as int == 0x61 + hi - 10
            &&& lo < 10 ==> hex_text(bytes)[2 * i + 1] as int == 0x30 + lo
            &&& lo >= 10 ==> hex_text(bytes)[2 * i + 1] as int == 0x61 + lo - 10
        }),
{
    assert((2 * i) / 2 == i && (2 * i + 1) / 2 == i && (2 * i) % 2 == 0 && (2 * i + 1) % 2 == 1);
}

// ---------------------------------------------------------------------------
// Versions
// ---------------------------------------------------------------------------

/// A release has the version that it is given; a build of development has the package's,
/// its commit, and says if the tree had changes.
pub proof fn builds_say_what_they_are(
    release: Seq<char>,
    package: Seq<char>,
    commit: Seq<char>,
    status: Seq<char>,
)
    ensures
        trimmed(release).len() > 0 ==> version_of(
            Some(release),
            Some(package),
            Some(commit),
            Some(status),
        ) == trimmed(release),
        trimmed(release).len() == 0 && trimmed(status).len() == 0 ==> version_of(
            Some(release),
            Some(package),
            Some(commit),
            Some(status),
        ) == package + "-dev+"@ + commit,
        trimmed(status).len() > 0 ==> version_of(None, Some(package), Some(commit), Some(status))
            == package + "-dev+"@ + commit + ".dirty"@,
        version_of(None, None, Some(commit), None) == "0.0.0-dev+"@ + commit,
        version_of(None, Some(package), None, None) == package + "-dev+unknown"@,
{
    reveal_strlit("");
    reveal_strlit("0.0.0");
    reveal_strlit("-dev+");
    reveal_strlit("0.0.0-dev+");
    reveal_strlit("unknown");
    reveal_strlit("-dev+unknown");
    assert(""@ =~= Seq::<char>::empty());
    assert("0.0.0"@ + "-dev+"@ =~= "0.0.0-dev+"@);
    assert("-dev+"@ + "unknown"@ =~= "-dev+unknown"@);
    assert(package + "-dev+"@ + commit + ""@ =~= package + "-dev+"@ + commit);
    assert("0.0.0"@ + "-dev+"@ + commit + ""@ =~= "0.0.0-dev+"@ + commit);
    assert(package + "-dev+"@ + "unknown"@ + ""@ =~= package + "-dev+unknown"@);
}

// ---------------------------------------------------------------------------
// The host
// ---------------------------------------------------------------------------

proof fn lemma_quotes_start(n: nat, s: Seq<char>, q: Seq<char>)
    requires
        q.len() == n,
        forall|i: int| 0 <= i < n ==> #[trigger] q[i] == '"',
        s.len() == 0 || s[0] != '"',
    ensures
        unquoted_start(q + s) == s,
    decreases n,
{
    let all = q + s;
    if n > 0 {
        assert(all[0] == q[0]);
        assert(all.skip(1) =~= q.skip(1) + s);
        assert forall|i: int| 0 <= i < n - 1 implies #[trigger] q.skip(1)[i] == '"' by {
            assert(q.skip(1)[i] == q[i + 1]);
        }
        lemma_quotes_start((n - 1) as nat, s, q.skip(1));
    } else {
        assert(all =~= s);
    }
}

proof fn lemma_quotes_end(n: nat, s: Seq<char>, q: Seq<char>)
    requires
        q.len() == n,
        forall|i: int| 0 <= i < n ==> #[trigger] q[i] == '"',
        s.len() == 0 || s.last() != '"',
    ensures
        unquoted_end(s + q) == s,
    decreases n,
{
    let all = s + q;
    if n > 0 {
        assert(all.last() == q[n - 1]);
        assert(all.drop_last() =~= s + q.drop_last());
        assert forall|i: int| 0 <= i < n - 1 implies #[trigger] q.drop_last()[i] == '"' by {
            assert(q.drop_last()[i] == q[i]);
        }
        lemma_quotes_end((n - 1) as nat, s, q.drop_last());
    } else {
        assert(all =~= s);
    }
}

/// The quotes around a text come off, and nothing else.
pub proof fn quotes_come_off(before: Seq<char>, s: Seq<char>, after: Seq<char>)
    requires
        forall|i: int| 0 <= i < before.len() ==> #[trigger] before[i] == '"',
        forall|i: int| 0 <= i < after.len() ==> #[trigger] after[i] == '"',
        s.len() > 0,
        s[0] != '"',
        s.last() != '"',
    ensures
        unquoted(before + s + after) == s,
{
    assert(before + s + after =~= before + (s + after));
    assert((s + after)[0] == s[0]);
    lemma_quotes_start(before.len(), s + after, before);
    lemma_quotes_end(after.len(), s, after);
}

/// A system is called what the first line with its pretty name says, without the quotes; a
/// Mac by its product version; else it is unknown.
pub proof fn systems_have_their_name(
    before: Seq<Seq<char>>,
    value: Seq<char>,
    after: Seq<Seq<char>>,
    file: Seq<char>,
    bare: Seq<char>,
    product: Seq<char>,
)
    requires
        forall|i: int| 0 <= i < before.len() ==> !"PRETTY_NAME="@.is_prefix_of(#[trigger] before[i]),
        lines(file) == before + seq!["PRETTY_NAME="@ + value] + after,
        lines(bare) == before,
    ensures
        os_version(Some(file), Some(product)) == unquoted(value),
        os_version(Some(file), None) == unquoted(value),
        product.len() > 0 ==> os_version(Some(bare), Some(product)) == "macOS "@ + product,
        product.len() > 0 ==> os_version(None, Some(product)) == "macOS "@ + product,
        os_version(None, None) == "unknown"@,
        os_version(Some(bare), None) == "unknown"@,
        os_version(None, Some(Seq::<char>::empty())) == "unknown"@,
{
    lemma_pretty(before, value, after);
}

proof fn lemma_pretty(before: Seq<Seq<char>>, value: Seq<char>, after: Seq<Seq<char>>)
    requires
        forall|i: int| 0 <= i < before.len() ==> !"PRETTY_NAME="@.is_prefix_of(#[trigger] before[i]),
    ensures
        pretty_name(before + seq!["PRETTY_NAME="@ + value] + after) == Some(unquoted(value)),
        pretty_name(before) is None,
    decreases before.len(),
{
    let key = "PRETTY_NAME="@;
    let all = before + seq![key + value] + after;
    if before.len() > 0 {
        assert(all[0] == before[0]);
        assert(all.skip(1) =~= before.skip(1) + seq![key + value] + after);
        assert forall|i: int| 0 <= i < before.skip(1).len() implies !key.is_prefix_of(
            #[trigger] before.skip(1)[i],
        ) by {
            assert(before.skip(1)[i] == before[i + 1]);
        }
        lemma_pretty(before.skip(1), value, after);
    } else {
        assert(all[0] == key + value);
        assert(key.is_prefix_of(all[0]));
        assert(all[0].skip(key.len() as int) =~= value);
    }
}

/// The memory is the first number behind `MemTotal:` in KiB, or else the bytes, in MiB
/// either way and rounded down.
pub proof fn memory_is_counted_in_mebibytes(
    before: Seq<Seq<char>>,
    rest: Seq<char>,
    after: Seq<Seq<char>>,
    table: Seq<char>,
    bare: Seq<char>,
    kib: nat,
    bytes: u64,
)
    requires
        forall|i: int| 0 <= i < before.len() ==> !"MemTotal:"@.is_prefix_of(#[trigger] before[i]),
        lines(table) == before + seq!["MemTotal:"@ + rest] + after,
        lines(bare) == before,
        words(rest).len() > 0,
        parsed(words(rest)[0], 10, 0xffff_ffff_ffff_ffff) == Some(kib),
    ensures
        memory_mb(Some(table), Some(bytes)) == kib / 1024,
        memory_mb(Some(table), None) == kib / 1024,
        memory_mb(Some(bare), Some(bytes)) == bytes as nat / (1024 * 1024),
        memory_mb(None, Some(bytes)) == bytes as nat / (1024 * 1024),
        memory_mb(None, None) == 0,
        memory_mb(Some(bare), None) == 0,
{
    lemma_mem(before, rest, after);
}

proof fn lemma_mem(before: Seq<Seq<char>>, rest: Seq<char>, after: Seq<Seq<char>>)
    requires
        forall|i: int| 0 <= i < before.len() ==> !"MemTotal:"@.is_prefix_of(#[trigger] before[i]),
        words(rest).len() > 0,
        parsed(words(rest)[0], 10, u64::MAX as nat) is Some,
    ensures
        first_mem_total(before + seq!["MemTotal:"@ + rest] + after) == parsed(
            words(rest)[0],
            10,
            u64::MAX as nat,
        ),
        first_mem_total(before) is None,
    decreases before.len(),
{
    let key = "MemTotal:"@;
    let all = before + seq![key + rest] + after;
    if before.len() > 0 {
        assert(all[0] == before[0]);
        assert(mem_total(before[0]) is None);
        assert(all.skip(1) =~= before.skip(1) + seq![key + rest] + after);
        assert forall|i: int| 0 <= i < before.skip(1).len() implies !key.is_prefix_of(
            #[trigger] before.skip(1)[i],
        ) by {
            assert(before.skip(1)[i] == before[i + 1]);
        }
        lemma_mem(before.skip(1), rest, after);
    } else {
        assert(all[0] == key + rest);
        assert(key.is_prefix_of(all[0]));
        assert(all[0].skip(key.len() as int) =~= rest);
    }
}

/// Docker's marker, or its name among the control groups, speaks of Docker; the names of
/// containerd or of Kubernetes, or a service account, speak of containerd; no trace speaks
/// of none.
pub proof fn traces_speak_of_runtimes(t: ContainerTraces, before: Seq<char>, after: Seq<char>)
    ensures
        t.dockerenv ==> runtime_of(t) == Some("docker"@),
        t.cgroup is Some && t.cgroup->0@ == before + "docker"@ + after ==> runtime_of(t) == Some(
            "docker"@,
        ),
        !t.dockerenv && t.cgroup is Some && !occurs(t.cgroup->0@, "docker"@) && (t.cgroup->0@
            == before + "containerd"@ + after || t.cgroup->0@ == before + "kubepods"@ + after)
            ==> runtime_of(t) == Some("containerd"@),
        !t.dockerenv && t.cgroup is None && t.service_account ==> runtime_of(t) == Some(
            "containerd"@,
        ),
        !t.dockerenv && t.cgroup is None && !t.service_account ==> runtime_of(t) is None,
        !t.dockerenv && t.cgroup is Some && t.cgroup->0@.len() == 0 && !t.service_account
            ==> runtime_of(t) is None,
{
    lemma_occurs(before, "docker"@, after);
    lemma_occurs(before, "containerd"@, after);
    lemma_occurs(before, "kubepods"@, after);
    reveal_strlit("docker");
    reveal_strlit("containerd");
    reveal_strlit("kubepods");
    assert("docker"@.len() > 0 && "containerd"@.len() > 0 && "kubepods"@.len() > 0);
}

proof fn lemma_occurs(before: Seq<char>, pat: Seq<char>, after: Seq<char>)
    ensures
        occurs(before + pat + after, pat),
{
    let all = before + pat + after;
    assert(all.subrange(before.len() as int, (before.len() + pat.len()) as int) =~= pat);
    assert(stands_at(all, pat, before.len() as int));
}

/// A run on Kubernetes is said to be one, whatever else; each name comes from its own
/// variable.
pub proof fn runs_are_described(
    in_container: bool,
    runtime: Option<Seq<char>>,
    env: Map<Seq<char>, String>,
)
    ensures
        context_of(in_container, runtime, true, env).deployment_type == "kubernetes"@,
        context_of(true, runtime, false, env).deployment_type == "container"@,
        context_of(false, runtime, false, env).deployment_type == "host"@,
        ({
            let c = context_of(in_container, runtime, true, env);
            &&& c.in_container == in_container
            &&& c.container_runtime == runtime
            &&& env.contains_key("POD_NAMESPACE"@) ==> c.namespace == Some(env["POD_NAMESPACE"@]@)
            &&& env.contains_key("DEPLOYMENT_NAME"@) ==> c.deployment == Some(
                env["DEPLOYMENT_NAME"@]@,
            )
            &&& env.contains_key("POD_NAME"@) ==> c.pod_name == Some(env["POD_NAME"@]@)
            &&& env.contains_key("NODE_NAME"@) ==> c.node_name == Some(env["NODE_NAME"@]@)
            &&& env.contains_key("CONTAINER_NAME"@) ==> c.container == Some(
                env["CONTAINER_NAME"@]@,
            )
            &&& !env.contains_key("POD_NAMESPACE"@) ==> c.namespace is None
            &&& !env.contains_key("DEPLOYMENT_NAME"@) ==> c.deployment is None
            &&& !env.contains_key("POD_NAME"@) ==> c.pod_name is None
            &&& !env.contains_key("NODE_NAME"@) ==> c.node_name is None
            &&& !env.contains_key("CONTAINER_NAME"@) ==> c.container is None
        }),
{
}

// ---------------------------------------------------------------------------
// Sessions
// ---------------------------------------------------------------------------

/// Only an answer that speaks against the token or the request refuses it; what may pass,
/// and what has nothing to do with it, does not.
pub proof fn refusals_are_known(s: String, status: u16, context: &'static str, field: &'static str)
    ensures
        refuses_token(EdgepacerError::AuthFailure(s)),
        refuses_token(EdgepacerError::ClientError(s)),
        refuses_token(EdgepacerError::PayloadTooLarge(s)),
        refuses_token(
            EdgepacerError::Http { status, class: ErrorClass::Auth, context, body: s },
        ),
        refuses_token(
            EdgepacerError::Http { status, class: ErrorClass::NonRetryable, context, body: s },
        ),
        !refuses_token(
            EdgepacerError::Http { status, class: ErrorClass::Retryable, context, body: s },
        ),
        !refuses_token(EdgepacerError::Retryable(s)),
        !refuses_token(EdgepacerError::ConfigError(s)),
        !refuses_token(EdgepacerError::MissingConfig { field }),
        !refuses_token(EdgepacerError::Other(s)),
        EdgepacerError::Retryable(s).retryable(),
        (EdgepacerError::Http { status, class: ErrorClass::Retryable, context, body: s }).retryable(),
        !(EdgepacerError::Http { status, class: ErrorClass::Auth, context, body: s }).retryable(),
        !EdgepacerError::AuthFailure(s).retryable(),
        !EdgepacerError::Other(s).retryable(),
        blames_config(EdgepacerError::ConfigError(s)),
        blames_config(EdgepacerError::MissingConfig { field }),
        !blames_config(EdgepacerError::Other(s)),
        !blames_config(EdgepacerError::AuthFailure(s)),
{
}

/// The refresh token of an answer is always stored, the server's own token only where an
/// account's token was used and the answer holds one; nothing else is.
pub proof fn answers_are_stored(is_account_token: bool, response: AuthResponse)
    ensures
        ({
            let stored = tokens_of_exchange(is_account_token, response);
            &&& stored.contains(("refresh_token"@, response.refresh_token@))
            &&& is_account_token && response.server_bootstrap_token is Some ==> stored.contains(
                ("server_bootstrap_token"@, response.server_bootstrap_token->0@),
            ) && stored.len() == 2
            &&& !is_account_token || response.server_bootstrap_token is None ==> stored.len() == 1
        }),
{
    let stored = tokens_of_exchange(is_account_token, response);
    assert(stored[0] == ("refresh_token"@, response.refresh_token@));
    if is_account_token && response.server_bootstrap_token is Some {
        assert(stored[1] == ("server_bootstrap_token"@, response.server_bootstrap_token->0@));
    }
}

/// A token is refreshed after four fifths of its life, rounded down, and never within a
/// minute.
pub proof fn tokens_are_refreshed_after_four_fifths(n: int)
    requires
        n >= 0,
    ensures
        refresh_wait(n) >= 60,
        n >= 75 ==> 5 * refresh_wait(n) <= 4 * n < 5 * refresh_wait(n) + 5,
        n < 75 ==> refresh_wait(n) == 60,
{
}

// ---------------------------------------------------------------------------
// Requests
// ---------------------------------------------------------------------------

/// A host is this machine if it is called so, or has one of the three addresses of it, or
/// lies under it; any name that only looks so is another.
pub proof fn this_machine_is_known(name: Seq<char>)
    ensures
        loopback_host("localhost"@),
        loopback_host("127.0.0.1"@),
        loopback_host("::1"@),
        loopback_host("[::1]"@),
        loopback_host(name + ".localhost"@),
        name.len() > 0 && name.last() != 't' && name.last() != '1' && name.last() != ']'
            ==> !loopback_host(name),
        !loopback_host(Seq::<char>::empty()),
{
    reveal_strlit("localhost");
    reveal_strlit("127.0.0.1");
    reveal_strlit("::1");
    reveal_strlit("[::1]");
    reveal_strlit(".localhost");
    assert(".localhost"@.is_suffix_of(name + ".localhost"@));
    assert("localhost"@.last() == 't' && "127.0.0.1"@.last() == '1' && "::1"@.last() == '1'
        && "[::1]"@.last() == ']' && ".localhost"@.last() == 't');
    assert(".localhost"@.len() == 10 && "localhost"@.len() == 9 && "::1"@.len() == 3);
    assert("127.0.0.1"@.len() == 9 && "[::1]"@.len() == 5);
    if name.len() > 0 && name.last() != 't' {
        lemma_no_end(name, ".localhost"@);
    }
}

/// Tokens go over TLS, or over an open line to this machine, and over nothing else.
pub proof fn tokens_go_over_tls(raw: Seq<char>, scheme: Seq<char>, host: Option<Seq<char>>)
    ensures
        may_carry_tokens("https"@, host),
        host is Some ==> may_carry_tokens("http"@, host) == loopback_host(host->0),
        host is None ==> !may_carry_tokens("http"@, host),
        scheme != "https"@ && scheme != "http"@ ==> !may_carry_tokens(scheme, host),
        url_of(raw) == Ok::<(Seq<char>, Option<Seq<char>>), Seq<char>>((scheme, host)) ==> (
        url_error(raw) is None <==> may_carry_tokens(scheme, host)),
        url_of(raw) is Ok && url_error(raw) is Some ==> url_error(raw)->0 == UrlError::Insecure,
        url_of(raw) is Err ==> url_error(raw) == Some(UrlError::Unreadable),
        url_of(raw) is Err ==> UrlError::Unreadable.text(raw) == url_of(raw)->Err_0,
{
    reveal_strlit("https");
    reveal_strlit("http");
    assert("https"@.len() == 5 && "http"@.len() == 4);
}

/// An answer of up to 256 characters is quoted whole, a longer one by its first 256 with a
/// note of its bytes; line feeds become spaces and nothing else changes.
pub proof fn answers_are_quoted_on_one_line(body: Seq<char>, i: int)
    ensures
        trimmed(body).len() <= 256 ==> {
            &&& quoted_body(body).len() == trimmed(body).len()
            &&& 0 <= i < trimmed(body).len() && trimmed(body)[i] == '\n' ==> quoted_body(body)[i] == ' '
            &&& 0 <= i < trimmed(body).len() && trimmed(body)[i] != '\n' ==> quoted_body(body)[i]
                == trimmed(body)[i]
        },
        trimmed(body).len() > 256 ==> {
            let note = seq!['\u{2026}', ' ', '('] + decimal(encode_utf8(trimmed(body)).len())
                + " bytes total)"@;
            &&& quoted_body(body).len() == 256 + note.len()
            &&& quoted_body(body).skip(256) == note
            &&& 0 <= i < 256 && trimmed(body)[i] == '\n' ==> quoted_body(body)[i] == ' '
            &&& 0 <= i < 256 && trimmed(body)[i] != '\n' ==> quoted_body(body)[i]
                == trimmed(body)[i]
        },
{
    let s = trimmed(body);
    if s.len() > 256 {
        reveal_strlit("… (");
        assert("… ("@ =~= seq!['\u{2026}', ' ', '(']);
        let note = "… ("@ + decimal(encode_utf8(s).len()) + " bytes total)"@;
        let head = one_line(s.take(256));
        assert(head.len() == 256);
        assert(quoted_body(body) =~= head + note);
        assert((head + note).skip(256) =~= note);
    }
}

/// A refused address or token is answered in words.
pub proof fn refusals_are_put_in_words(raw: Seq<char>)
    ensures
        UrlError::Insecure.text(raw) == "control-plane URL must use HTTPS except for localhost: "@
            + raw,
        AppConfigError::EmptyAccountToken.text(raw) == "account bootstrap token cannot be empty"@,
        AppConfigError::EmptyServerToken.text(raw) == "server bootstrap token cannot be empty"@,
        AppConfigError::BothTokens.text(raw)
            == "cannot set both account and server bootstrap tokens; use only one of EDGEPACER_ACCOUNT_TOKEN or EDGEPACER_SERVER_TOKEN"@,
        AppConfigError::NoToken.text(raw)
            == "no bootstrap token available; set EDGEPACER_ACCOUNT_TOKEN or EDGEPACER_SERVER_TOKEN, or persist server_bootstrap_token to disk"@,
        AppConfigError::InvalidHostMode.text(raw)
            == "EDGEPACER_HOST_MODE must be true/false, 1/0, yes/no, or on/off"@,
        AppConfigError::Url(UrlError::Insecure).text(raw) == UrlError::Insecure.text(raw),
        AppConfigError::Url(UrlError::Unreadable).text(raw) == UrlError::Unreadable.text(raw),
{
}

/// The id of a request is 36 characters long: groups of 8, 4, 4, 4 and 12 small hexadecimal
/// digits with hyphens between them, of version 4.
pub proof fn request_ids_have_their_form(s: Seq<char>, i: int)
    requires
        is_random_uuid(s),
    ensures
        s.len() == 36,
        s[8] == '-' && s[13] == '-' && s[18] == '-' && s[23] == '-',
        s[14] == '4',
        s[19] == '8' || s[19] == '9' || s[19] == 'a' || s[19] == 'b',
        0 <= i < 36 && i != 8 && i != 13 && i != 18 && i != 23 ==> (0x30 <= s[i] as int <= 0x39) || (
        0x61 <= s[i] as int <= 0x66),
{
}

/// A digest is written as 64 small hexadecimal digits.
pub proof fn digests_have_their_form(s: Seq<char>, i: int)
    ensures
        is_digest_text(s) ==> s.len() == 64,
        is_digest_text(s) && 0 <= i < 64 ==> (0x30 <= s[i] as int <= 0x39) || (0x61 <= s[i] as int
            <= 0x66),
        s.len() == 64 && (forall|j: int|
            0 <= j < 64 ==> (0x30 <= #[trigger] s[j] as int <= 0x39) || (0x61 <= s[j] as int
                <= 0x66)) ==> is_digest_text(s),
{
    if is_digest_text(s) && 0 <= i < 64 {
        assert(crate::digest::is_small_hex(s[i]));
    }
}

/// A header holds a text without control characters other than the tab.
pub proof fn headers_hold_no_control_characters(s: Seq<char>, i: int)
    ensures
        0 <= i < s.len() && (s[i] as int) < 0x20 && s[i] as int != 9 ==> !header_text(s),
        0 <= i < s.len() && s[i] as int == 0x7f ==> !header_text(s),
        (forall|j: int| 0 <= j < s.len() ==> 0x20 <= #[trigger] s[j] as int && s[j] as int != 0x7f)
            ==> header_text(s),
        header_text(seq!['\t']),
{
    assert(seq!['\t'][0] == '\t');
}

/// An error says what it is of, and the classes have their names.
pub proof fn errors_say_what_they_are(
    s: String,
    status: u16,
    context: &'static str,
    field: &'static str,
    len: usize,
)
    ensures
        EdgepacerError::Retryable(s).text() == "retryable: "@ + s@,
        EdgepacerError::AuthFailure(s).text() == "authentication failed: "@ + s@,
        EdgepacerError::ClientError(s).text() == "client error: "@ + s@,
        EdgepacerError::PayloadTooLarge(s).text() == "payload too large: "@ + s@,
        EdgepacerError::ConfigError(s).text() == "config error: "@ + s@,
        (EdgepacerError::MissingConfig { field }).text() == "missing required config field: "@
            + field@,
        (EdgepacerError::WireCountTooLarge { field, len }).text() == field@
            + " count too large for wire u32: "@ + decimal(len as nat),
        (EdgepacerError::WireEncode { context, source: s }).text() == "failed to encode "@ + context@
            + ": "@ + s@,
        (EdgepacerError::WireDecode { context, source: s }).text() == context@ + ": "@ + s@,
        (EdgepacerError::InvalidMetricValue { metric: s }).text() == "metric '"@ + s@
            + "' is not a finite number"@,
        EdgepacerError::Other(s).text() == s@,
        (EdgepacerError::Http { status, class: ErrorClass::Auth, context, body: s }).text()
            == context@ + ": "@ + decimal(status as nat) + " (Auth) - "@ + s@,
        (EdgepacerError::Http { status, class: ErrorClass::Retryable, context, body: s }).text()
            == context@ + ": "@ + decimal(status as nat) + " (Retryable) - "@ + s@,
        (EdgepacerError::Http { status, class: ErrorClass::NonRetryable, context, body: s }).text()
            == context@ + ": "@ + decimal(status as nat) + " (NonRetryable) - "@ + s@,
{
    reveal_strlit(" (");
    reveal_strlit(") - ");
    reveal_strlit("Auth");
    reveal_strlit("Retryable");
    reveal_strlit("NonRetryable");
    reveal_strlit(" (Auth) - ");
    reveal_strlit(" (Retryable) - ");
    reveal_strlit(" (NonRetryable) - ");
    let head = context@ + ": "@ + decimal(status as nat);
    assert(" ("@ + "Auth"@ + ") - "@ =~= " (Auth) - "@);
    assert(" ("@ + "Retryable"@ + ") - "@ =~= " (Retryable) - "@);
    assert(" ("@ + "NonRetryable"@ + ") - "@ =~= " (NonRetryable) - "@);
    assert(head + " ("@ + "Auth"@ + ") - "@ + s@ =~= head + (" ("@ + "Auth"@ + ") - "@) + s@);
    assert(head + " ("@ + "Retryable"@ + ") - "@ + s@ =~= head + (" ("@ + "Retryable"@ + ") - "@)
        + s@);
    assert(head + " ("@ + "NonRetryable"@ + ") - "@ + s@ =~= head + (" ("@ + "NonRetryable"@
        + ") - "@) + s@);
}

} // verus!
