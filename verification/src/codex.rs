//! Release selection and version handling for the managed CLI backend:
//! reading a version out of a release tag, choosing installable releases,
//! finding a release asset, naming the platform's asset and binary, and
//! interpreting the CLI's own status output. The network and archive work
//! around these decisions stays outside the library.

use vstd::prelude::*;
use crate::events::opt_str_view;
use crate::strutil::{
    has_char, is_digit, is_ws, split_char, str_has_char, str_split_char, trim, trimmed,
};
use vstd::string::StringExecFns;
use vstd::string::StrSliceExecFns;

verus! {

/// Status of the managed CLI installation.
pub struct CodexCliStatus {
    pub installed: bool,
    pub version: Option<String>,
    pub path: Option<String>,
}

/// Authentication status of the managed CLI.
pub struct CodexAuthStatus {
    pub authenticated: bool,
    pub error: Option<String>,
}

/// One installable release, as offered to the caller.
pub struct CodexReleaseInfo {
    pub version: String,
    pub tag_name: String,
    pub published_at: String,
    pub prerelease: bool,
}

#[verifier::ext_equal]
pub struct CodexReleaseInfoModel {
    pub version: Seq<char>,
    pub tag_name: Seq<char>,
    pub published_at: Seq<char>,
    pub prerelease: bool,
}

impl View for CodexReleaseInfo {
    type V = CodexReleaseInfoModel;

    open spec fn view(&self) -> CodexReleaseInfoModel {
        CodexReleaseInfoModel {
            version: self.version@,
            tag_name: self.tag_name@,
            published_at: self.published_at@,
            prerelease: self.prerelease,
        }
    }
}

impl DeepView for CodexReleaseInfo {
    type V = CodexReleaseInfoModel;

    open spec fn deep_view(&self) -> CodexReleaseInfoModel {
        self.view()
    }
}

/// Progress of one installation, as emitted to the caller's transport.
pub struct CodexInstallProgress {
    pub stage: String,
    pub message: String,
    pub percent: u8,
}

/// One downloadable file of a release.
pub struct ReleaseAsset {
    pub name: String,
    pub browser_download_url: String,
}

#[verifier::ext_equal]
pub struct ReleaseAssetModel {
    pub name: Seq<char>,
    pub browser_download_url: Seq<char>,
}

impl View for ReleaseAsset {
    type V = ReleaseAssetModel;

    open spec fn view(&self) -> ReleaseAssetModel {
        ReleaseAssetModel { name: self.name@, browser_download_url: self.browser_download_url@ }
    }
}

impl DeepView for ReleaseAsset {
    type V = ReleaseAssetModel;

    open spec fn deep_view(&self) -> ReleaseAssetModel {
        self.view()
    }
}

/// One published release, as the caller fetched it.
pub struct ReleaseData {
    pub tag_name: String,
    pub published_at: String,
    pub prerelease: bool,
    pub assets: Vec<ReleaseAsset>,
}

#[verifier::ext_equal]
pub struct ReleaseDataModel {
    pub tag_name: Seq<char>,
    pub published_at: Seq<char>,
    pub prerelease: bool,
    pub assets: Seq<ReleaseAssetModel>,
}

impl View for ReleaseData {
    type V = ReleaseDataModel;

    open spec fn view(&self) -> ReleaseDataModel {
        ReleaseDataModel {
            tag_name: self.tag_name@,
            published_at: self.published_at@,
            prerelease: self.prerelease,
            assets: self.assets.deep_view(),
        }
    }
}

impl DeepView for ReleaseData {
    type V = ReleaseDataModel;

    open spec fn deep_view(&self) -> ReleaseDataModel {
        self.view()
    }
}

/// The part with its trailing dashes removed.
pub open spec fn trim_dashes(s: Seq<char>) -> Seq<char>
    decreases s.len(),
{
    if s.len() > 0 && s.last() == '-' {
        trim_dashes(s.drop_last())
    } else {
        s
    }
}

/// A `v`-separated part that reads as a version: it starts with a digit
/// and holds a dot, once trailing dashes are dropped.
pub open spec fn is_version_part(p: Seq<char>) -> bool {
    trim_dashes(p).len() > 0 && is_digit(trim_dashes(p)[0]) && has_char(trim_dashes(p), '.')
}

pub open spec fn version_from_parts(parts: Seq<Seq<char>>) -> Option<Seq<char>>
    decreases parts.len(),
{
    if parts.len() == 0 {
        None
    } else if is_version_part(parts[0]) {
        Some(trim_dashes(parts[0]))
    } else {
        version_from_parts(parts.drop_first())
    }
}

/// The version a release tag carries: the first `v`-separated part that
/// reads as a version, or the whole tag when none does.
pub open spec fn spec_extract_version(tag: Seq<char>) -> Seq<char> {
    match version_from_parts(split_char(tag, 'v')) {
        Some(v) => v,
        None => tag,
    }
}

proof fn lemma_trim_dashes_take(s: Seq<char>, j: int)
    requires
        0 <= j <= s.len(),
        forall|k: int| j <= k < s.len() ==> s[k] == '-',
        j == 0 || s[j - 1] != '-',
    ensures
        trim_dashes(s) == s.take(j),
    decreases s.len() - j,
{
    if j == s.len() {
        assert(s.take(j) =~= s);
    } else {
        assert(s.last() == '-');
        lemma_trim_dashes_take(s.drop_last(), j);
        assert(s.drop_last().take(j) =~= s.take(j));
    }
}

/// The part trimmed of trailing dashes, as an owned string.
fn trim_dashes_exec(s: &str) -> (r: String)
    ensures
        r@ == trim_dashes(s@),
{
    let len = s.unicode_len();
    let mut j: usize = len;
    while j > 0 && s.get_char(j - 1) == '-'
        invariant
            len == s@.len(),
            j <= len,
            forall|k: int| j <= k < len ==> s@[k] == '-',
        decreases j,
    {
        j = j - 1;
    }
    proof {
        lemma_trim_dashes_take(s@, j as int);
    }
    String::from_str(s.substring_char(0, j))
}

/// Extract the version number from a release tag.
#[verifier::loop_isolation(false)]
pub fn extract_version_from_tag(tag: &str) -> (r: String)
    ensures
        r@ == spec_extract_version(tag@),
{
    let parts = str_split_char(tag, 'v');
    let ghost pv = parts.deep_view();
    proof {
        assert(pv.skip(0) =~= pv);
    }
    let mut i: usize = 0;
    while i < parts.len()
        invariant
            i <= parts@.len(),
            version_from_parts(pv) == version_from_parts(pv.skip(i as int)),
        decreases parts@.len() - i,
    {
        proof {
            assert(pv.skip(i as int)[0] == pv[i as int]);
            assert(pv.skip(i as int).drop_first() =~= pv.skip(i + 1));
        }
        let t = trim_dashes_exec(parts[i].as_str());
        let tlen = t.as_str().unicode_len();
        if tlen > 0 {
            let c0 = t.as_str().get_char(0);
            let u = c0 as u32;
            if 48 <= u && u <= 57 && str_has_char(t.as_str(), '.') {
                return t;
            }
        }
        i = i + 1;
    }
    proof {
        assert(pv.skip(parts@.len() as int) =~= Seq::<Seq<char>>::empty());
    }
    String::from_str(tag)
}

/// An operating system the managed CLI has builds for.
#[derive(Clone, Copy, PartialEq, Eq, Structural, Debug)]
pub enum TargetOs {
    MacOs,
    Linux,
    Windows,
    Other,
}

/// A processor architecture the managed CLI has builds for.
#[derive(Clone, Copy, PartialEq, Eq, Structural, Debug)]
pub enum TargetArch {
    X86_64,
    Aarch64,
    Other,
}

/// The release target triple for a platform; exactly the six supported
/// pairs have one, and anything else is unsupported.
pub fn get_codex_target(os: TargetOs, arch: TargetArch) -> (r: Result<String, String>)
    ensures
        r is Ok <==> (os != TargetOs::Other && arch != TargetArch::Other),
        os == TargetOs::MacOs && arch == TargetArch::Aarch64 ==> r->Ok_0@
            == "aarch64-apple-darwin"@,
        os == TargetOs::MacOs && arch == TargetArch::X86_64 ==> r->Ok_0@ == "x86_64-apple-darwin"@,
        os == TargetOs::Linux && arch == TargetArch::X86_64 ==> r->Ok_0@
            == "x86_64-unknown-linux-gnu"@,
        os == TargetOs::Linux && arch == TargetArch::Aarch64 ==> r->Ok_0@
            == "aarch64-unknown-linux-gnu"@,
        os == TargetOs::Windows && arch == TargetArch::X86_64 ==> r->Ok_0@
            == "x86_64-pc-windows-msvc"@,
        os == TargetOs::Windows && arch == TargetArch::Aarch64 ==> r->Ok_0@
            == "aarch64-pc-windows-msvc"@,
        r is Err ==> r->Err_0@ == "Unsupported platform"@,
{
    match (os, arch) {
        (TargetOs::MacOs, TargetArch::Aarch64) => Ok(String::from_str("aarch64-apple-darwin")),
        (TargetOs::MacOs, TargetArch::X86_64) => Ok(String::from_str("x86_64-apple-darwin")),
        (TargetOs::Linux, TargetArch::X86_64) => Ok(String::from_str("x86_64-unknown-linux-gnu")),
        (TargetOs::Linux, TargetArch::Aarch64) => Ok(
            String::from_str("aarch64-unknown-linux-gnu"),
        ),
        (TargetOs::Windows, TargetArch::X86_64) => Ok(String::from_str("x86_64-pc-windows-msvc")),
        (TargetOs::Windows, TargetArch::Aarch64) => Ok(
            String::from_str("aarch64-pc-windows-msvc"),
        ),
        _ => Err(String::from_str("Unsupported platform")),
    }
}

/// The archive name a release carries for the target: a zip on Windows, a
/// gzipped tar elsewhere.
pub fn build_asset_name(target: &str, windows: bool) -> (r: String)
    ensures
        windows ==> r@ == "codex-"@ + target@ + ".exe.zip"@,
        !windows ==> r@ == "codex-"@ + target@ + ".tar.gz"@,
{
    let mut out = String::from_str("codex-");
    out.append(target);
    if windows {
        out.append(".exe.zip");
    } else {
        out.append(".tar.gz");
    }
    out
}

/// The file to take out of the archive: only the main binary, never the
/// bundled helper binaries.
pub fn expected_binary_name(target: &str, windows: bool) -> (r: String)
    ensures
        windows ==> r@ == "codex-"@ + target@ + ".exe"@,
        !windows ==> r@ == "codex-"@ + target@,
{
    let mut out = String::from_str("codex-");
    out.append(target);
    if windows {
        out.append(".exe");
    }
    out
}

/// A release worth offering: stable, and with something to download.
pub open spec fn installable(r: ReleaseDataModel) -> bool {
    !r.prerelease && r.assets.len() > 0
}

pub open spec fn release_info_of(r: ReleaseDataModel) -> CodexReleaseInfoModel {
    CodexReleaseInfoModel {
        version: spec_extract_version(r.tag_name),
        tag_name: r.tag_name,
        published_at: r.published_at,
        prerelease: r.prerelease,
    }
}

/// The first installable releases, in order, up to the remaining count.
pub open spec fn spec_select_releases(rs: Seq<ReleaseDataModel>, remaining: nat) -> Seq<
    CodexReleaseInfoModel,
>
    decreases rs.len(),
{
    if rs.len() == 0 || remaining == 0 {
        Seq::empty()
    } else if installable(rs[0]) {
        seq![release_info_of(rs[0])] + spec_select_releases(rs.drop_first(), (remaining - 1) as nat)
    } else {
        spec_select_releases(rs.drop_first(), remaining)
    }
}

/// The releases offered for installation: the first five stable releases
/// that carry assets, in the order given.
#[verifier::loop_isolation(false)]
pub fn select_releases(releases: &Vec<ReleaseData>) -> (r: Vec<CodexReleaseInfo>)
    ensures
        r.deep_view() == spec_select_releases(releases.deep_view(), 5),
{
    let ghost rv = releases.deep_view();
    let mut out: Vec<CodexReleaseInfo> = Vec::new();
    proof {
        assert(rv.skip(0) =~= rv);
        assert(out.deep_view() =~= Seq::<CodexReleaseInfoModel>::empty());
        assert(out.deep_view() + spec_select_releases(rv, 5) =~= spec_select_releases(rv, 5));
    }
    let mut count: usize = 0;
    let mut i: usize = 0;
    while i < releases.len() && count < 5
        invariant
            i <= releases@.len(),
            count == out@.len(),
            count <= 5,
            spec_select_releases(rv, 5) == out.deep_view() + spec_select_releases(
                rv.skip(i as int),
                (5 - count) as nat,
            ),
        decreases releases@.len() - i,
    {
        proof {
            assert(rv.skip(i as int)[0] == rv[i as int]);
            assert(rv.skip(i as int).drop_first() =~= rv.skip(i + 1));
        }
        let rel = &releases[i];
        if !rel.prerelease && rel.assets.len() > 0 {
            let version = extract_version_from_tag(rel.tag_name.as_str());
            let ghost ov = out.deep_view();
            out.push(
                CodexReleaseInfo {
                    version,
                    tag_name: rel.tag_name.clone(),
                    published_at: rel.published_at.clone(),
                    prerelease: rel.prerelease,
                },
            );
            count = count + 1;
            proof {
                assert(out.deep_view() =~= ov.push(release_info_of(rv[i as int])));
                assert(ov + (seq![release_info_of(rv[i as int])] + spec_select_releases(
                    rv.skip(i + 1),
                    (5 - count) as nat,
                )) =~= out.deep_view() + spec_select_releases(rv.skip(i + 1), (5 - count) as nat));
            }
        }
        i = i + 1;
    }
    proof {
        if i == releases@.len() {
            assert(rv.skip(i as int) =~= Seq::<ReleaseDataModel>::empty());
        }
        assert(out.deep_view() + Seq::<CodexReleaseInfoModel>::empty() =~= out.deep_view());
    }
    out
}

/// The first asset of the list with the given name, if any.
pub open spec fn spec_find_in_assets(assets: Seq<ReleaseAssetModel>, name: Seq<char>) -> Option<
    Seq<char>,
>
    decreases assets.len(),
{
    if assets.len() == 0 {
        None
    } else if assets[0].name == name {
        Some(assets[0].browser_download_url)
    } else {
        spec_find_in_assets(assets.drop_first(), name)
    }
}

pub open spec fn msg_no_asset(asset_name: Seq<char>, tag: Seq<char>) -> Seq<char> {
    "Asset "@ + asset_name + " not found in release "@ + tag
}

pub open spec fn msg_no_release(version: Seq<char>) -> Seq<char> {
    "Release for version "@ + version + " not found"@
}

/// The download address of a named asset: found in the first release
/// whose tag carries the requested version; an error names what was
/// missing — the asset in that release, or any release of the version.
pub open spec fn spec_find_asset_url(
    rs: Seq<ReleaseDataModel>,
    version: Seq<char>,
    asset_name: Seq<char>,
) -> Result<Seq<char>, Seq<char>>
    decreases rs.len(),
{
    if rs.len() == 0 {
        Err(msg_no_release(version))
    } else if spec_extract_version(rs[0].tag_name) == version {
        match spec_find_in_assets(rs[0].assets, asset_name) {
            Some(url) => Ok(url),
            None => Err(msg_no_asset(asset_name, rs[0].tag_name)),
        }
    } else {
        spec_find_asset_url(rs.drop_first(), version, asset_name)
    }
}

/// Find the download address for an asset by searching the releases.
#[verifier::loop_isolation(false)]
pub fn find_asset_url(releases: &Vec<ReleaseData>, version: &str, asset_name: &str) -> (r: Result<
    String,
    String,
>)
    ensures
        match r {
            Ok(url) => spec_find_asset_url(releases.deep_view(), version@, asset_name@) == Ok::<
                Seq<char>,
                Seq<char>,
            >(url@),
            Err(e) => spec_find_asset_url(releases.deep_view(), version@, asset_name@) == Err::<
                Seq<char>,
                Seq<char>,
            >(e@),
        },
{
    let ghost rv = releases.deep_view();
    proof {
        assert(rv.skip(0) =~= rv);
    }
    let mut i: usize = 0;
    while i < releases.len()
        invariant
            i <= releases@.len(),
            spec_find_asset_url(rv, version@, asset_name@) == spec_find_asset_url(
                rv.skip(i as int),
                version@,
                asset_name@,
            ),
        decreases releases@.len() - i,
    {
        proof {
            assert(rv.skip(i as int)[0] == rv[i as int]);
            assert(rv.skip(i as int).drop_first() =~= rv.skip(i + 1));
        }
        let rel = &releases[i];
        let rel_version = extract_version_from_tag(rel.tag_name.as_str());
        if crate::strutil::str_eq(rel_version.as_str(), version) {
            let ghost av = rel.assets.deep_view();
            proof {
                assert(av.skip(0) =~= av);
            }
            let mut j: usize = 0;
            while j < rel.assets.len()
                invariant
                    j <= rel.assets@.len(),
                    av == rel.assets.deep_view(),
                    spec_find_in_assets(av, asset_name@) == spec_find_in_assets(
                        av.skip(j as int),
                        asset_name@,
                    ),
                decreases rel.assets@.len() - j,
            {
                proof {
                    assert(av.skip(j as int)[0] == av[j as int]);
                    assert(av.skip(j as int).drop_first() =~= av.skip(j + 1));
                }
                if crate::strutil::str_eq(rel.assets[j].name.as_str(), asset_name) {
                    return Ok(rel.assets[j].browser_download_url.clone());
                }
                j = j + 1;
            }
            proof {
                assert(av.skip(rel.assets@.len() as int) =~= Seq::<ReleaseAssetModel>::empty());
            }
            let mut e = String::from_str("Asset ");
            e.append(asset_name);
            e.append(" not found in release ");
            e.append(rel.tag_name.as_str());
            proof {
                assert(e@ =~= msg_no_asset(asset_name@, rv[i as int].tag_name));
            }
            return Err(e);
        }
        i = i + 1;
    }
    proof {
        assert(rv.skip(releases@.len() as int) =~= Seq::<ReleaseDataModel>::empty());
    }
    let mut e = String::from_str("Release for version ");
    e.append(version);
    e.append(" not found");
    proof {
        assert(e@ =~= msg_no_release(version@));
    }
    Err(e)
}

/// The final whitespace-separated token of the string.
pub open spec fn last_token(s: Seq<char>) -> Seq<char>
    decreases s.len(),
{
    if s.len() == 0 {
        Seq::empty()
    } else if is_ws(s.last()) {
        Seq::empty()
    } else {
        last_token(s.drop_last()).push(s.last())
    }
}

/// The string with its leading `v` characters removed.
pub open spec fn trim_v(s: Seq<char>) -> Seq<char>
    decreases s.len(),
{
    if s.len() > 0 && s[0] == 'v' {
        trim_v(s.drop_first())
    } else {
        s
    }
}

proof fn lemma_last_token_skip(s: Seq<char>, j: int)
    requires
        0 <= j <= s.len(),
        forall|k: int| j <= k < s.len() ==> !is_ws(#[trigger] s[k]),
        j == 0 || is_ws(s[j - 1]),
    ensures
        last_token(s) == s.skip(j),
    decreases s.len() - j,
{
    if j == s.len() {
        if j == 0 {
            assert(s.skip(0) =~= s);
        } else {
            assert(is_ws(s.last()));
            assert(s.skip(j) =~= Seq::<char>::empty());
        }
    } else {
        assert(!is_ws(s.last()));
        lemma_last_token_skip(s.drop_last(), j);
        assert(s.drop_last().skip(j) =~= s.skip(j).drop_last());
        assert(s.skip(j).drop_last().push(s.last()) =~= s.skip(j));
    }
}

proof fn lemma_trim_v_skip(s: Seq<char>, i: int)
    requires
        0 <= i <= s.len(),
        forall|k: int| 0 <= k < i ==> #[trigger] s[k] == 'v',
        i == s.len() || s[i] != 'v',
    ensures
        trim_v(s) == s.skip(i),
    decreases i,
{
    if i == 0 {
        assert(s.skip(0) =~= s);
    } else {
        assert(s[0] == 'v');
        lemma_trim_v_skip(s.drop_first(), i - 1);
        assert(forall|k: int| 0 <= k < i - 1 ==> #[trigger] s.drop_first()[k] == s[k + 1]);
        assert(s.drop_first().skip(i - 1) =~= s.skip(i));
    }
}

/// The version read out of a CLI's own `--version` output: the last
/// whitespace-separated token, without a leading `v`; empty output has
/// none.
pub fn parse_cli_version_output(stdout: &str) -> (r: Option<String>)
    ensures
        r is Some <==> trimmed(stdout@).len() > 0,
        r is Some ==> r->0@ == trim_v(last_token(trimmed(stdout@))),
{
    let t = trim(stdout);
    let len = t.unicode_len();
    if len == 0 {
        return None;
    }
    let mut j: usize = len;
    while j > 0 && !crate::strutil::is_ws_char(t.get_char(j - 1))
        invariant
            len == t@.len(),
            j <= len,
            forall|k: int| j <= k < len ==> !is_ws(#[trigger] t@[k]),
        decreases j,
    {
        j = j - 1;
    }
    proof {
        lemma_last_token_skip(t@, j as int);
    }
    let token = t.substring_char(j, len);
    let tok_len = token.unicode_len();
    let mut i: usize = 0;
    while i < tok_len && token.get_char(i) == 'v'
        invariant
            tok_len == token@.len(),
            i <= tok_len,
            forall|k: int| 0 <= k < i ==> #[trigger] token@[k] == 'v',
        decreases tok_len - i,
    {
        i = i + 1;
    }
    proof {
        lemma_trim_v_skip(token@, i as int);
    }
    Some(String::from_str(token.substring_char(i, tok_len)))
}

/// The authentication status read from the CLI's exit: success means
/// authenticated; failure carries the trimmed error stream, or a fixed
/// message when it was empty.
pub fn auth_status_from(success: bool, stderr: &str) -> (r: CodexAuthStatus)
    ensures
        r.authenticated == success,
        success ==> r.error is None,
        !success && trimmed(stderr@).len() == 0 ==> opt_str_view(r.error) == Some(
            "Not authenticated"@,
        ),
        !success && trimmed(stderr@).len() > 0 ==> opt_str_view(r.error) == Some(
            trimmed(stderr@),
        ),
{
    if success {
        CodexAuthStatus { authenticated: true, error: None }
    } else {
        let t = trim(stderr);
        if t.unicode_len() == 0 {
            CodexAuthStatus {
                authenticated: false,
                error: Some(String::from_str("Not authenticated")),
            }
        } else {
            CodexAuthStatus { authenticated: false, error: Some(String::from_str(t)) }
        }
    }
}

} // verus!
