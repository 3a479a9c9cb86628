//! The binary locator: the prioritized list of places the provider
//! executable may live. Packaged desktop applications often run with a
//! minimal or unpredictable executable search path, so the provider is
//! looked for explicitly — first a configured path, then an environment
//! override, then a sidecar next to the application executable, then the
//! bundle resources directory, then common system install directories —
//! and only past all of those does the bare command name fall to the OS.
//! The caller supplies what only it can know (environment values, the
//! executable's directory, which paths exist on disk); the candidate
//! order and its gating are decided here.

use vstd::prelude::*;
use vstd::string::*;

use crate::port::{all_digits, dec_val, digit_val, u16_to_decimal};

verus! {

/// The platform the application runs on, as far as the locator cares.
#[derive(Clone, Copy, Debug, PartialEq, Eq, Structural)]
pub enum Platform {
    MacOs,
    Linux,
    Windows,
}

/// Configuration of the stock provider backend: the command used
/// when no better path is found.
pub struct CloudflareProvider {
    /// The configured binary: either a bare command name or an explicit
    /// path.
    pub binary: String,
}

impl Default for CloudflareProvider {
    /// The stock configuration: the bare `cloudflared` command.
    fn default() -> (r: Self)
        ensures
            r.binary@ == "cloudflared"@,
    {
        CloudflareProvider { binary: String::from_str("cloudflared") }
    }
}

impl CloudflareProvider {
    /// The provider identifier recorded in tunnel snapshots.
    pub fn name(&self) -> (r: &'static str)
        ensures
            r@ == "cloudflare"@,
    {
        "cloudflare"
    }
}

/// The character is a path separator on some supported platform.
pub open spec fn is_sep_char(c: char) -> bool {
    c == '/' || c == '\\'
}

/// The string holds a path separator, so it is meant as a path rather
/// than a bare command name.
pub open spec fn spec_looks_like_path(s: Seq<char>) -> bool {
    exists|i: int| 0 <= i < s.len() && is_sep_char(#[trigger] s[i])
}

/// ASCII whitespace, as far as the environment-override gate cares.
pub open spec fn is_space_char(c: char) -> bool {
    c == ' ' || c == '\t' || c == '\r' || c == '\n'
}

/// Nothing but whitespace: such an environment override is ignored.
pub open spec fn spec_is_blank(s: Seq<char>) -> bool {
    forall|i: int| 0 <= i < s.len() ==> is_space_char(#[trigger] s[i])
}

/// Whether `s` holds a path separator (and is meant as a path).
pub fn looks_like_path(s: &str) -> (r: bool)
    ensures
        r == spec_looks_like_path(s@),
{
    let n = s.unicode_len();
    let mut i: usize = 0;
    while i < n
        invariant
            n == s@.len(),
            i <= n,
            forall|k: int| 0 <= k < i ==> !is_sep_char(#[trigger] s@[k]),
        decreases n - i,
    {
        let c = s.get_char(i);
        if c == '/' || c == '\\' {
            return true;
        }
        i += 1;
    }
    false
}

/// Whether `s` holds nothing but ASCII whitespace.
pub fn is_blank(s: &str) -> (r: bool)
    ensures
        r == spec_is_blank(s@),
{
    let n = s.unicode_len();
    let mut i: usize = 0;
    while i < n
        invariant
            n == s@.len(),
            i <= n,
            forall|k: int| 0 <= k < i ==> is_space_char(#[trigger] s@[k]),
        decreases n - i,
    {
        let c = s.get_char(i);
        if !(c == ' ' || c == '\t' || c == '\r' || c == '\n') {
            return false;
        }
        i += 1;
    }
    true
}

/// The views of a list of strings.
pub open spec fn str_views(s: Seq<String>) -> Seq<Seq<char>> {
    s.map(|i: int, x: String| x@)
}

/// The view of an optional string.
pub open spec fn opt_view(s: Option<&str>) -> Option<Seq<char>> {
    match s {
        Some(x) => Some(x@),
        None => None,
    }
}

/// The platform's path separator.
pub open spec fn sep_of(platform: Platform) -> Seq<char> {
    if platform is Windows {
        "\\"@
    } else {
        "/"@
    }
}

/// The binary names looked for, most specific first.
pub open spec fn spec_candidate_names(platform: Platform) -> Seq<Seq<char>> {
    if platform is Windows {
        seq!["cloudflared.exe"@, "cloudflared"@]
    } else {
        seq!["cloudflared"@]
    }
}

/// The platform-appropriate binary file names, most specific first.
pub fn candidate_names(platform: Platform) -> (r: Vec<String>)
    ensures
        str_views(r@) =~= spec_candidate_names(platform),
{
    let mut r: Vec<String> = Vec::new();
    if matches!(platform, Platform::Windows) {
        r.push(String::from_str("cloudflared.exe"));
        r.push(String::from_str("cloudflared"));
    } else {
        r.push(String::from_str("cloudflared"));
    }
    r
}

/// `dir`, the platform separator, then `name`.
pub open spec fn spec_join(dir: Seq<char>, name: Seq<char>, platform: Platform) -> Seq<char> {
    dir + sep_of(platform) + name
}

/// Join a directory and a file name with the platform separator.
pub fn join_path(dir: &str, name: &str, platform: Platform) -> (r: String)
    ensures
        r@ == spec_join(dir@, name@, platform),
{
    let sep: &str = if matches!(platform, Platform::Windows) {
        "\\"
    } else {
        "/"
    };
    let joined = String::from_str(dir).concat(sep);
    joined.concat(name)
}

/// The configured-path rung: taken only when the configured value looks
/// like a path.
pub open spec fn cfg_rung(configured: Seq<char>) -> Seq<Seq<char>> {
    if spec_looks_like_path(configured) {
        seq![configured]
    } else {
        Seq::empty()
    }
}

/// The environment-override rung: taken when an override is set and not
/// blank.
pub open spec fn env_rung(env_override: Option<Seq<char>>) -> Seq<Seq<char>> {
    match env_override {
        Some(p) => if !spec_is_blank(p) {
            seq![p]
        } else {
            Seq::empty()
        },
        None => Seq::empty(),
    }
}

/// One candidate per binary name inside `dir`, when a directory is
/// known.
pub open spec fn dir_rung(dir: Option<Seq<char>>, platform: Platform) -> Seq<Seq<char>> {
    match dir {
        Some(d) => spec_candidate_names(platform).map(
            |i: int, nm: Seq<char>| spec_join(d, nm, platform),
        ),
        None => Seq::empty(),
    }
}

/// The bundle-resources rung, which exists only under the macOS app
/// bundle convention.
pub open spec fn resources_rung(
    resources: Option<Seq<char>>,
    platform: Platform,
) -> Seq<Seq<char>> {
    if platform is MacOs {
        dir_rung(resources, platform)
    } else {
        Seq::empty()
    }
}

/// The two vendor directories looked into under one Windows environment
/// root.
pub open spec fn win_root_rung(root: Seq<char>) -> Seq<Seq<char>> {
    seq![
        root + "\\Cloudflare\\cloudflared.exe"@,
        root + "\\cloudflared\\cloudflared.exe"@,
    ]
}

/// The vendor directories under every supplied Windows environment root,
/// in order.
pub open spec fn win_roots_rung(roots: Seq<Seq<char>>) -> Seq<Seq<char>>
    decreases roots.len(),
{
    if roots.len() == 0 {
        Seq::empty()
    } else {
        win_roots_rung(roots.drop_last()) + win_root_rung(roots.last())
    }
}

/// The common system install directories, platform-specific; on Windows
/// two vendor directories under each supplied environment root.
pub open spec fn common_rung(platform: Platform, roots: Seq<Seq<char>>) -> Seq<Seq<char>> {
    match platform {
        Platform::MacOs => seq![
            "/opt/homebrew/bin/cloudflared"@,
            "/usr/local/bin/cloudflared"@,
            "/usr/bin/cloudflared"@,
        ],
        Platform::Linux => seq![
            "/usr/local/bin/cloudflared"@,
            "/usr/bin/cloudflared"@,
            "/snap/bin/cloudflared"@,
        ],
        Platform::Windows => seq!["C:\\ProgramData\\chocolatey\\bin\\cloudflared.exe"@]
            + win_roots_rung(roots),
    }
}

/// The common system install directories for `platform`; on Windows the
/// supplied environment roots (`ProgramFiles` and the like) are each
/// searched under two vendor directory names.
pub fn common_locations(platform: Platform, win_roots: &Vec<String>) -> (r: Vec<String>)
    ensures
        str_views(r@) =~= common_rung(platform, str_views(win_roots@)),
{
    let mut r: Vec<String> = Vec::new();
    match platform {
        Platform::MacOs => {
            r.push(String::from_str("/opt/homebrew/bin/cloudflared"));
            r.push(String::from_str("/usr/local/bin/cloudflared"));
            r.push(String::from_str("/usr/bin/cloudflared"));
        },
        Platform::Linux => {
            r.push(String::from_str("/usr/local/bin/cloudflared"));
            r.push(String::from_str("/usr/bin/cloudflared"));
            r.push(String::from_str("/snap/bin/cloudflared"));
        },
        Platform::Windows => {
            r.push(String::from_str("C:\\ProgramData\\chocolatey\\bin\\cloudflared.exe"));
            let n = win_roots.len();
            let mut k: usize = 0;
            while k < n
                invariant
                    n == win_roots@.len(),
                    k <= n,
                    str_views(r@) =~= seq![
                        "C:\\ProgramData\\chocolatey\\bin\\cloudflared.exe"@,
                    ] + win_roots_rung(str_views(win_roots@).subrange(0, k as int)),
                decreases n - k,
            {
                let ghost pre = str_views(win_roots@).subrange(0, k as int);
                let ghost before = str_views(r@);
                let root = &win_roots[k];
                let first = root.clone().concat("\\Cloudflare\\cloudflared.exe");
                let second = root.clone().concat("\\cloudflared\\cloudflared.exe");
                r.push(first);
                r.push(second);
                proof {
                    let rootv = str_views(win_roots@)[k as int];
                    assert(rootv == root@);
                    let sub_next = str_views(win_roots@).subrange(0, k + 1);
                    assert(sub_next.drop_last() =~= pre);
                    assert(sub_next.last() == rootv);
                    assert(win_roots_rung(sub_next) == win_roots_rung(pre) + win_root_rung(
                        rootv,
                    ));
                    assert(str_views(r@) =~= before + win_root_rung(rootv));
                }
                k += 1;
            }
            proof {
                assert(str_views(win_roots@).subrange(0, n as int) =~= str_views(
                    win_roots@,
                ));
            }
        },
    }
    r
}

/// Every place the provider binary is looked for, in priority order.
pub open spec fn spec_candidates(
    configured: Seq<char>,
    env_override: Option<Seq<char>>,
    exe_dir: Option<Seq<char>>,
    resources_dir: Option<Seq<char>>,
    roots: Seq<Seq<char>>,
    platform: Platform,
) -> Seq<Seq<char>> {
    cfg_rung(configured) + env_rung(env_override) + dir_rung(exe_dir, platform)
        + resources_rung(resources_dir, platform) + common_rung(platform, roots)
}

/// Assemble the prioritized candidate list: the configured path when it
/// is one, a non-blank environment override, the sidecar names next to
/// the application executable, the bundle resources directory on macOS,
/// and the common install directories. The caller checks the candidates
/// for existence in this order; with no hit it falls back to the bare
/// configured command.
pub fn locator_candidates(
    configured: &str,
    env_override: Option<&str>,
    exe_dir: Option<&str>,
    resources_dir: Option<&str>,
    win_roots: &Vec<String>,
    platform: Platform,
) -> (r: Vec<String>)
    ensures
        str_views(r@) =~= spec_candidates(
            configured@,
            opt_view(env_override),
            opt_view(exe_dir),
            opt_view(resources_dir),
            str_views(win_roots@),
            platform,
        ),
{
    let mut r: Vec<String> = Vec::new();
    if looks_like_path(configured) {
        r.push(String::from_str(configured));
    }
    proof {
        assert(str_views(r@) =~= cfg_rung(configured@));
    }
    let ghost done1 = str_views(r@);
    if let Some(p) = env_override {
        if !is_blank(p) {
            r.push(String::from_str(p));
        }
    }
    proof {
        assert(str_views(r@) =~= done1 + env_rung(opt_view(env_override)));
    }
    let ghost done2 = str_views(r@);
    if let Some(d) = exe_dir {
        push_dir_candidates(&mut r, d, platform);
    }
    proof {
        assert(str_views(r@) =~= done2 + dir_rung(opt_view(exe_dir), platform));
    }
    let ghost done3 = str_views(r@);
    if matches!(platform, Platform::MacOs) {
        if let Some(res) = resources_dir {
            push_dir_candidates(&mut r, res, platform);
        }
    }
    proof {
        assert(str_views(r@) =~= done3 + resources_rung(opt_view(resources_dir), platform));
    }
    let ghost done4 = str_views(r@);
    let mut common = common_locations(platform, win_roots);
    let ghost common_v = str_views(common@);
    r.append(&mut common);
    proof {
        assert(str_views(r@) =~= done4 + common_v);
    }
    r
}

/// Push one candidate per binary name inside `dir`.
fn push_dir_candidates(r: &mut Vec<String>, dir: &str, platform: Platform)
    ensures
        str_views(final(r)@) =~= str_views(old(r)@) + dir_rung(Some(dir@), platform),
{
    let names = candidate_names(platform);
    let n = names.len();
    let mut k: usize = 0;
    while k < n
        invariant
            n == names@.len(),
            k <= n,
            str_views(names@) =~= spec_candidate_names(platform),
            str_views(r@) =~= str_views(old(r)@) + spec_candidate_names(platform).subrange(
                0,
                k as int,
            ).map(|i: int, nm: Seq<char>| spec_join(dir@, nm, platform)),
        decreases n - k,
    {
        let ghost before = str_views(r@);
        let joined = join_path(dir, &names[k], platform);
        proof {
            assert(names@[k as int]@ == spec_candidate_names(platform)[k as int]);
        }
        r.push(joined);
        proof {
            let f = |i: int, nm: Seq<char>| spec_join(dir@, nm, platform);
            let sub_next = spec_candidate_names(platform).subrange(0, k + 1);
            assert(sub_next.map(f) =~= spec_candidate_names(platform).subrange(0, k as int).map(
                f,
            ).push(spec_join(dir@, spec_candidate_names(platform)[k as int], platform)));
            assert(str_views(r@) =~= before.push(
                spec_join(dir@, spec_candidate_names(platform)[k as int], platform),
            ));
        }
        k += 1;
    }
    proof {
        assert(spec_candidate_names(platform).subrange(
            0,
            spec_candidate_names(platform).len() as int,
        ) =~= spec_candidate_names(platform));
    }
}

/// `s` is the local-forward target for `port`: the fixed scheme-and-host
/// prefix, then the port's decimal digits with no leading zero.
pub open spec fn is_forward_url(s: Seq<char>, port: u16) -> bool {
    &&& s.len() > 17
    &&& s.subrange(0, 17) == "http://localhost:"@
    &&& all_digits(s.subrange(17, s.len() as int))
    &&& dec_val(s.subrange(17, s.len() as int)) == port
    &&& (port > 0 ==> digit_val(s[17]) > 0)
    &&& (port == 0 ==> s.len() == 18)
}

/// The target the provider is asked to forward: `http://localhost:`
/// followed by the port.
pub fn forward_url(port: u16) -> (r: String)
    ensures
        is_forward_url(r@, port),
{
    let digits = u16_to_decimal(port);
    let r = String::from_str("http://localhost:").concat(digits.as_str());
    proof {
        reveal_strlit("http://localhost:");
        assert(r@.subrange(0, 17) =~= "http://localhost:"@);
        assert(r@.subrange(17, r@.len() as int) =~= digits@);
        assert(r@[17] == digits@[0]);
    }
    r
}

/// The command line handed to the provider binary: request a quick
/// tunnel forwarding the local port, with auto-update off.
pub fn tunnel_command_args(port: u16) -> (r: Vec<String>)
    ensures
        r@.len() == 4,
        r@[0]@ == "tunnel"@,
        r@[1]@ == "--url"@,
        is_forward_url(r@[2]@, port),
        r@[3]@ == "--no-autoupdate"@,
{
    let mut r: Vec<String> = Vec::new();
    r.push(String::from_str("tunnel"));
    r.push(String::from_str("--url"));
    r.push(forward_url(port));
    r.push(String::from_str("--no-autoupdate"));
    r
}

/// Index of the first candidate that exists on disk. `present[i]` says
/// whether `candidates[i]` exists; the two lists run in step.
pub fn first_existing(candidates: &Vec<String>, present: &Vec<bool>) -> (r: Option<usize>)
    requires
        candidates@.len() == present@.len(),
    ensures
        r matches Some(i) ==> i < candidates@.len() && present@[i as int]
            && (forall|k: int| 0 <= k < i ==> !present@[k]),
        r is None ==> forall|k: int| 0 <= k < present@.len() ==> !present@[k],
{
    let n = candidates.len();
    let mut i: usize = 0;
    while i < n
        invariant
            n == present@.len(),
            n == candidates@.len(),
            i <= n,
            forall|k: int| 0 <= k < i ==> !present@[k],
        decreases n - i,
    {
        if present[i] {
            assert(present@[i as int]);
            return Some(i);
        }
        i += 1;
    }
    None
}

} // verus!
