//! The self-update protocol's logic: a narrow scanner for the fixed shape
//! of the release endpoint's metadata, the platform asset names, the
//! version-comparison decision, and the deferred-cleanup script emitted
//! where a running binary cannot replace itself. Fetching, spawning and
//! file replacement are carried out by the surrounding process.

use vstd::prelude::*;
use vstd::string::StrSliceExecFns;
use vstd::string::StringExecFns;
use crate::text::{chars_of, str_eq};

verus! {

/// The characters the narrow scanner treats as white space.
pub open spec fn is_scan_space(c: char) -> bool {
    c == ' ' || c == '\t' || c == '\n' || c == '\r'
}

/// The first index at or after `i` holding a non-space character, or the
/// end of the string.
pub open spec fn skip_spaces(s: Seq<char>, i: int) -> int
    decreases s.len() - i
        when 0 <= i <= s.len()
{
    if i == s.len() {
        i
    } else if is_scan_space(s[i]) {
        skip_spaces(s, i + 1)
    } else {
        i
    }
}

/// The first index at or after `from` where `needle` occurs in `s`, if any.
pub open spec fn find_at(s: Seq<char>, needle: Seq<char>, from: int) -> Option<int>
    decreases s.len() - from
        when 0 <= from
{
    if needle.len() == 0 {
        Some(from)
    } else if from + needle.len() > s.len() {
        None
    } else if s.subrange(from, from + needle.len()) == needle {
        Some(from)
    } else {
        find_at(s, needle, from + 1)
    }
}

/// The needle `"key"` searched for in the metadata body.
pub open spec fn quoted_key(key: Seq<char>) -> Seq<char> {
    seq!['"'] + key + seq!['"']
}

/// The value scanned after a matched key: optional spaces, a colon,
/// optional spaces, an opening quote, then everything up to the next quote.
pub open spec fn scan_quoted_value(s: Seq<char>, pos: int) -> Option<Seq<char>> {
    let p1 = skip_spaces(s, pos);
    if p1 < s.len() && s[p1] == ':' {
        let p2 = skip_spaces(s, p1 + 1);
        if p2 < s.len() && s[p2] == '"' {
            match find_at(s, seq!['"'], p2 + 1) {
                Some(end) => Some(s.subrange(p2 + 1, end)),
                None => None,
            }
        } else {
            None
        }
    } else {
        None
    }
}

/// Extraction of the string value of `key` from flat JSON text, starting
/// the search at `from`: find `"key"`, then scan the quoted value after it.
pub open spec fn extract_spec(json: Seq<char>, key: Seq<char>, from: int) -> Option<Seq<char>> {
    match find_at(json, quoted_key(key), from) {
        Some(i) => scan_quoted_value(json, i + quoted_key(key).len()),
        None => None,
    }
}

/// The needle locating the asset block whose `name` field equals `name`.
pub open spec fn asset_needle(name: Seq<char>) -> Seq<char> {
    seq!['"', 'n', 'a', 'm', 'e', '"', ':', ' ', '"'] + name + seq!['"']
}

/// The download URL for the named asset: the `browser_download_url` value
/// scanned from the text after the asset's `name` field.
pub open spec fn find_asset_url_spec(json: Seq<char>, name: Seq<char>) -> Option<Seq<char>> {
    match find_at(json, asset_needle(name), 0) {
        Some(i) => extract_spec(json, "browser_download_url"@, i),
        None => None,
    }
}

/// Whether `needle` occurs in `s` exactly at index `i`.
fn match_at(s: &Vec<char>, needle: &Vec<char>, i: usize) -> (r: bool)
    requires
        i + needle@.len() <= s@.len(),
    ensures
        r == (s@.subrange(i as int, i as int + needle@.len()) == needle@),
{
    let m = needle.len();
    let n = s.len();
    let mut j: usize = 0;
    while j < m
        invariant
            j <= m,
            m == needle@.len(),
            n == s@.len(),
            i + m <= n,
            forall|b: int| 0 <= b < j ==> s@[i + b] == needle@[b],
        decreases m - j,
    {
        if s[i + j] != needle[j] {
            proof {
                assert(s@.subrange(i as int, i as int + needle@.len())[j as int] == s@[i + j]);
            }
            return false;
        }
        j += 1;
    }
    proof {
        assert(s@.subrange(i as int, i as int + needle@.len()) =~= needle@);
    }
    true
}

/// Finds the first occurrence of `needle` at or after `from`.
fn find_from(s: &Vec<char>, needle: &Vec<char>, from: usize) -> (r: Option<usize>)
    requires
        from <= s@.len(),
    ensures
        match r {
            Some(i) => find_at(s@, needle@, from as int) == Some(i as int) && i + needle@.len()
                <= s@.len() && from <= i,
            None => find_at(s@, needle@, from as int) is None,
        },
{
    let n = s.len();
    let m = needle.len();
    if m == 0 {
        return Some(from);
    }
    if m > n || from > n - m {
        proof {
            assert(find_at(s@, needle@, from as int) is None);
        }
        return None;
    }
    let mut i: usize = from;
    while i <= n - m
        invariant
            from <= i <= n - m + 1,
            1 <= m <= n,
            n == s@.len(),
            m == needle@.len(),
            find_at(s@, needle@, from as int) == find_at(s@, needle@, i as int),
        decreases n - i,
    {
        if match_at(s, needle, i) {
            return Some(i);
        }
        proof {
            assert(find_at(s@, needle@, i as int) == find_at(s@, needle@, i + 1));
        }
        i += 1;
    }
    proof {
        assert(find_at(s@, needle@, i as int) is None);
    }
    None
}

/// Advances past white space.
fn skip_spaces_from(s: &Vec<char>, i: usize) -> (r: usize)
    requires
        i <= s@.len(),
    ensures
        r == skip_spaces(s@, i as int),
        i <= r <= s@.len(),
{
    let n = s.len();
    let mut j: usize = i;
    loop
        invariant
            i <= j <= n,
            n == s@.len(),
            skip_spaces(s@, i as int) == skip_spaces(s@, j as int),
        decreases n - j,
    {
        if j == n {
            return j;
        }
        let c = s[j];
        if !(c == ' ' || c == '\t' || c == '\n' || c == '\r') {
            return j;
        }
        j += 1;
    }
}

/// Builds the `"key"` needle as characters.
fn build_quoted_key(key: &str) -> (r: Vec<char>)
    ensures
        r@ == quoted_key(key@),
{
    let mut r: Vec<char> = Vec::new();
    r.push('"');
    let mut ks = chars_of(key);
    r.append(&mut ks);
    r.push('"');
    proof {
        assert(r@ =~= quoted_key(key@));
    }
    r
}

/// Extracts a string value from flat JSON (`"key": "value"`), searching
/// from `from`.
fn extract_from(json: &str, key: &str, from: usize) -> (r: Option<String>)
    requires
        from <= json@.len(),
    ensures
        match r {
            Some(v) => extract_spec(json@, key@, from as int) == Some(v@),
            None => extract_spec(json@, key@, from as int) is None,
        },
{
    let s = chars_of(json);
    let needle = build_quoted_key(key);
    let i = match find_from(&s, &needle, from) {
        Some(i) => i,
        None => {
            return None;
        },
    };
    let n = s.len();
    let pos = i + needle.len();
    let p1 = skip_spaces_from(&s, pos);
    if p1 == n {
        return None;
    }
    if s[p1] != ':' {
        return None;
    }
    let p2 = skip_spaces_from(&s, p1 + 1);
    if p2 == n {
        return None;
    }
    if s[p2] != '"' {
        return None;
    }
    let mut quote: Vec<char> = Vec::new();
    quote.push('"');
    proof {
        assert(quote@ =~= seq!['"']);
    }
    match find_from(&s, &quote, p2 + 1) {
        Some(end) => {
            let v = json.substring_char(p2 + 1, end);
            Some(String::from_str(v))
        },
        None => None,
    }
}

/// Extracts a string value from flat JSON text: `"key": "value"`. A narrow
/// scanner for the fixed shape of the known release endpoint, not a
/// general JSON parser.
pub fn extract_json_string(json: &str, key: &str) -> (r: Option<String>)
    ensures
        match r {
            Some(v) => extract_spec(json@, key@, 0) == Some(v@),
            None => extract_spec(json@, key@, 0) is None,
        },
{
    extract_from(json, key, 0)
}

/// Finds the `browser_download_url` for the asset named `asset_name`: the
/// URL field is scanned from the asset's `name` field onwards.
pub fn find_asset_url(json: &str, asset_name: &str) -> (r: Option<String>)
    ensures
        match r {
            Some(v) => find_asset_url_spec(json@, asset_name@) == Some(v@),
            None => find_asset_url_spec(json@, asset_name@) is None,
        },
{
    let s = chars_of(json);
    let mut needle: Vec<char> = Vec::new();
    needle.push('"');
    needle.push('n');
    needle.push('a');
    needle.push('m');
    needle.push('e');
    needle.push('"');
    needle.push(':');
    needle.push(' ');
    needle.push('"');
    let mut name_chars = chars_of(asset_name);
    needle.append(&mut name_chars);
    needle.push('"');
    proof {
        assert(needle@ =~= asset_needle(asset_name@));
    }
    match find_from(&s, &needle, 0) {
        Some(i) => extract_from(json, "browser_download_url", i),
        None => None,
    }
}

/// Release metadata for one update-check cycle: the latest version tag and
/// the download URL of the platform's asset. Transient, produced and
/// consumed within a single cycle.
pub struct ReleaseInfo {
    pub version: String,
    pub download_url: String,
}

/// Parses the two fields the update protocol needs out of the release
/// endpoint's body: the `tag_name` value, and the `browser_download_url`
/// of the asset whose `name` equals `asset_name`. `None` exactly when
/// either field cannot be scanned.
pub fn parse_release_metadata(body: &str, asset_name: &str) -> (r: Option<ReleaseInfo>)
    ensures
        match r {
            Some(info) => extract_spec(body@, "tag_name"@, 0) == Some(info.version@)
                && find_asset_url_spec(body@, asset_name@) == Some(info.download_url@),
            None => extract_spec(body@, "tag_name"@, 0) is None || find_asset_url_spec(
                body@,
                asset_name@,
            ) is None,
        },
{
    let version = match extract_json_string(body, "tag_name") {
        Some(v) => v,
        None => {
            return None;
        },
    };
    let download_url = match find_asset_url(body, asset_name) {
        Some(u) => u,
        None => {
            return None;
        },
    };
    Some(ReleaseInfo { version, download_url })
}

/// What one update-check cycle decides to do next.
pub enum UpdateAction {
    /// The endpoint reports the running version: no download, no restart.
    UpToDate,
    /// A different version is available: download the asset at this URL.
    Download(String),
}

/// The update decision: exactly when the latest version string equals the
/// running one, nothing is downloaded and no restart happens; any other
/// version asks for its asset to be downloaded.
pub fn plan_update(current_version: &str, latest: &ReleaseInfo) -> (a: UpdateAction)
    ensures
        match a {
            UpdateAction::UpToDate => latest.version@ == current_version@,
            UpdateAction::Download(url) => latest.version@ != current_version@ && url@
                == latest.download_url@,
        },
{
    if str_eq(latest.version.as_str(), current_version) {
        UpdateAction::UpToDate
    } else {
        UpdateAction::Download(latest.download_url.clone())
    }
}

/// The update engine: remembers the running build's version and decides,
/// once per check interval, whether a fetched release replaces it.
pub struct Updater {
    pub current_version: String,
}

impl Updater {
    /// An updater for the given running version.
    pub fn new(current_version: &str) -> (u: Updater)
        ensures
            u.current_version@ == current_version@,
    {
        Updater { current_version: String::from_str(current_version) }
    }

    /// The decision for one check cycle, given the fetched release info.
    pub fn plan(&self, latest: &ReleaseInfo) -> (a: UpdateAction)
        ensures
            match a {
                UpdateAction::UpToDate => latest.version@ == self.current_version@,
                UpdateAction::Download(url) => latest.version@ != self.current_version@ && url@
                    == latest.download_url@,
            },
    {
        plan_update(self.current_version.as_str(), latest)
    }
}

/// The platform families the updater distinguishes.
#[derive(Clone, Copy, Debug)]
pub enum HostPlatform {
    Windows,
    MacOs,
    Linux,
}

/// The release-asset file name for the given platform family.
pub fn current_platform_binary(platform: HostPlatform) -> (r: &'static str)
    ensures
        match platform {
            HostPlatform::Windows => r@ == "rocas.exe"@,
            HostPlatform::MacOs => r@ == "rocas-macos"@,
            HostPlatform::Linux => r@ == "rocas-linux"@,
        },
{
    match platform {
        HostPlatform::Windows => "rocas.exe",
        HostPlatform::MacOs => "rocas-macos",
        HostPlatform::Linux => "rocas-linux",
    }
}

/// The deferred-cleanup script emitted on platforms where a running binary
/// cannot replace itself: it waits briefly, deletes the old executable at
/// the given path, then deletes itself.
pub fn cleanup_script_for(old_exe_path: &str) -> (r: String)
    ensures
        r@ == "@echo off\ntimeout /t 1 /nobreak > nul\ndel \""@ + old_exe_path@
            + "\"\ndel \"%~f0\"\n"@,
{
    String::from_str("@echo off\ntimeout /t 1 /nobreak > nul\ndel \"").concat(old_exe_path).concat(
        "\"\ndel \"%~f0\"\n",
    )
}

} // verus!
