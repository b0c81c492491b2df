//! Shared state of the panel: the available update and the tray icon id.
use vstd::prelude::*;

use crate::paths::opt_view;

verus! {

/// An available update surfaced to the panel banner.
pub struct UpdateInfo {
    pub version: String,
    /// Release notes (shown as text, never rendered as HTML).
    pub notes: Option<String>,
    pub url: String,
}

/// Whether a version text is a plain version string: ASCII letters and
/// digits, `.`, `-` and `+` only.
pub open spec fn plain_version(v: Seq<char>) -> bool {
    forall|i: int|
        0 <= i < v.len() ==> {
            let c = #[trigger] v[i];
            ('a' <= c && c <= 'z') || ('A' <= c && c <= 'Z') || ('0' <= c && c <= '9') || c
                == '.' || c == '-' || c == '+'
        }
}

/// The release page the banner links to: the version's own tag when the
/// version is a plain version string (the update feed is not trusted to
/// hold one), else the latest release.
pub open spec fn release_url_spec(v: Seq<char>) -> Seq<char> {
    if plain_version(v) {
        "https://github.com/jordan-temim/cctide/releases/tag/v"@ + v
    } else {
        "https://github.com/jordan-temim/cctide/releases/latest"@
    }
}

fn is_plain_char(c: char) -> (b: bool)
    ensures
        b == (('a' <= c && c <= 'z') || ('A' <= c && c <= 'Z') || ('0' <= c && c <= '9') || c
            == '.' || c == '-' || c == '+'),
{
    ('a' <= c && c <= 'z') || ('A' <= c && c <= 'Z') || ('0' <= c && c <= '9') || c == '.' || c
        == '-' || c == '+'
}

/// The release page for an available version.
pub fn release_url(version: &str) -> (r: String)
    ensures
        r@ == release_url_spec(version@),
{
    let cs = crate::text::chars_of(version);
    let mut k: usize = 0;
    while k < cs.len()
        invariant
            k <= cs@.len(),
            cs@ == version@,
            forall|i: int| 0 <= i < k ==> {
                let c = #[trigger] cs@[i];
                ('a' <= c && c <= 'z') || ('A' <= c && c <= 'Z') || ('0' <= c && c <= '9') || c
                    == '.' || c == '-' || c == '+'
            },
        decreases cs@.len() - k,
    {
        if !is_plain_char(cs[k]) {
            assert(!plain_version(version@)) by {
                assert(version@[k as int] == cs@[k as int]);
            }
            return String::from_str("https://github.com/jordan-temim/cctide/releases/latest");
        }
        k = k + 1;
    }
    assert(plain_version(version@));
    String::from_str("https://github.com/jordan-temim/cctide/releases/tag/v").concat(version)
}

/// What the banner shows for a version found by the update check.
pub fn update_info(version: &str, notes: Option<String>) -> (r: UpdateInfo)
    ensures
        r.version@ == version@,
        opt_view(r.notes) == opt_view(notes),
        r.url@ == release_url_spec(version@),
{
    UpdateInfo { version: String::from_str(version), notes, url: release_url(version) }
}

} // verus!
