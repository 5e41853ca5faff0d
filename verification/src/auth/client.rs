//! OAuth clients and their redirect URIs.

use crate::text;
use crate::urls;
use crate::urls::UrlParts;
use vstd::prelude::*;
use vstd::slice::slice_subrange;

verus! {

/// The built-in command-line client, which is always known.
pub const LOCALDB_CLI_CLIENT_ID: &'static str = "localdb-cli";

/// The redirect of a login without a browser: the code is shown for copying.
pub const OOB_REDIRECT_URI: &'static str = "urn:ietf:wg:oauth:2.0:oob";

/// At most this many redirect URIs per registration.
pub const MAX_REGISTRATION_REDIRECT_URIS: usize = 5;

/// At most this many characters per redirect URI.
pub const MAX_REGISTRATION_REDIRECT_URI_LEN: usize = 2048;

/// At most this many characters of a client's name.
pub const MAX_REGISTRATION_CLIENT_NAME_LEN: usize = 256;

/// The grant types that the server supports.
pub const SUPPORTED_GRANT_TYPES: [&'static str; 2] = ["authorization_code", "refresh_token"];

/// The response types that the server supports.
pub const SUPPORTED_RESPONSE_TYPES: [&'static str; 1] = ["code"];

/// Whether a client is known without being registered.
pub fn is_known_client(client_id: &str) -> (r: bool)
    ensures
        r == (client_id@ == "localdb-cli"@),
{
    text::str_eq(client_id, LOCALDB_CLI_CLIENT_ID)
}

/// `host:port` of an authority: `127.0.0.1` or `localhost`, and a port of digits.
pub open spec fn is_loopback_authority(a: Seq<char>) -> bool {
    let c = text::find_from(a, ':', 0);
    &&& c < a.len()
    &&& (a.take(c) == "127.0.0.1"@ || a.take(c) == "localhost"@)
    &&& c + 1 < a.len()
    &&& text::all_digits(a.skip(c + 1))
}

/// `http://127.0.0.1:<port>` or `http://localhost:<port>`, followed by any path or none.
pub open spec fn is_loopback(uri: Seq<char>) -> bool {
    text::starts_with(uri, "http://"@) && {
        let rest = uri.skip(7);
        is_loopback_authority(rest.take(text::find_from(rest, '/', 0)))
    }
}

/// Whether a redirect goes back to this machine.
pub fn is_loopback_redirect(redirect_uri: &str) -> (r: bool)
    ensures
        r == is_loopback(redirect_uri@),
{
    let v = text::chars_of(redirect_uri);
    let s = v.as_slice();
    if !text::has_prefix(s, "http://") {
        return false;
    }
    proof {
        reveal_strlit("http://");
    }
    let rest = slice_subrange(s, 7, s.len());
    assert(rest@ =~= redirect_uri@.skip(7));
    let slash = text::find_char_from(rest, '/', 0);
    let a = slice_subrange(rest, 0, slash);
    assert(a@ =~= rest@.take(slash as int));
    let c = text::find_char_from(a, ':', 0);
    if c >= a.len() {
        return false;
    }
    let host = slice_subrange(a, 0, c);
    assert(host@ =~= a@.take(c as int));
    if !text::chars_eq(host, "127.0.0.1") && !text::chars_eq(host, "localhost") {
        return false;
    }
    let port = slice_subrange(a, c + 1, a.len());
    assert(port@ =~= a@.skip(c + 1));
    if port.len() == 0 {
        return false;
    }
    text::is_all_digits(port)
}

/// Whether the built-in client may use a redirect: any loopback port, or none at all. No
/// other client has one here.
pub fn validate_redirect_uri(client_id: &str, redirect_uri: &str) -> (r: bool)
    ensures
        r == (client_id@ == "localdb-cli"@ && (redirect_uri@ == "urn:ietf:wg:oauth:2.0:oob"@
            || is_loopback(redirect_uri@))),
{
    if !text::str_eq(client_id, LOCALDB_CLI_CLIENT_ID) {
        return false;
    }
    text::str_eq(redirect_uri, OOB_REDIRECT_URI) || is_loopback_redirect(redirect_uri)
}

/// Whether a redirect URI may be registered, given how it parses as a URL: an `https` URL
/// with a host, or a loopback redirect.
pub open spec fn may_register(uri: Seq<char>, parts: Option<urls::PartsView>) -> bool {
    if text::starts_with(uri, "https://"@) {
        uri.len() > 8 && (parts matches Some(p) && p.scheme == "https"@ && p.has_host)
    } else {
        is_loopback(uri)
    }
}

/// Whether a redirect URI may be registered, given how it parses as a URL.
pub fn redirect_uri_registrable(redirect_uri: &str, parts: &Option<UrlParts>) -> (r: bool)
    ensures
        r == may_register(redirect_uri@, urls::parts_view(*parts)),
{
    if text::str_has_prefix(redirect_uri, "https://") {
        let n: usize = text::char_count(redirect_uri);
        if n <= 8 {
            return false;
        }
        match parts {
            Some(p) => text::str_eq(p.scheme.as_str(), "https") && p.has_host,
            None => false,
        }
    } else {
        is_loopback_redirect(redirect_uri)
    }
}

/// Whether a redirect URI may be registered by a client: an `https` URL with a host, or a
/// loopback redirect. Custom schemes may not.
pub fn validate_registration_redirect_uri(redirect_uri: &str) -> (r: bool)
    ensures
        r == may_register(redirect_uri@, urls::url_parts(redirect_uri@)),
{
    let parts = urls::parse_url(redirect_uri);
    redirect_uri_registrable(redirect_uri, &parts)
}

/// Whether redirect URIs stay within the limits of a registration.
pub open spec fn uris_within_bounds(uris: Seq<String>) -> bool {
    uris.len() <= 5 && forall|i: int|
        0 <= i < uris.len() ==> (#[trigger] uris[i])@.len() <= 2048
}

/// Whether redirect URIs stay within the limits of a registration, by number and length.
pub fn registration_redirect_uris_within_bounds(redirect_uris: &[String]) -> (r: bool)
    ensures
        r == uris_within_bounds(redirect_uris@),
{
    if redirect_uris.len() > MAX_REGISTRATION_REDIRECT_URIS {
        return false;
    }
    let mut i: usize = 0;
    while i < redirect_uris.len()
        invariant
            i <= redirect_uris.len(),
            forall|j: int| 0 <= j < i ==> (#[trigger] redirect_uris@[j])@.len() <= 2048,
        decreases redirect_uris.len() - i,
    {
        if text::char_count(redirect_uris[i].as_str()) > MAX_REGISTRATION_REDIRECT_URI_LEN {
            assert(redirect_uris@[i as int]@.len() > 2048);
            return false;
        }
        i += 1;
    }
    true
}

/// Whether a client's name, if it has one, stays within the limit of a registration.
pub fn registration_client_name_within_bounds(client_name: Option<&str>) -> (r: bool)
    ensures
        r == (client_name matches Some(n) ==> n@.len() <= 256),
{
    match client_name {
        Some(n) => text::char_count(n) <= MAX_REGISTRATION_CLIENT_NAME_LEN,
        None => true,
    }
}

} // verus!
