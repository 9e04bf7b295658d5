//! Connection settings for one AdGuard Home instance: where its admin
//! interface lives, the Basic credentials, and how `/control/...` routes are
//! joined onto the base URL.

use vstd::prelude::*;
use vstd::string::*;
use vstd::utf8::{encode_utf8, encode_utf8_decode_utf8};

use crate::base64::{base64, base64_encode, lemma_base64_injective};

verus! {

/// `s` without any trailing `/` characters.
pub open spec fn trim_end_slashes(s: Seq<char>) -> Seq<char>
    decreases s.len(),
{
    if s.len() > 0 && s.last() == '/' {
        trim_end_slashes(s.drop_last())
    } else {
        s
    }
}

/// `s` without any leading `/` characters.
pub open spec fn trim_start_slashes(s: Seq<char>) -> Seq<char>
    decreases s.len(),
{
    if s.len() > 0 && s.first() == '/' {
        trim_start_slashes(s.drop_first())
    } else {
        s
    }
}

/// Every character of `s` is a `/`.
pub open spec fn all_slashes(s: Seq<char>) -> bool {
    forall|i: int| 0 <= i < s.len() ==> s[i] == '/'
}

/// The URL of the API route `path` on the instance at `base_url`: the base
/// URL without trailing slashes, then `/control/`, then the route without
/// leading slashes.
pub open spec fn control_url_of(base_url: Seq<char>, path: Seq<char>) -> Seq<char> {
    trim_end_slashes(base_url) + "/control/"@ + trim_start_slashes(path)
}

/// The value of the `authorization` header: `Basic ` and the base64 of the
/// UTF-8 bytes of `username:password`.
pub open spec fn basic_auth_value(username: Seq<char>, password: Seq<char>) -> Seq<char> {
    "Basic "@ + base64(encode_utf8(username + ":"@ + password))
}

/// Trimming trailing slashes keeps a prefix, drops only slashes, and leaves
/// no slash at the end.
pub proof fn lemma_trim_end_slashes(s: Seq<char>)
    ensures
        trim_end_slashes(s).len() <= s.len(),
        trim_end_slashes(s) == s.take(trim_end_slashes(s).len() as int),
        all_slashes(s.skip(trim_end_slashes(s).len() as int)),
        trim_end_slashes(s).len() == 0 || trim_end_slashes(s).last() != '/',
    decreases s.len(),
{
    if s.len() > 0 && s.last() == '/' {
        lemma_trim_end_slashes(s.drop_last());
        let t = trim_end_slashes(s);
        assert(s.drop_last().take(t.len() as int) =~= s.take(t.len() as int));
        assert forall|i: int| 0 <= i < s.skip(t.len() as int).len() implies s.skip(
            t.len() as int,
        )[i] == '/' by {
            if t.len() + i < s.len() - 1 {
                assert(s.drop_last().skip(t.len() as int)[i] == '/');
            }
        }
    } else {
        assert(s.take(s.len() as int) =~= s);
    }
}

/// Trimming leading slashes keeps a suffix, drops only slashes, and leaves no
/// slash at the start.
pub proof fn lemma_trim_start_slashes(s: Seq<char>)
    ensures
        trim_start_slashes(s).len() <= s.len(),
        trim_start_slashes(s) == s.skip(s.len() - trim_start_slashes(s).len()),
        all_slashes(s.take(s.len() - trim_start_slashes(s).len())),
        trim_start_slashes(s).len() == 0 || trim_start_slashes(s).first() != '/',
    decreases s.len(),
{
    if s.len() > 0 && s.first() == '/' {
        lemma_trim_start_slashes(s.drop_first());
        let t = trim_start_slashes(s);
        let k = s.len() - t.len();
        assert(s.drop_first().skip(k - 1) =~= s.skip(k));
        assert forall|i: int| 0 <= i < s.take(k).len() implies s.take(k)[i] == '/' by {
            if i > 0 {
                assert(s.drop_first().take(k - 1)[i - 1] == '/');
            }
        }
    } else {
        assert(s.skip(0) =~= s);
    }
}

/// Extra slashes at the seam do not change the URL: a trailing `/` on the
/// base URL and a leading `/` on the route are both absorbed.
pub proof fn lemma_control_url_ignores_seam_slashes(base_url: Seq<char>, path: Seq<char>)
    ensures
        control_url_of(base_url.push('/'), path) == control_url_of(base_url, path),
        control_url_of(base_url, seq!['/'] + path) == control_url_of(base_url, path),
{
    assert(base_url.push('/').drop_last() =~= base_url);
    assert((seq!['/'] + path).drop_first() =~= path);
}

/// The credentials can be read back from the header value: two credential
/// pairs that give the same header give the same `username:password` text.
pub proof fn lemma_basic_auth_value_injective(
    username1: Seq<char>,
    password1: Seq<char>,
    username2: Seq<char>,
    password2: Seq<char>,
)
    requires
        basic_auth_value(username1, password1) == basic_auth_value(username2, password2),
    ensures
        username1 + ":"@ + password1 == username2 + ":"@ + password2,
{
    let prefix = "Basic "@;
    let c1 = username1 + ":"@ + password1;
    let c2 = username2 + ":"@ + password2;
    assert(basic_auth_value(username1, password1).skip(prefix.len() as int) =~= base64(
        encode_utf8(c1),
    ));
    assert(basic_auth_value(username2, password2).skip(prefix.len() as int) =~= base64(
        encode_utf8(c2),
    ));
    lemma_base64_injective(encode_utf8(c1), encode_utf8(c2));
    encode_utf8_decode_utf8(c1);
    encode_utf8_decode_utf8(c2);
}

/// Shape of the joined URL: the whole base URL less only its trailing
/// slashes (`k` characters kept, the last of them not a slash), then
/// `/control/`, then the whole route less only its leading slashes (`m`
/// characters dropped, the next one not a slash).
pub proof fn lemma_control_url_shape(base_url: Seq<char>, path: Seq<char>)
    ensures
        exists|k: int, m: int|
            {
                &&& 0 <= k <= base_url.len()
                &&& 0 <= m <= path.len()
                &&& forall|i: int| k <= i < base_url.len() ==> base_url[i] == '/'
                &&& k == 0 || base_url[k - 1] != '/'
                &&& forall|i: int| 0 <= i < m ==> path[i] == '/'
                &&& m == path.len() || path[m] != '/'
                &&& control_url_of(base_url, path) == base_url.take(k) + "/control/"@ + path.skip(
                    m,
                )
            },
{
    lemma_trim_end_slashes(base_url);
    lemma_trim_start_slashes(path);
    let t = trim_end_slashes(base_url);
    let u = trim_start_slashes(path);
    let k = t.len() as int;
    let m = path.len() - u.len();
    assert forall|i: int| k <= i < base_url.len() implies base_url[i] == '/' by {
        assert(base_url.skip(k)[i - k] == '/');
    }
    assert forall|i: int| 0 <= i < m implies path[i] == '/' by {
        assert(path.take(m)[i] == '/');
    }
    if k > 0 {
        assert(base_url[k - 1] == t.last());
    }
    if m < path.len() {
        assert(path[m] == u.first());
    }
    assert(control_url_of(base_url, path) == base_url.take(k) + "/control/"@ + path.skip(m));
}

/// `s` without its trailing slashes.
pub fn trim_trailing_slashes(s: &str) -> (r: &str)
    ensures
        r@ == trim_end_slashes(s@),
{
    let n = s.unicode_len();
    let mut end = n;
    assert(s@.take(n as int) =~= s@);
    while end > 0 && s.get_char(end - 1) == '/'
        invariant
            end <= n,
            n == s@.len(),
            trim_end_slashes(s@.take(end as int)) == trim_end_slashes(s@),
        decreases end,
    {
        assert(s@.take(end as int).drop_last() =~= s@.take(end - 1));
        end = end - 1;
    }
    s.substring_char(0, end)
}

/// `s` without its leading slashes.
pub fn trim_leading_slashes(s: &str) -> (r: &str)
    ensures
        r@ == trim_start_slashes(s@),
{
    let n = s.unicode_len();
    let mut start: usize = 0;
    assert(s@.subrange(0, n as int) =~= s@);
    while start < n && s.get_char(start) == '/'
        invariant
            start <= n,
            n == s@.len(),
            trim_start_slashes(s@.subrange(start as int, n as int)) == trim_start_slashes(s@),
        decreases n - start,
    {
        assert(s@.subrange(start as int, n as int).drop_first() =~= s@.subrange(
            start + 1,
            n as int,
        ));
        start = start + 1;
    }
    s.substring_char(start, n)
}

/// Connection settings for one AdGuard Home admin interface.
#[derive(Debug, Clone)]
pub struct Config {
    /// Base URL of the AdGuard admin interface (e.g. `http://host:80`). The
    /// `/control/...` API path is joined onto this.
    pub base_url: String,
    pub username: String,
    pub password: String,
    /// Skip TLS verification (self-signed homelab certs on an https front-end).
    pub insecure: bool,
}

impl Config {
    /// Settings for `base_url` with the given credentials; TLS is verified.
    pub fn new(base_url: &str, username: &str, password: &str) -> (cfg: Self)
        ensures
            cfg.base_url@ == base_url@,
            cfg.username@ == username@,
            cfg.password@ == password@,
            !cfg.insecure,
    {
        Config {
            base_url: String::from_str(base_url),
            username: String::from_str(username),
            password: String::from_str(password),
            insecure: false,
        }
    }

    /// The same settings with TLS verification skipped when `on` holds.
    pub fn insecure(self, on: bool) -> (cfg: Self)
        ensures
            cfg.base_url == self.base_url,
            cfg.username == self.username,
            cfg.password == self.password,
            cfg.insecure == on,
    {
        let mut cfg = self;
        cfg.insecure = on;
        cfg
    }

    /// `Basic <base64(user:pass)>`: AdGuard Home's admin auth scheme.
    pub fn auth_header_value(&self) -> (value: String)
        ensures
            value@ == basic_auth_value(self.username@, self.password@),
            value@ == "Basic "@ + base64(encode_utf8(self.username@ + ":"@ + self.password@)),
    {
        let mut raw = String::from_str(self.username.as_str());
        raw.append(":");
        raw.append(self.password.as_str());
        let encoded = base64_encode(raw.as_str().as_bytes());
        let mut value = String::from_str("Basic ");
        value.append(encoded.as_str());
        value
    }

    /// Joins a `/control/<path>` API route onto the base URL.
    pub fn control_url(&self, path: &str) -> (url: String)
        ensures
            url@ == control_url_of(self.base_url@, path@),
    {
        let mut url = String::from_str(trim_trailing_slashes(self.base_url.as_str()));
        url.append("/control/");
        url.append(trim_leading_slashes(path));
        url
    }
}

} // verus!
