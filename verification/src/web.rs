//! Web-facing data types and helpers: the dashboard's chat request shape,
//! HTML escaping for rendered pages, and the web tools' configuration.
//! The HTTP handlers and the outbound fetches live with the outer shell.

use vstd::prelude::*;
use crate::text::{chars_of, chars_eq, lower_of, lowercase, own_str, starts_with_chars, str_eq};
use crate::msg::view_opt_str;
use crate::json::is_digit;

verus! {

/// A chat request arriving over the dashboard API.
#[derive(Debug, Clone)]
pub struct ChatRequest {
    pub message: String,
    pub session_id: Option<String>,
}

/// Optional knobs riding along with a chat request.
#[derive(Debug, Clone)]
pub struct ChatParams {
    pub stream: bool,
}

/// A web-search tool backed by a search API key.
#[derive(Debug, Clone)]
pub struct WebSearchTool {
    pub api_key: String,
    pub max_results: usize,
}

impl WebSearchTool {
    pub fn new(api_key: String, max_results: usize) -> (r: WebSearchTool)
        ensures
            r.api_key@ == api_key@,
            r.max_results == max_results,
    {
        WebSearchTool { api_key, max_results }
    }
}

/// A page-fetching tool with a response-size cap.
#[derive(Debug, Clone)]
pub struct WebFetchTool {
    pub max_length: usize,
}

impl WebFetchTool {
    pub fn new(max_length: usize) -> (r: WebFetchTool)
        ensures
            r.max_length == max_length,
    {
        WebFetchTool { max_length }
    }
}

/// A search backend keyed by an API token.
#[derive(Debug, Clone)]
pub struct BraveSearchProvider {
    pub api_key: String,
}

impl BraveSearchProvider {
    pub fn new(api_key: String) -> (r: BraveSearchProvider)
        ensures
            r.api_key@ == api_key@,
    {
        BraveSearchProvider { api_key }
    }
}

/// A search backend that needs no key.
#[derive(Debug, Clone)]
pub struct DuckDuckGoSearchProvider {}

/// How one character is written into HTML text.
pub open spec fn html_escape_char(c: char) -> Seq<char> {
    if c == '&' {
        "&amp;"@
    } else if c == '<' {
        "&lt;"@
    } else if c == '>' {
        "&gt;"@
    } else if c == '"' {
        "&quot;"@
    } else if c == '\'' {
        "&#39;"@
    } else {
        seq![c]
    }
}

pub open spec fn html_escaped(s: Seq<char>) -> Seq<char>
    decreases s.len(),
{
    if s.len() == 0 {
        Seq::<char>::empty()
    } else {
        html_escaped(s.drop_last()) + html_escape_char(s.last())
    }
}

/// Escape HTML special characters to prevent script injection.
#[verifier::loop_isolation(false)]
pub fn html_escape(s: &str) -> (r: String)
    ensures
        r@ == html_escaped(s@),
{
    let sv = chars_of(s);
    let mut out: Vec<char> = Vec::new();
    let mut k: usize = 0;
    proof {
        assert(sv@.subrange(0, 0) =~= Seq::<char>::empty());
        assert(out@ =~= html_escaped(sv@.subrange(0, 0)));
    }
    while k < sv.len()
        invariant
            k <= sv@.len(),
            sv@ == s@,
            out@ == html_escaped(s@.subrange(0, k as int)),
        decreases sv@.len() - k,
    {
        let c = sv[k];
        let ghost prev = out@;
        if c == '&' {
            crate::text::extend_chars(&mut out, "&amp;");
        } else if c == '<' {
            crate::text::extend_chars(&mut out, "&lt;");
        } else if c == '>' {
            crate::text::extend_chars(&mut out, "&gt;");
        } else if c == '"' {
            crate::text::extend_chars(&mut out, "&quot;");
        } else if c == '\'' {
            crate::text::extend_chars(&mut out, "&#39;");
        } else {
            out.push(c);
        }
        proof {
            let b = s@.subrange(0, (k + 1) as int);
            assert(b.drop_last() =~= s@.subrange(0, k as int));
            assert(b.last() == s@[k as int]);
            assert(out@ =~= prev + html_escape_char(s@[k as int]));
        }
        k += 1;
    }
    proof {
        assert(s@.subrange(0, s@.len() as int) =~= s@);
    }
    crate::text::string_from_chars(&out)
}


// ---------------------------------------------------------------------------
// Server-side request forgery protection
// ---------------------------------------------------------------------------

/// The scheme and host a URL parses to, if it parses; depends on the text
/// alone.
pub uninterp spec fn url_parts_of(s: Seq<char>) -> Option<(Seq<char>, Option<Seq<char>>)>;

/// Relies on url::Url::parse (with Url::scheme and Url::host_str) for
/// splitting a URL into its scheme and host.
#[verifier::external_body]
fn parse_url_parts(s: &str) -> (r: Option<(String, Option<String>)>)
    ensures
        (r matches Some(p) ==> url_parts_of(s@) == Some((p.0@, view_opt_str(p.1)))),
        (r is None ==> url_parts_of(s@) is None),
{
    match url::Url::parse(s) {
        Ok(u) => Some((u.scheme().to_string(), u.host_str().map(|h| h.to_string()))),
        Err(_) => None,
    }
}

/// The value of a dotted-quad octet: one to three digits, at most 255,
/// with no leading zero (except `0` itself).
pub open spec fn octet_val(s: Seq<char>) -> Option<u8> {
    if 1 <= s.len() <= 3 && (forall|i: int| 0 <= i < s.len() ==> is_digit(#[trigger] s[i])) && !(
    s.len() > 1 && s[0] == '0') {
        let v = crate::json::dec_val(s);
        if v <= 255 {
            Some(v as u8)
        } else {
            None
        }
    } else {
        None
    }
}

/// A dotted-quad IPv4 host, as its four octets.
pub open spec fn ipv4_of(s: Seq<char>) -> Option<(u8, u8, u8, u8)> {
    let dots = Seq::new(s.len(), |i: int| s[i] == '.');
    if exists|a: int, b: int, c: int|
        0 < a < b < c < s.len() && s[a] == '.' && s[b] == '.' && s[c] == '.' && (forall|i: int|
            0 <= i < s.len() && s[i] == '.' ==> i == a || i == b || i == c) {
        let a = choose|a: int, b: int, c: int|
            0 < a < b < c < s.len() && s[a] == '.' && s[b] == '.' && s[c] == '.' && (forall|i: int|
                0 <= i < s.len() && s[i] == '.' ==> i == a || i == b || i == c);
        ipv4_from_dots(s, a.0, a.1, a.2)
    } else {
        None
    }
}

pub open spec fn ipv4_from_dots(s: Seq<char>, a: int, b: int, c: int) -> Option<(u8, u8, u8, u8)> {
    match (octet_val(s.subrange(0, a)), octet_val(s.subrange(a + 1, b)), octet_val(
        s.subrange(b + 1, c),
    ), octet_val(s.subrange(c + 1, s.len() as int))) {
        (Some(o1), Some(o2), Some(o3), Some(o4)) => Some((o1, o2, o3, o4)),
        _ => None,
    }
}

/// A private, loopback, link-local or otherwise reserved IPv4 address.
pub open spec fn v4_private(o: (u8, u8, u8, u8)) -> bool {
    ||| o.0 == 127
    ||| o.0 == 10
    ||| (o.0 == 172 && 16 <= o.1 <= 31)
    ||| (o.0 == 192 && o.1 == 168)
    ||| (o.0 == 169 && o.1 == 254)
    ||| (o.0 == 255 && o.1 == 255 && o.2 == 255 && o.3 == 255)
    ||| (o.0 == 0 && o.1 == 0 && o.2 == 0 && o.3 == 0)
    ||| (o.0 == 100 && 64 <= o.1 <= 127)
}

pub open spec fn ends_with(s: Seq<char>, p: Seq<char>) -> bool {
    p.len() <= s.len() && s.subrange(s.len() - p.len(), s.len() as int) == p
}

/// A bracketed IPv6 host that is loopback, unspecified, link-local or
/// unique-local, judged by its textual prefix.
pub open spec fn v6_private_text(h: Seq<char>) -> bool {
    ||| h == "[::1]"@
    ||| h == "[::]"@
    ||| (h.len() >= 5 && h.subrange(0, 5) == "[fe80"@)
    ||| (h.len() >= 5 && h.subrange(0, 5) == "[fc00"@)
    ||| (h.len() >= 5 && h.subrange(0, 5) == "[fd00"@)
}

/// Why a URL is refused before any request is made, if it is: bad or
/// non-web URLs, internal hostnames, private or reserved addresses, and
/// obfuscated numeric hosts.
pub open spec fn ssrf_spec(u: Seq<char>) -> Option<Seq<char>> {
    match url_parts_of(u) {
        None => Some("invalid URL"@),
        Some((scheme, host)) => {
            if scheme != "http"@ && scheme != "https"@ {
                Some("only http/https schemes allowed"@)
            } else {
                match host {
                    None => Some("URL has no host"@),
                    Some(h) => {
                        let lh = lower_of(h);
                        if lh == "localhost"@ || lh == "metadata.google.internal"@ || ends_with(
                            lh,
                            ".internal"@,
                        ) || ends_with(lh, ".local"@) {
                            Some("internal/private hostname blocked"@)
                        } else if (match ipv4_of(h) {
                            Some(o) => v4_private(o),
                            None => false,
                        }) || v6_private_text(lower_of(h)) {
                            Some("private/reserved IP address blocked"@)
                        } else if (h.len() >= 2 && h.subrange(0, 2) == "0x"@) || (h.len() > 0
                            && forall|i: int| 0 <= i < h.len() ==> is_digit(#[trigger] h[i])) {
                            Some("numeric IP encoding blocked"@)
                        } else {
                            None
                        }
                    },
                }
            }
        },
    }
}

/// Check a URL against the request-forgery rules: `Ok` admits it, `Err`
/// carries the refusal.
pub fn validate_url_ssrf(u: &str) -> (r: Result<(), String>)
    ensures
        (r matches Err(e) ==> ssrf_spec(u@) == Some(e@)),
        (r matches Ok(x) ==> ssrf_spec(u@) is None),
{
    let parts = match parse_url_parts(u) {
        Some(p) => p,
        None => {
            return Err(own_str("invalid URL"));
        },
    };
    let scheme = parts.0;
    if !(str_eq(scheme.as_str(), "http") || str_eq(scheme.as_str(), "https")) {
        return Err(own_str("only http/https schemes allowed"));
    }
    let host = match parts.1 {
        Some(h) => h,
        None => {
            return Err(own_str("URL has no host"));
        },
    };
    let lower = lowercase(host.as_str());
    let lv = chars_of(lower.as_str());
    if str_eq(lower.as_str(), "localhost") || str_eq(lower.as_str(), "metadata.google.internal")
        || exec_ends_with(&lv, ".internal") || exec_ends_with(&lv, ".local") {
        return Err(own_str("internal/private hostname blocked"));
    }
    let hv = chars_of(host.as_str());
    let v4_hit = match exec_ipv4(&hv) {
        Some(o) => exec_v4_private(o),
        None => false,
    };
    let v6_hit = exec_v6_private(&lv);
    if v4_hit || v6_hit {
        return Err(own_str("private/reserved IP address blocked"));
    }
    let hex_prefix = hv.len() >= 2 && hv[0] == '0' && hv[1] == 'x';
    proof {
        reveal_strlit("0x");
        if hex_prefix {
            assert(host@.subrange(0, 2) =~= "0x"@);
        } else if hv@.len() >= 2 {
            assert(host@.subrange(0, 2)[0] == host@[0]);
            assert(host@.subrange(0, 2)[1] == host@[1]);
        }
    }
    if hex_prefix {
        return Err(own_str("numeric IP encoding blocked"));
    }
    let mut all_digits = hv.len() > 0;
    let mut k: usize = 0;
    while k < hv.len()
        invariant
            k <= hv@.len(),
            hv@ == host@,
            all_digits == (hv@.len() > 0 && forall|i: int|
                0 <= i < k ==> is_digit(#[trigger] host@[i])),
        decreases hv@.len() - k,
    {
        let c = hv[k];
        let cp = c as u32;
        let d = 48 <= cp && cp <= 57;
        all_digits = all_digits && d;
        k += 1;
    }
    if all_digits {
        return Err(own_str("numeric IP encoding blocked"));
    }
    Ok(())
}

fn exec_ends_with(v: &Vec<char>, suffix: &str) -> (r: bool)
    ensures
        r == ends_with(v@, suffix@),
{
    let sv = chars_of(suffix);
    if sv.len() > v.len() {
        return false;
    }
    let tail = crate::json::copy_range(v, v.len() - sv.len(), v.len());
    chars_eq(&tail, &sv)
}

fn exec_v6_private(lv: &Vec<char>) -> (r: bool)
    ensures
        r == v6_private_text(lv@),
{
    proof {
        reveal_strlit("[fe80");
        reveal_strlit("[fc00");
        reveal_strlit("[fd00");
        assert("[fe80"@.len() == 5);
        assert("[fc00"@.len() == 5);
        assert("[fd00"@.len() == 5);
    }
    let a = chars_of("[::1]");
    let b = chars_of("[::]");
    let c = chars_of("[fe80");
    let d = chars_of("[fc00");
    let e = chars_of("[fd00");
    chars_eq(lv, &a) || chars_eq(lv, &b) || starts_with_chars(lv, &c) || starts_with_chars(lv, &d)
        || starts_with_chars(lv, &e)
}

fn exec_v4_private(o: (u8, u8, u8, u8)) -> (r: bool)
    ensures
        r == v4_private(o),
{
    o.0 == 127 || o.0 == 10 || (o.0 == 172 && 16 <= o.1 && o.1 <= 31) || (o.0 == 192 && o.1
        == 168) || (o.0 == 169 && o.1 == 254) || (o.0 == 255 && o.1 == 255 && o.2 == 255 && o.3
        == 255) || (o.0 == 0 && o.1 == 0 && o.2 == 0 && o.3 == 0) || (o.0 == 100 && 64 <= o.1
        && o.1 <= 127)
}

/// Parse a dotted-quad IPv4 host.
#[verifier::loop_isolation(false)]
fn exec_ipv4(hv: &Vec<char>) -> (r: Option<(u8, u8, u8, u8)>)
    ensures
        r == ipv4_of(hv@),
{
    // find the dot positions; exactly three must exist
    let mut dots: Vec<usize> = Vec::new();
    let mut k: usize = 0;
    while k < hv.len()
        invariant
            k <= hv@.len(),
            dots@.len() <= 3,
            forall|i: int|
                0 <= i < dots@.len() ==> #[trigger] dots@[i] < k && hv@[dots@[i] as int] == '.',
            forall|i: int, j: int| 0 <= i < j < dots@.len() ==> dots@[i] < dots@[j],
            forall|i: int|
                0 <= i < k && hv@[i] == '.' ==> exists|n: int|
                    0 <= n < dots@.len() && #[trigger] dots@[n] == i,
        decreases hv@.len() - k,
    {
        if hv[k] == '.' {
            if dots.len() >= 3 {
                // a fourth dot: not a dotted quad
                proof {
                    lemma_no_quad_extra_dot(hv@, dots@, k as int);
                }
                return None;
            }
            let ghost prev = dots@;
            dots.push(k);
            proof {
                assert(dots@[prev.len() as int] == k);
                assert forall|i: int|
                    0 <= i < k + 1 && hv@[i] == '.' implies exists|n: int|
                    0 <= n < dots@.len() && #[trigger] dots@[n] == i by {
                    if i == k {
                        assert(dots@[prev.len() as int] as int == i);
                    } else {
                        let n = choose|n: int| 0 <= n < prev.len() && #[trigger] prev[n] == i;
                        assert(dots@[n] == i);
                    }
                }
            }
        }
        k += 1;
    }
    if dots.len() != 3 {
        proof {
            lemma_no_quad_missing_dots(hv@, dots@);
        }
        return None;
    }
    let a = dots[0];
    let b = dots[1];
    let c = dots[2];
    if !(0 < a && a < b && b < c && c < hv.len()) {
        proof {
            lemma_no_quad_bad_shape(hv@, dots@);
        }
        return None;
    }
    proof {
        lemma_quad_dots(hv@, dots@);
    }
    let o1 = exec_octet(&crate::json::copy_range(hv, 0, a));
    let o2 = exec_octet(&crate::json::copy_range(hv, a + 1, b));
    let o3 = exec_octet(&crate::json::copy_range(hv, b + 1, c));
    let o4 = exec_octet(&crate::json::copy_range(hv, c + 1, hv.len()));
    match (o1, o2, o3, o4) {
        (Some(x1), Some(x2), Some(x3), Some(x4)) => Some((x1, x2, x3, x4)),
        _ => None,
    }
}

/// With the three recorded dots and a fourth dot found, the host cannot
/// be a dotted quad: any witness triple would miss one of the dots.
proof fn lemma_no_quad_extra_dot(s: Seq<char>, dots: Seq<usize>, extra: int)
    requires
        dots.len() == 3,
        forall|i: int| 0 <= i < dots.len() ==> hvdot(s, #[trigger] dots[i] as int),
        forall|i: int, j: int| 0 <= i < j < dots.len() ==> dots[i] < dots[j],
        forall|i: int| 0 <= i < dots.len() ==> (#[trigger] dots[i]) < extra,
        0 <= extra < s.len(),
        s[extra] == '.',
    ensures
        ipv4_of(s) is None,
{
    if exists|a: int, b: int, c: int|
        0 < a < b < c < s.len() && s[a] == '.' && s[b] == '.' && s[c] == '.' && (forall|i: int|
            0 <= i < s.len() && s[i] == '.' ==> i == a || i == b || i == c) {
        let w = choose|a: int, b: int, c: int|
            0 < a < b < c < s.len() && s[a] == '.' && s[b] == '.' && s[c] == '.' && (forall|i: int|
                0 <= i < s.len() && s[i] == '.' ==> i == a || i == b || i == c);
        // the witness admits only three dot positions, but the three
        // recorded dots and the extra one are four distinct positions
        assert(dots[0] as int == w.0 || dots[0] as int == w.1 || dots[0] as int == w.2);
        assert(dots[1] as int == w.0 || dots[1] as int == w.1 || dots[1] as int == w.2);
        assert(dots[2] as int == w.0 || dots[2] as int == w.1 || dots[2] as int == w.2);
        assert(extra == w.0 || extra == w.1 || extra == w.2);
        assert(false);
    }
}

pub open spec fn hvdot(s: Seq<char>, i: int) -> bool {
    0 <= i < s.len() && s[i] == '.'
}

/// With fewer than three dots in the whole host, no witness triple
/// exists.
proof fn lemma_no_quad_missing_dots(s: Seq<char>, dots: Seq<usize>)
    requires
        dots.len() != 3,
        dots.len() <= 3,
        forall|i: int| 0 <= i < dots.len() ==> hvdot(s, #[trigger] dots[i] as int),
        forall|i: int, j: int| 0 <= i < j < dots.len() ==> dots[i] < dots[j],
        forall|i: int|
            0 <= i < s.len() && s[i] == '.' ==> exists|n: int|
                0 <= n < dots.len() && #[trigger] dots[n] as int == i,
    ensures
        ipv4_of(s) is None,
{
    if exists|a: int, b: int, c: int|
        0 < a < b < c < s.len() && s[a] == '.' && s[b] == '.' && s[c] == '.' && (forall|i: int|
            0 <= i < s.len() && s[i] == '.' ==> i == a || i == b || i == c) {
        let w = choose|a: int, b: int, c: int|
            0 < a < b < c < s.len() && s[a] == '.' && s[b] == '.' && s[c] == '.' && (forall|i: int|
                0 <= i < s.len() && s[i] == '.' ==> i == a || i == b || i == c);
        // three distinct dot positions exist, so three entries were
        // recorded
        assert(exists|n: int| 0 <= n < dots.len() && #[trigger] dots[n] as int == w.0);
        assert(exists|n: int| 0 <= n < dots.len() && #[trigger] dots[n] as int == w.1);
        assert(exists|n: int| 0 <= n < dots.len() && #[trigger] dots[n] as int == w.2);
        let n0 = choose|n: int| 0 <= n < dots.len() && #[trigger] dots[n] as int == w.0;
        let n1 = choose|n: int| 0 <= n < dots.len() && #[trigger] dots[n] as int == w.1;
        let n2 = choose|n: int| 0 <= n < dots.len() && #[trigger] dots[n] as int == w.2;
        assert(n0 != n1 && n1 != n2 && n0 != n2);
        assert(dots.len() >= 3);
        assert(false);
    }
}

/// The recorded dots are every dot of the host; if their shape is not a
/// quad's, no witness triple exists.
proof fn lemma_no_quad_bad_shape(s: Seq<char>, dots: Seq<usize>)
    requires
        dots.len() == 3,
        forall|i: int| 0 <= i < dots.len() ==> hvdot(s, #[trigger] dots[i] as int),
        forall|i: int, j: int| 0 <= i < j < dots.len() ==> dots[i] < dots[j],
        forall|i: int|
            0 <= i < s.len() && s[i] == '.' ==> exists|n: int|
                0 <= n < dots.len() && #[trigger] dots[n] as int == i,
        !(0 < dots[0] && dots[0] < dots[1] && dots[1] < dots[2] && (dots[2] as int) < s.len()),
    ensures
        ipv4_of(s) is None,
{
    assert(dots[0] == 0);
    if exists|a: int, b: int, c: int|
        0 < a < b < c < s.len() && s[a] == '.' && s[b] == '.' && s[c] == '.' && (forall|i: int|
            0 <= i < s.len() && s[i] == '.' ==> i == a || i == b || i == c) {
        let w = choose|a: int, b: int, c: int|
            0 < a < b < c < s.len() && s[a] == '.' && s[b] == '.' && s[c] == '.' && (forall|i: int|
                0 <= i < s.len() && s[i] == '.' ==> i == a || i == b || i == c);
        assert(exists|n: int| 0 <= n < dots.len() && #[trigger] dots[n] as int == w.0);
        let n0 = choose|n: int| 0 <= n < dots.len() && #[trigger] dots[n] as int == w.0;
        assert(false);
    }
}

/// With exactly the three recorded dots, the ghost parse picks them.
proof fn lemma_quad_dots(s: Seq<char>, dots: Seq<usize>)
    requires
        dots.len() == 3,
        forall|i: int| 0 <= i < dots.len() ==> hvdot(s, #[trigger] dots[i] as int),
        forall|i: int, j: int| 0 <= i < j < dots.len() ==> dots[i] < dots[j],
        forall|i: int|
            0 <= i < s.len() && s[i] == '.' ==> exists|n: int|
                0 <= n < dots.len() && #[trigger] dots[n] as int == i,
        0 < dots[0] && dots[0] < dots[1] && dots[1] < dots[2] && (dots[2] as int) < s.len(),
    ensures
        ipv4_of(s) == ipv4_from_dots(s, dots[0] as int, dots[1] as int, dots[2] as int),
{
    let a0 = dots[0] as int;
    let b0 = dots[1] as int;
    let c0 = dots[2] as int;
    assert forall|i: int| 0 <= i < s.len() && s[i] == '.' implies i == a0 || i == b0 || i
        == c0 by {
        let n = choose|n: int| 0 <= n < dots.len() && #[trigger] dots[n] as int == i;
        assert(n == 0 || n == 1 || n == 2);
    }
    assert(0 < a0 < b0 < c0 < s.len() && s[a0] == '.' && s[b0] == '.' && s[c0] == '.' && (
    forall|i: int| 0 <= i < s.len() && s[i] == '.' ==> i == a0 || i == b0 || i == c0));
    let w = choose|a: int, b: int, c: int|
        0 < a < b < c < s.len() && s[a] == '.' && s[b] == '.' && s[c] == '.' && (forall|i: int|
            0 <= i < s.len() && s[i] == '.' ==> i == a || i == b || i == c);
    // any two witness triples agree: both list exactly the dot positions
    assert(w.0 == a0 && w.1 == b0 && w.2 == c0) by {
        assert(w.0 == a0 || w.0 == b0 || w.0 == c0);
        assert(w.1 == a0 || w.1 == b0 || w.1 == c0);
        assert(w.2 == a0 || w.2 == b0 || w.2 == c0);
        assert(a0 == w.0 || a0 == w.1 || a0 == w.2);
        assert(b0 == w.0 || b0 == w.1 || b0 == w.2);
        assert(c0 == w.0 || c0 == w.1 || c0 == w.2);
    }
}

/// The value of one octet's text.
fn exec_octet(v: &Vec<char>) -> (r: Option<u8>)
    ensures
        r == octet_val(v@),
{
    let n = v.len();
    if n < 1 || n > 3 {
        return None;
    }
    if n > 1 && v[0] == '0' {
        return None;
    }
    let mut val: u32 = 0;
    let mut k: usize = 0;
    while k < n
        invariant
            n == v@.len(),
            n <= 3,
            k <= n,
            forall|i: int| 0 <= i < k ==> is_digit(#[trigger] v@[i]),
            val == crate::json::dec_val(v@.subrange(0, k as int)),
            k == 0 ==> val == 0,
            k == 1 ==> val <= 9,
            k == 2 ==> val <= 99,
            k == 3 ==> val <= 999,
        decreases n - k,
    {
        let c = v[k];
        let cp = c as u32;
        if !(48 <= cp && cp <= 57) {
            return None;
        }
        proof {
            let b = v@.subrange(0, (k + 1) as int);
            assert(b.drop_last() =~= v@.subrange(0, k as int));
            assert(b.last() == v@[k as int]);
        }
        val = val * 10 + (c as u32 - 48);
        k += 1;
    }
    proof {
        assert(v@.subrange(0, n as int) =~= v@);
    }
    if val <= 255 {
        Some(val as u8)
    } else {
        None
    }
}

} // verus!
