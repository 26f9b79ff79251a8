//! Turning what the user typed in the address bar into the URL to load.
use vstd::prelude::*;
use vstd::utf8::encode_utf8;
use crate::text::{contains_char, has_prefix, is_blank, starts_with_str, str_eq, trim_str, trimmed};

verus! {

/// A parsed URL, read as its scheme and its serialization.
pub struct ParsedUrl {
    pub scheme: String,
    pub href: String,
}

/// What `url::Url::parse` gives for `input`: `None` when it fails, else the
/// parsed URL's scheme (`Url::scheme`) and serialization (`Url::as_str`, which
/// is also what `to_string` prints).
pub uninterp spec fn url_parse_outcome(input: Seq<char>) -> Option<(Seq<char>, Seq<char>)>;

/// The scheme and serialization of an optional parsed URL.
pub open spec fn parsed_view(p: Option<ParsedUrl>) -> Option<(Seq<char>, Seq<char>)> {
    match p {
        Some(u) => Some((u.scheme@, u.href@)),
        None => None,
    }
}

/// `url::Url::parse`, with the result read as scheme and serialization.
#[verifier::external_body]
fn parse_url(input: &str) -> (r: Option<ParsedUrl>)
    ensures
        parsed_view(r) == url_parse_outcome(input@),
{
    match url::Url::parse(input) {
        Ok(u) => Some(ParsedUrl { scheme: u.scheme().to_string(), href: u.as_str().to_string() }),
        Err(_) => None,
    }
}

/// A byte that percent-encoding keeps as it is: ASCII letters and digits and `-._~`.
pub open spec fn is_unreserved_byte(b: u8) -> bool {
    ||| 48 <= b <= 57
    ||| 65 <= b <= 90
    ||| 97 <= b <= 122
    ||| b == 45
    ||| b == 46
    ||| b == 95
    ||| b == 126
}

/// The uppercase hexadecimal digit for `d < 16`.
pub open spec fn hex_digit(d: u8) -> char {
    if d < 10 {
        (48 + d) as char
    } else {
        (55 + d) as char
    }
}

/// Percent-encoding of a byte string: unreserved bytes stay, every other
/// byte becomes `%` and two uppercase hexadecimal digits.
pub open spec fn percent_encode(bytes: Seq<u8>) -> Seq<char>
    decreases bytes.len(),
{
    if bytes.len() == 0 {
        Seq::empty()
    } else {
        let b = bytes[0];
        (if is_unreserved_byte(b) {
            seq![b as char]
        } else {
            seq!['%', hex_digit(b >> 4), hex_digit(b & 15)]
        }) + percent_encode(bytes.drop_first())
    }
}

/// `urlencoding::encode`: the percent-encoding of the UTF-8 bytes of `s`.
#[verifier::external_body]
fn url_encode(s: &str) -> (r: String)
    ensures
        r@ == percent_encode(encode_utf8(s@)),
{
    urlencoding::encode(s).into_owned()
}

/// A scheme that the browser loads directly.
pub open spec fn is_web_scheme(s: Seq<char>) -> bool {
    s == "http"@ || s == "https"@ || s == "file"@
}

/// Input that looks like a host name: no space, and a dot or a `localhost` prefix.
pub open spec fn looks_like_host(t: Seq<char>) -> bool {
    !t.contains(' ') && (t.contains('.') || has_prefix(t, "localhost"@))
}

/// The page loaded for empty input.
pub open spec fn home_url() -> Seq<char> {
    "https://www.google.com"@
}

/// The search URL for a query.
pub open spec fn search_url(t: Seq<char>) -> Seq<char> {
    "https://www.google.com/search?q="@ + percent_encode(encode_utf8(t))
}

/// The URL for the trimmed input `t`, given how `t` parsed (`direct`) and how
/// `https://` followed by `t` parsed (`prefixed`).
pub open spec fn target_spec(
    t: Seq<char>,
    direct: Option<(Seq<char>, Seq<char>)>,
    prefixed: Option<(Seq<char>, Seq<char>)>,
) -> Seq<char> {
    if t.len() == 0 {
        home_url()
    } else {
        match (direct, prefixed) {
            (Some((scheme, href)), _) if is_web_scheme(scheme) => href,
            (_, Some((_, href))) if looks_like_host(t) => href,
            _ => search_url(t),
        }
    }
}

/// What `parse_input_to_url` returns for `input`.
pub open spec fn input_target(input: Seq<char>) -> Seq<char> {
    let t = trimmed(input);
    target_spec(t, url_parse_outcome(t), url_parse_outcome("https://"@ + t))
}

/// Address-bar input handling.
pub struct NavigationManager;

impl NavigationManager {
    /// Parses address-bar input into the URL to load: a URL with an http,
    /// https or file scheme is taken as it is; something that looks like a
    /// host (`github.com`, `reddit.com/r/rust`, `localhost:3000`) gets
    /// `https://`; anything else becomes a Google search. Empty input opens
    /// the Google home page.
    pub fn parse_input_to_url(input: &str) -> (r: String)
        ensures
            r@ == input_target(input@),
    {
        let trimmed_input = trim_str(input);
        let t = trimmed_input.as_str();
        if t.is_empty() {
            return String::from_str("https://www.google.com");
        }
        let direct = parse_url(t);
        let mut prefixed_input = String::from_str("https://");
        prefixed_input.append(t);
        let prefixed = if Self::looks_like_host(t) {
            parse_url(prefixed_input.as_str())
        } else {
            None
        };
        let ghost p = url_parse_outcome("https://"@ + t@);
        assert(looks_like_host(t@) ==> parsed_view(prefixed) == p);
        Self::target_from_parses(t, direct, prefixed)
    }

    /// Whether input looks like a host name.
    fn looks_like_host(t: &str) -> (r: bool)
        ensures
            r == looks_like_host(t@),
    {
        !contains_char(t, ' ') && (contains_char(t, '.') || starts_with_str(t, "localhost"))
    }

    /// Whether a scheme is loaded directly.
    fn is_web_scheme(s: &str) -> (r: bool)
        ensures
            r == is_web_scheme(s@),
    {
        str_eq(s, "http") || str_eq(s, "https") || str_eq(s, "file")
    }

    /// The URL for already-trimmed input `t`, given how `t` parsed and how
    /// `https://` followed by `t` parsed (the latter is only looked at when
    /// `t` looks like a host).
    pub fn target_from_parses(t: &str, direct: Option<ParsedUrl>, prefixed: Option<ParsedUrl>) -> (r:
        String)
        ensures
            r@ == target_spec(t@, parsed_view(direct), parsed_view(prefixed)),
    {
        if t.is_empty() {
            return String::from_str("https://www.google.com");
        }
        match direct {
            Some(u) => {
                if Self::is_web_scheme(u.scheme.as_str()) {
                    return u.href;
                }
            },
            None => {},
        }
        if Self::looks_like_host(t) {
            match prefixed {
                Some(u) => {
                    return u.href;
                },
                None => {},
            }
        }
        let mut r = String::from_str("https://www.google.com/search?q=");
        let encoded = url_encode(t);
        r.append(encoded.as_str());
        r
    }
}


/// Percent-encoded text holds no space.
proof fn lemma_percent_encode_no_space(bytes: Seq<u8>)
    ensures
        !percent_encode(bytes).contains(' '),
    decreases bytes.len(),
{
    if bytes.len() > 0 {
        let b = bytes[0];
        lemma_percent_encode_no_space(bytes.drop_first());
        let head = if is_unreserved_byte(b) {
            seq![b as char]
        } else {
            seq!['%', hex_digit(b >> 4), hex_digit(b & 15)]
        };
        assert((b >> 4) < 16 && (b & 15) < 16) by (bit_vector);
        assert(!head.contains(' ')) by {
            if is_unreserved_byte(b) {
                assert((b as char) as u32 == b as u32);
                assert(head[0] != ' ');
            } else {
                assert(head[1] != ' ');
                assert(head[2] != ' ');
            }
        }
        let r = percent_encode(bytes);
        assert(r =~= head + percent_encode(bytes.drop_first()));
        assert forall|i: int| 0 <= i < r.len() implies r[i] != ' ' by {
            if i < head.len() {
                assert(r[i] == head[i]);
            } else {
                assert(r[i] == percent_encode(bytes.drop_first())[i - head.len()]);
            }
        }
    }
}

/// Blank input opens the home page.
pub proof fn law_blank_input_opens_home(input: Seq<char>)
    requires
        is_blank(input),
    ensures
        input_target(input) == home_url(),
{
}

/// Input that parses as an http, https or file URL is loaded as that URL.
pub proof fn law_web_url_loaded_directly(input: Seq<char>, scheme: Seq<char>, href: Seq<char>)
    requires
        !is_blank(input),
        url_parse_outcome(trimmed(input)) == Some((scheme, href)),
        is_web_scheme(scheme),
    ensures
        input_target(input) == href,
{
}

/// Input that neither parses as a web URL nor looks like a host becomes a
/// search whose query holds no space.
pub proof fn law_search_query_has_no_space(input: Seq<char>)
    requires
        !is_blank(input),
        !looks_like_host(trimmed(input)),
        match url_parse_outcome(trimmed(input)) {
            Some((scheme, _)) => !is_web_scheme(scheme),
            None => true,
        },
    ensures
        input_target(input) == search_url(trimmed(input)),
        !percent_encode(encode_utf8(trimmed(input))).contains(' '),
{
    lemma_percent_encode_no_space(encode_utf8(trimmed(input)));
}

/// Input that, trimmed, parses as a URL with the scheme `http`, `https` or
/// `file` is loaded as that URL's serialization.
pub proof fn law_http_https_file_load_directly(input: Seq<char>, scheme: Seq<char>, href: Seq<char>)
    requires
        !is_blank(input),
        url_parse_outcome(trimmed(input)) == Some((scheme, href)),
        scheme == "http"@ || scheme == "https"@ || scheme == "file"@,
    ensures
        input_target(input) == href,
{
}

} // verus!
