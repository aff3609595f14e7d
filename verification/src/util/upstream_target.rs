//! Where requests are forwarded to.

use vstd::prelude::*;
use vstd::string::{StrSliceExecFns, StringExecFns};

use crate::http::ascii_lower;

verus! {

/// The parts of an absolute URL that a target is made of.
pub struct UrlParts {
    pub scheme: String,
    pub authority: String,
    pub path: String,
}

/// Whether a character does not occur in a text.
pub open spec fn free_of(text: Seq<char>, c: char) -> bool {
    forall|i: int| 0 <= i < text.len() ==> #[trigger] text[i] != c
}

/// A scheme that is written as it is read: no delimiter stands in it, and if it is one
/// of HTTP, it is in lower case.
pub open spec fn plain_scheme(scheme: Seq<char>) -> bool {
    &&& free_of(scheme, ':')
    &&& free_of(scheme, '/')
    &&& free_of(scheme, '?')
    &&& free_of(scheme, '#')
    &&& ascii_lower(scheme) == "http"@ || ascii_lower(scheme) == "https"@ ==> ascii_lower(scheme)
        == scheme
}

/// A plain scheme, and an authority that no query and no fragment starts in.
pub open spec fn plain_base(scheme: Seq<char>, authority: Seq<char>) -> bool {
    &&& plain_scheme(scheme)
    &&& free_of(authority, '?')
    &&& free_of(authority, '#')
}

/// A path and query without a fragment.
pub open spec fn plain_path_and_query(path_and_query: Seq<char>) -> bool {
    &&& path_and_query.len() > 0
    &&& path_and_query[0] == '/'
    &&& free_of(path_and_query, '#')
}

/// A text that is made of a plain scheme, an authority that ends at the first slash
/// behind the scheme, and a path and query without a fragment.
pub open spec fn plain_uri(
    text: Seq<char>,
    scheme: Seq<char>,
    authority: Seq<char>,
    path_and_query: Seq<char>,
) -> bool {
    &&& plain_base(scheme, authority)
    &&& free_of(authority, '/')
    &&& plain_path_and_query(path_and_query)
    &&& text == scheme + "://"@ + authority + path_and_query
}

/// The scheme, authority and path of an absolute URL, or the message that says why
/// the text is none.
pub uninterp spec fn url_parse(text: Seq<char>) -> Result<
    (Seq<char>, Seq<char>, Seq<char>),
    Seq<char>,
>;

/// `url::Url::parse`: the scheme, authority and path of the URL that it parses, as
/// `Url::scheme`, `Url::authority` and `Url::path` give them, or the text of its
/// error. All of it depends on the argument alone. The scheme is in lower case and
/// holds none of `:`, `/`, `?` and `#`, and neither the authority nor the path holds a
/// delimiter of a query or a fragment.
#[verifier::external_body]
fn parse_url_parts(text: &str) -> (parts: Result<UrlParts, String>)
    ensures
        match parts {
            Ok(p) => url_parse(text@) == Ok::<_, Seq<char>>((p.scheme@, p.authority@, p.path@)),
            Err(e) => url_parse(text@) == Err::<(Seq<char>, Seq<char>, Seq<char>), _>(e@),
        },
        parts matches Ok(p) ==> {
            &&& ascii_lower(p.scheme@) == p.scheme@
            &&& plain_base(p.scheme@, p.authority@)
            &&& free_of(p.path@, '?')
            &&& free_of(p.path@, '#')
        },
{
    match url::Url::parse(text) {
        Ok(url) => Ok(
            UrlParts {
                scheme: url.scheme().to_owned(),
                authority: url.authority().to_owned(),
                path: url.path().to_owned(),
            },
        ),
        Err(error) => Err(error.to_string()),
    }
}

/// The text of the URI that some text is parsed into, or the message that says why
/// it is no URI.
pub uninterp spec fn uri_parse(text: Seq<char>) -> Result<Seq<char>, Seq<char>>;

/// `http::Uri::try_from` a `String`: the text of the URI that it parses, as
/// `Uri::to_string` gives it, or the text of its error. Both depend on the argument
/// alone. A text that is made of a scheme, an authority and a path and query without a
/// fragment comes out as it went in, if it comes out, unless it starts with a scheme of
/// HTTP that is not in lower case.
#[verifier::external_body]
fn parse_uri(text: String) -> (uri: Result<String, String>)
    ensures
        match uri {
            Ok(u) => uri_parse(text@) == Ok::<_, Seq<char>>(u@),
            Err(e) => uri_parse(text@) == Err::<Seq<char>, _>(e@),
        },
        uri matches Ok(u) ==> (forall|scheme: Seq<char>, authority: Seq<char>, rest: Seq<char>|
            #[trigger] plain_uri(text@, scheme, authority, rest) ==> u@ == text@),
{
    match hyper::Uri::try_from(text) {
        Ok(uri) => Ok(uri.to_string()),
        Err(error) => Err(error.to_string()),
    }
}

/// Text without the slashes at its end.
pub open spec fn without_trailing_slashes(text: Seq<char>) -> Seq<char>
    decreases text.len(),
{
    if text.len() > 0 && text.last() == '/' {
        without_trailing_slashes(text.drop_last())
    } else {
        text
    }
}

/// Cutting slashes off the end of a text leaves a prefix of it.
proof fn trimming_keeps_prefix(text: Seq<char>)
    ensures
        without_trailing_slashes(text).len() <= text.len(),
        without_trailing_slashes(text) == text.take(without_trailing_slashes(text).len() as int),
    decreases text.len(),
{
    if text.len() > 0 && text.last() == '/' {
        let shorter = text.drop_last();
        trimming_keeps_prefix(shorter);
        let n = without_trailing_slashes(shorter).len() as int;
        assert(shorter.take(n) =~= text.take(n));
    } else {
        assert(text.take(text.len() as int) =~= text);
    }
}

/// Cuts the slashes off the end of a text.
pub fn trim_trailing_slashes(text: &str) -> (trimmed: &str)
    ensures
        trimmed@ == without_trailing_slashes(text@),
{
    let mut n: usize = text.unicode_len();
    assert(text@.take(n as int) =~= text@);
    while n > 0 && text.get_char(n - 1) == '/'
        invariant
            n <= text@.len(),
            without_trailing_slashes(text@) == without_trailing_slashes(text@.take(n as int)),
        decreases n,
    {
        assert(text@.take(n as int).drop_last() =~= text@.take(n - 1));
        n -= 1;
    }
    text.substring_char(0, n)
}

/// Why a URL or a request has no place upstream.
#[derive(Clone, Debug)]
pub enum UpstreamError {
    /// The upstream URL could not be parsed.
    InvalidUrl { message: String },
    /// The URI that a request would be forwarded to could not be parsed.
    InvalidUri { message: String },
}

impl UpstreamError {
    /// The message for the user.
    pub open spec fn message(self) -> Seq<char> {
        match self {
            UpstreamError::InvalidUrl { message } => message@,
            UpstreamError::InvalidUri { message } => message@,
        }
    }

    pub fn to_string(&self) -> (text: String)
        ensures
            text@ == self.message(),
    {
        match self {
            UpstreamError::InvalidUrl { message } => message.clone(),
            UpstreamError::InvalidUri { message } => message.clone(),
        }
    }
}

/// What a target stands for.
#[verifier::ext_equal]
pub struct TargetModel {
    /// Scheme and authority of every URI.
    pub scheme_authority: Seq<char>,
    /// What the path of every URI starts with.
    pub path: Seq<char>,
}

impl TargetModel {
    /// The target that the parts of a URL name.
    pub open spec fn of_parts(scheme: Seq<char>, authority: Seq<char>, path: Seq<char>) -> Self {
        TargetModel {
            scheme_authority: scheme + "://"@ + authority,
            path: without_trailing_slashes(path),
        }
    }

    /// A target with a plain scheme, in which no query and no fragment starts.
    pub open spec fn is_plain(self) -> bool {
        &&& exists|scheme: Seq<char>, authority: Seq<char>| #[trigger]
            plain_base(scheme, authority) && self.scheme_authority == scheme + "://"@ + authority
        &&& free_of(self.path, '?')
        &&& free_of(self.path, '#')
    }

    /// The URI, as text, of a request with a path and query. One without either
    /// asks for the root.
    pub open spec fn uri_text(self, path_and_query: Option<Seq<char>>) -> Seq<char> {
        self.scheme_authority + self.path + match path_and_query {
            Some(pq) => pq,
            None => "/"@,
        }
    }
}

/// The server that requests are forwarded to.
#[derive(Clone, Debug)]
pub struct UpstreamTarget {
    base_scheme_authority: String,
    base_path: String,
}

impl View for UpstreamTarget {
    type V = TargetModel;

    closed spec fn view(&self) -> TargetModel {
        TargetModel { scheme_authority: self.base_scheme_authority@, path: self.base_path@ }
    }
}

impl UpstreamTarget {
    /// The target that a URL names.
    pub fn parse_url(s: &str) -> (target: Result<UpstreamTarget, UpstreamError>)
        ensures
            match target {
                Ok(t) => url_parse(s@) matches Ok((scheme, authority, path)) && {
                    &&& t@ == TargetModel::of_parts(scheme, authority, path)
                    &&& t@.is_plain()
                },
                Err(e) => e is InvalidUrl && url_parse(s@) == Err::<
                    (Seq<char>, Seq<char>, Seq<char>),
                    _,
                >(e.message()),
            },
    {
        match parse_url_parts(s) {
            Ok(parts) => {
                proof {
                    trimming_keeps_prefix(parts.path@);
                }
                Ok(UpstreamTarget::from_parts(&parts))
            },
            Err(message) => Err(UpstreamError::InvalidUrl { message }),
        }
    }

    /// The target that the parts of a URL name. Slashes at the end of the path do
    /// not count.
    pub fn from_parts(parts: &UrlParts) -> (target: UpstreamTarget)
        ensures
            target@ == TargetModel::of_parts(parts.scheme@, parts.authority@, parts.path@),
    {
        let mut base_scheme_authority = parts.scheme.clone();
        base_scheme_authority.append("://");
        base_scheme_authority.append(parts.authority.as_str());
        let base_path = trim_trailing_slashes(parts.path.as_str()).to_owned();
        UpstreamTarget { base_scheme_authority, base_path }
    }

    /// The text of the URI that a request is forwarded to, before it is parsed.
    pub fn target_uri(&self, path_and_query: Option<&str>) -> (text: String)
        ensures
            text@ == self@.uri_text(
                match path_and_query {
                    Some(pq) => Some(pq@),
                    None => None,
                },
            ),
    {
        let incoming_path_query: &str = match path_and_query {
            Some(pq) => pq,
            None => "/",
        };
        let mut text = self.base_scheme_authority.clone();
        text.append(self.base_path.as_str());
        text.append(incoming_path_query);
        text
    }

    /// The URI that a request with a path and query is forwarded to. A path and query
    /// that came without a fragment arrive as they are, behind the path of the target.
    pub fn map_request(&self, path_and_query: Option<&str>) -> (uri: Result<
        String,
        UpstreamError,
    >)
        ensures
            ({
                let parsed = uri_parse(
                    self@.uri_text(
                        match path_and_query {
                            Some(pq) => Some(pq@),
                            None => None,
                        },
                    ),
                );
                match uri {
                    Ok(u) => parsed == Ok::<_, Seq<char>>(u@),
                    Err(e) => e is InvalidUri && parsed == Err::<Seq<char>, _>(e.message()),
                }
            }),
            path_and_query matches Some(pq) ==> (uri matches Ok(u) ==> (self@.is_plain()
                && plain_path_and_query(pq@) ==> u@ == self@.uri_text(Some(pq@)))),
            path_and_query is None ==> (uri matches Ok(u) ==> (self@.is_plain() ==> u@
                == self@.uri_text(None))),
    {
        proof {
            reveal_strlit("/");
            let pq = match path_and_query {
                Some(pq) => pq@,
                None => "/"@,
            };
            if self@.is_plain() && plain_path_and_query(pq) {
                target_text_is_plain(self@, pq);
            }
        }
        match parse_uri(self.target_uri(path_and_query)) {
            Ok(uri) => Ok(uri),
            Err(message) => Err(UpstreamError::InvalidUri { message }),
        }
    }
}

/// Where the first slash of a text is.
proof fn first_slash(text: Seq<char>, at: int) -> (first: int)
    requires
        0 <= at < text.len(),
        text[at] == '/',
    ensures
        0 <= first <= at,
        text[first] == '/',
        free_of(text.take(first), '/'),
    decreases at,
{
    if free_of(text.take(at), '/') {
        at
    } else {
        let before = text.take(at);
        let earlier = choose|i: int| 0 <= i < before.len() && #[trigger] before[i] == '/';
        first_slash(text, earlier)
    }
}

/// The text of a request to a plain target is made of a scheme, an authority and a path
/// and query. The authority ends at the first slash, be it of the target or of the
/// request.
proof fn target_text_is_plain(target: TargetModel, pq: Seq<char>)
    requires
        target.is_plain(),
        plain_path_and_query(pq),
    ensures
        exists|scheme: Seq<char>, authority: Seq<char>, rest: Seq<char>| #[trigger]
            plain_uri(target.scheme_authority + target.path + pq, scheme, authority, rest),
{
    let (scheme, base) = choose|scheme: Seq<char>, authority: Seq<char>| #[trigger]
        plain_base(scheme, authority) && target.scheme_authority == scheme + "://"@ + authority;
    let text = target.scheme_authority + target.path + pq;
    let tail = base + target.path + pq;
    let first = first_slash(tail, (base + target.path).len() as int);
    let authority = tail.take(first);
    let rest = tail.skip(first);
    assert(text =~= scheme + "://"@ + authority + rest);
    assert(plain_uri(text, scheme, authority, rest));
}

/// Text that slashes were cut off does not end in one.
pub proof fn law_no_trailing_slash(text: Seq<char>)
    ensures
        without_trailing_slashes(text).len() > 0 ==> without_trailing_slashes(text).last() != '/',
    decreases text.len(),
{
    if text.len() > 0 && text.last() == '/' {
        law_no_trailing_slash(text.drop_last());
    }
}

/// Slashes at the end of the path of an upstream URL make no difference.
pub proof fn law_trailing_slash_ignored(scheme: Seq<char>, authority: Seq<char>, path: Seq<char>)
    ensures
        TargetModel::of_parts(scheme, authority, path.push('/')) == TargetModel::of_parts(
            scheme,
            authority,
            path,
        ),
{
    assert(path.push('/').drop_last() =~= path);
}

/// The path and query of a request come out unchanged at the end of the URI it is
/// forwarded to, and a target without a path of its own adds nothing to them.
pub proof fn law_request_path_preserved(target: TargetModel, pq: Seq<char>)
    ensures
        ({
            let text = target.uri_text(Some(pq));
            let base = (target.scheme_authority + target.path).len() as int;
            &&& text.skip(base) == pq
            &&& text.take(base) == target.scheme_authority + target.path
            &&& target.path.len() == 0 ==> text == target.scheme_authority + pq
        }),
{
    let text = target.uri_text(Some(pq));
    let base = (target.scheme_authority + target.path).len() as int;
    assert(text.skip(base) =~= pq);
    assert(text.take(base) =~= target.scheme_authority + target.path);
    if target.path.len() == 0 {
        assert(text =~= target.scheme_authority + pq);
    }
}

/// Nothing but slashes is cut, and only from the end: what is left is a prefix, and
/// every character behind it is a slash. A text that is empty or does not end in a slash
/// is left as it is.
pub proof fn law_only_slashes_are_cut(text: Seq<char>)
    ensures
        ({
            let left = without_trailing_slashes(text);
            &&& left.len() <= text.len()
            &&& left == text.take(left.len() as int)
            &&& forall|i: int| left.len() <= i < text.len() ==> #[trigger] text[i] == '/'
            &&& text.len() == 0 || text.last() != '/' ==> left == text
        }),
    decreases text.len(),
{
    trimming_keeps_prefix(text);
    if text.len() > 0 && text.last() == '/' {
        let shorter = text.drop_last();
        law_only_slashes_are_cut(shorter);
        let left = without_trailing_slashes(text);
        assert forall|i: int| left.len() <= i < text.len() implies #[trigger] text[i] == '/' by {
            if i < shorter.len() {
                assert(shorter[i] == '/');
            }
        }
    }
}

/// A target keeps the scheme and the authority of its URL as they are, with `://`
/// between them, and all of the path but the slashes at its end.
pub proof fn law_target_keeps_its_url(scheme: Seq<char>, authority: Seq<char>, path: Seq<char>)
    ensures
        ({
            let target = TargetModel::of_parts(scheme, authority, path);
            let left = target.path.len() as int;
            &&& target.scheme_authority == scheme + seq![':', '/', '/'] + authority
            &&& left <= path.len()
            &&& target.path == path.take(left)
            &&& left > 0 ==> path[left - 1] != '/'
            &&& forall|i: int| left <= i < path.len() ==> #[trigger] path[i] == '/'
        }),
{
    reveal_strlit("://");
    law_only_slashes_are_cut(path);
    law_no_trailing_slash(path);
    assert("://"@ =~= seq![':', '/', '/']);
}

/// A request without a path and query asks for what one for the root does.
pub proof fn law_no_path_is_the_root(target: TargetModel)
    ensures
        target.uri_text(None) == target.uri_text(Some(seq!['/'])),
{
    reveal_strlit("/");
    assert("/"@ =~= seq!['/']);
}

/// Requests to the same target with different paths and queries go to different places.
pub proof fn law_requests_stay_apart(target: TargetModel, x: Seq<char>, y: Seq<char>)
    requires
        target.uri_text(Some(x)) == target.uri_text(Some(y)),
    ensures
        x == y,
{
    law_request_path_preserved(target, x);
    law_request_path_preserved(target, y);
}

/// The target of a URL is plain if the scheme is in lower case and without delimiters,
/// and no query and no fragment starts in authority and path. A path and query are plain
/// exactly if they start with a slash and hold no fragment.
pub proof fn law_plain(
    scheme: Seq<char>,
    authority: Seq<char>,
    path: Seq<char>,
    path_and_query: Seq<char>,
)
    requires
        forall|i: int|
            0 <= i < scheme.len() ==> {
                let c = #[trigger] scheme[i];
                !('A' <= c <= 'Z') && c != ':' && c != '/' && c != '?' && c != '#'
            },
        forall|i: int|
            0 <= i < authority.len() ==> #[trigger] authority[i] != '?' && authority[i] != '#',
        forall|i: int| 0 <= i < path.len() ==> #[trigger] path[i] != '?' && path[i] != '#',
    ensures
        TargetModel::of_parts(scheme, authority, path).is_plain(),
        plain_path_and_query(path_and_query) <==> {
            &&& path_and_query.len() > 0
            &&& path_and_query[0] == '/'
            &&& forall|i: int|
                0 <= i < path_and_query.len() ==> #[trigger] path_and_query[i] != '#'
        },
{
    assert(ascii_lower(scheme) =~= scheme);
    assert(plain_base(scheme, authority));
    law_only_slashes_are_cut(path);
}

/// What an error says is its message.
pub proof fn law_error_says_its_message(message: String)
    ensures
        (UpstreamError::InvalidUrl { message }).message() == message@,
        (UpstreamError::InvalidUri { message }).message() == message@,
{
}

} // verus!
