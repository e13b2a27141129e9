//! The configuration of the programs around the decoder.
//!
//! The decoder itself takes no configuration. The location of the database
//! holds a password, so it is masked before it is shown.

use vstd::prelude::*;
use vstd::slice::slice_subrange;
use vstd::utf8::encode_utf8;

verus! {

/// Where the readings go and where the bytes come from.
///
/// This value is made once and handed to whichever part needs it.
#[derive(Clone, Debug, PartialEq, Eq)]
pub struct Settings {
    /// The location of the database.
    pub database_url: String,
    /// The path of the serial device.
    pub serial_path: String,
}

/// The regular expression that finds the location of a database in a text.
/// Its capture groups are numbered by their opening parenthesis: the user is
/// group 1, the password group 3, the host group 4, the port group 6 and the
/// name of the database group 7.
pub const DATABASE_URL_PATTERN: &'static str =
    r"postgres://(?P<user>[^:@]+)(:(?P<password>[^:@]+))?@(?P<host>[^:@/]+)(:(?P<port>\d+))?/(?P<dbname>[^:@/]+)";

/// The capture groups that the `regex` crate finds for `pattern` in
/// `haystack`: `None` if the pattern does not compile or matches nowhere,
/// and otherwise, for the leftmost match, the byte span of each group that
/// took part in it, group 0 being the whole match.
pub uninterp spec fn regex_captures(pattern: Seq<char>, haystack: Seq<char>) -> Option<
    Seq<Option<(int, int)>>,
>;

/// The model of a list of spans.
pub open spec fn spans(v: Seq<Option<(usize, usize)>>) -> Seq<Option<(int, int)>> {
    Seq::new(
        v.len(),
        |i: int|
            match v[i] {
                Some((a, b)) => Some((a as int, b as int)),
                None => None,
            },
    )
}

/// The model of what a search gave: the spans of a match, or nothing.
pub open spec fn spans_view(found: Option<Vec<Option<(usize, usize)>>>) -> Option<
    Seq<Option<(int, int)>>,
> {
    match found {
        Some(v) => Some(spans(v@)),
        None => None,
    }
}

/// Compiles `pattern` with `regex::Regex::new`, searches `haystack` with
/// `Regex::captures`, and hands out the start and end of each capture group.
///
/// Nothing is proved of what the crate matches. The contract only names the
/// result: it is what the crate returns for this pattern and this haystack.
#[verifier::external_body]
fn find_captures(pattern: &str, haystack: &str) -> (r: Option<Vec<Option<(usize, usize)>>>)
    ensures
        spans_view(r) == regex_captures(pattern@, haystack@),
{
    let re = regex::Regex::new(pattern).ok()?;
    let captures = re.captures(haystack)?;
    Some(captures.iter().map(|group| group.map(|m| (m.start(), m.end()))).collect())
}

/// The span of group `i`, if the group took part in the match and its span
/// lies within a text of `len` bytes.
pub open spec fn span_of(groups: Seq<Option<(int, int)>>, i: int, len: int) -> Option<(int, int)> {
    if 0 <= i < groups.len() {
        match groups[i] {
            Some((a, b)) => if 0 <= a <= b <= len {
                Some((a, b))
            } else {
                None
            },
            None => None,
        }
    } else {
        None
    }
}

/// The text `postgres://`.
pub open spec fn scheme() -> Seq<u8> {
    seq![
        'p' as u8,
        'o' as u8,
        's' as u8,
        't' as u8,
        'g' as u8,
        'r' as u8,
        'e' as u8,
        's' as u8,
        ':' as u8,
        '/' as u8,
        '/' as u8,
    ]
}

/// The location that stands for a match without its password: the scheme,
/// the user, `@`, the host, the port after a `:` if there is one, `/` and
/// the name of the database.
pub open spec fn without_password(
    url: Seq<u8>,
    user: (int, int),
    host: (int, int),
    port: Option<(int, int)>,
    dbname: (int, int),
) -> Seq<u8> {
    scheme() + url.subrange(user.0, user.1) + seq!['@' as u8] + url.subrange(host.0, host.1)
        + (match port {
        Some(p) => seq![':' as u8] + url.subrange(p.0, p.1),
        None => Seq::empty(),
    }) + seq!['/' as u8] + url.subrange(dbname.0, dbname.1)
}

/// `url` with the first database location in it replaced by the same
/// location without its password. What precedes and follows the match
/// stays. Without a match, or if the spans of the match, the user, the host
/// or the name of the database do not lie within `url`, `url` stays as it
/// is.
pub open spec fn masked(url: Seq<u8>, captures: Option<Seq<Option<(int, int)>>>) -> Seq<u8> {
    match captures {
        None => url,
        Some(groups) => {
            let len = url.len() as int;
            match (
                span_of(groups, 0, len),
                span_of(groups, 1, len),
                span_of(groups, 4, len),
                span_of(groups, 7, len),
            ) {
                (Some(whole), Some(user), Some(host), Some(dbname)) => url.take(whole.0)
                    + without_password(url, user, host, span_of(groups, 6, len), dbname)
                    + url.skip(whole.1),
                _ => url,
            }
        },
    }
}

/// The span of group `i`, if it lies within a text of `len` bytes.
fn span(groups: &Vec<Option<(usize, usize)>>, i: usize, len: usize) -> (r: Option<(usize, usize)>)
    ensures
        match r {
            Some((a, b)) => span_of(spans(groups@), i as int, len as int) == Some(
                (a as int, b as int),
            ),
            None => span_of(spans(groups@), i as int, len as int) is None,
        },
{
    if i < groups.len() {
        match groups[i] {
            Some((a, b)) => if a <= b && b <= len {
                Some((a, b))
            } else {
                None
            },
            None => None,
        }
    } else {
        None
    }
}

/// Replaces the database location that `captures` describes in `url` by the
/// same location without its password.
pub fn mask_with(url: &[u8], captures: &Option<Vec<Option<(usize, usize)>>>) -> (r: Vec<u8>)
    ensures
        r@ == masked(url@, spans_view(*captures)),
{
    let len: usize = url.len();
    let groups = match captures {
        Some(groups) => groups,
        None => {
            return vstd::slice::slice_to_vec(url);
        },
    };
    match (span(groups, 0, len), span(groups, 1, len), span(groups, 4, len), span(groups, 7, len)) {
        (Some(whole), Some(user), Some(host), Some(dbname)) => {
            let mut out: Vec<u8> = Vec::new();
            out.extend_from_slice(slice_subrange(url, 0, whole.0));
            out.extend_from_slice(
                &[
                    'p' as u8,
                    'o' as u8,
                    's' as u8,
                    't' as u8,
                    'g' as u8,
                    'r' as u8,
                    'e' as u8,
                    's' as u8,
                    ':' as u8,
                    '/' as u8,
                    '/' as u8,
                ],
            );
            out.extend_from_slice(slice_subrange(url, user.0, user.1));
            out.push('@' as u8);
            out.extend_from_slice(slice_subrange(url, host.0, host.1));
            match span(groups, 6, len) {
                Some(port) => {
                    out.push(':' as u8);
                    out.extend_from_slice(slice_subrange(url, port.0, port.1));
                },
                None => {},
            }
            out.push('/' as u8);
            out.extend_from_slice(slice_subrange(url, dbname.0, dbname.1));
            out.extend_from_slice(slice_subrange(url, whole.1, len));
            assert(out@ =~= masked(url@, spans_view(*captures)));
            out
        },
        _ => vstd::slice::slice_to_vec(url),
    }
}

impl Settings {
    /// The location of the database with its password left out, to be shown
    /// or logged.
    pub fn masked_database_url(&self) -> (r: Vec<u8>)
        ensures
            r@ == masked(
                encode_utf8(self.database_url@),
                regex_captures(DATABASE_URL_PATTERN@, self.database_url@),
            ),
    {
        let url = self.database_url.as_str();
        let captures = find_captures(DATABASE_URL_PATTERN, url);
        mask_with(url.as_bytes(), &captures)
    }
}

} // verus!
