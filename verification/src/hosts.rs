//! The per-host README fetchers' decision logic: URL detection, the
//! owner/repo (or project, or model) extraction each host needs, and
//! the API URL each fetch targets.  The HTTP requests themselves happen
//! outside.

use vstd::prelude::*;
use vstd::string::*;

use crate::bytes::{
    append_bytes, contains_bytes, contains_spec, slice_to_vec_u8, split_byte, split_spec,
    starts_with, starts_with_spec, trim_trailing, trim_trailing_spec, views_of,
};

verus! {

/// A repository URL that does not have the shape a host's parser needs.
#[derive(Debug, Clone, Copy, PartialEq, Eq, Structural)]
pub struct UrlFormatError;

/// The slash-separated parts of a URL once trailing slashes are gone.
pub open spec fn url_parts(url: Seq<u8>) -> Seq<Seq<u8>> {
    split_spec(trim_trailing_spec(url, 47), 47)
}

/// The parts joined back with slashes.
pub open spec fn join_slash(parts: Seq<Seq<u8>>) -> Seq<u8>
    decreases parts.len(),
{
    if parts.len() == 0 {
        Seq::empty()
    } else if parts.len() == 1 {
        parts[0]
    } else {
        parts[0] + seq![47u8] + join_slash(parts.drop_first())
    }
}

/// The parts joined with a slash before each one.
pub open spec fn prefixed_join(parts: Seq<Seq<u8>>) -> Seq<u8> {
    if parts.len() == 0 {
        Seq::empty()
    } else {
        seq![47u8] + join_slash(parts)
    }
}

proof fn lemma_join_unfold(parts: Seq<Seq<u8>>)
    requires
        parts.len() > 0,
    ensures
        join_slash(parts) == parts[0] + prefixed_join(parts.drop_first()),
{
    if parts.len() == 1 {
        assert(parts.drop_first() =~= Seq::<Seq<u8>>::empty());
        assert(parts[0] + prefixed_join(parts.drop_first()) =~= parts[0]);
    } else {
        assert(parts[0] + (seq![47u8] + join_slash(parts.drop_first())) =~= parts[0] + seq![47u8]
            + join_slash(parts.drop_first()));
    }
}

/// Joins byte-vector parts with slashes, from index `from` on.
#[verifier::loop_isolation(false)]
fn join_parts(parts: &Vec<Vec<u8>>, from: usize) -> (r: Vec<u8>)
    requires
        from <= parts@.len(),
    ensures
        r@ == join_slash(views_of(parts@).skip(from as int)),
{
    let n = parts.len();
    let ghost pv = views_of(parts@);
    let mut r: Vec<u8> = Vec::new();
    if from >= n {
        proof {
            assert(pv.skip(from as int) =~= Seq::<Seq<u8>>::empty());
        }
        return r;
    }
    append_bytes(&mut r, parts[from].as_slice());
    let mut i: usize = from + 1;
    proof {
        let rest = pv.skip(from as int);
        assert(rest[0] == pv[from as int]);
        assert(rest.drop_first() =~= pv.skip(from + 1));
        lemma_join_unfold(rest);
        assert(r@ =~= pv[from as int]);
    }
    while i < n
        invariant
            from < i <= n,
            n == parts@.len(),
            pv == views_of(parts@),
            join_slash(pv.skip(from as int)) == r@ + prefixed_join(pv.skip(i as int)),
        decreases n - i,
    {
        let ghost r0 = r@;
        r.push(47);
        append_bytes(&mut r, parts[i].as_slice());
        proof {
            let rest = pv.skip(i as int);
            assert(rest[0] == pv[i as int]);
            assert(rest.drop_first() =~= pv.skip(i + 1));
            lemma_join_unfold(rest);
            assert(r@ =~= r0 + seq![47u8] + pv[i as int]);
            assert(prefixed_join(rest) == seq![47u8] + join_slash(rest));
            assert(join_slash(rest) == pv[i as int] + prefixed_join(pv.skip(i + 1)));
            assert(r0 + prefixed_join(rest) =~= r@ + prefixed_join(pv.skip(i + 1)));
            assert(join_slash(pv.skip(from as int)) == r@ + prefixed_join(pv.skip(i + 1)));
        }
        i += 1;
    }
    proof {
        assert(pv.skip(n as int) =~= Seq::<Seq<u8>>::empty());
        assert(r@ + prefixed_join(pv.skip(n as int)) =~= r@);
    }
    r
}

/// `b` is kept verbatim by percent encoding: an ASCII alphanumeric or
/// one of `-`, `.`, `_`, `~`.
pub open spec fn pct_safe(b: u8) -> bool {
    (48 <= b <= 57) || (65 <= b <= 90) || (97 <= b <= 122) || b == 45 || b == 46 || b == 95 || b
        == 126
}

pub open spec fn hex_digit_upper(d: u8) -> u8 {
    if d < 10 {
        (48 + d) as u8
    } else {
        (55 + d) as u8
    }
}

/// How percent encoding writes one byte: kept when safe, else a `%` and
/// two uppercase hex digits.
pub open spec fn pct_byte(b: u8) -> Seq<u8> {
    if pct_safe(b) {
        seq![b]
    } else {
        seq![37u8, hex_digit_upper(b / 16), hex_digit_upper(b % 16)]
    }
}

/// The percent encoding of a byte string.
pub open spec fn percent_encoded(s: Seq<u8>) -> Seq<u8>
    decreases s.len(),
{
    if s.len() == 0 {
        Seq::empty()
    } else {
        percent_encoded(s.drop_last()) + pct_byte(s.last())
    }
}

/// Relies on urlencoding's `encode_binary`: it percent-encodes every
/// byte except ASCII alphanumerics and `-`, `.`, `_`, `~`, writing two
/// uppercase hex digits after `%`.
#[verifier::external_body]
fn percent_encode(v: &[u8]) -> (r: Vec<u8>)
    ensures
        r@ == percent_encoded(v@),
{
    urlencoding::encode_binary(v).into_owned().into_bytes()
}

/// The GitHub fetcher.
#[derive(Debug)]
pub struct GitHubProvider;

impl GitHubProvider {
    /// Whether this fetcher handles the URL: a github.com page over
    /// http or https.
    pub fn detect(url: &[u8]) -> (r: bool)
        ensures
            r == (starts_with_spec(url@, "https://github.com/".spec_bytes()) || starts_with_spec(
                url@,
                "http://github.com/".spec_bytes(),
            )),
    {
        starts_with(url, "https://github.com/".as_bytes()) || starts_with(
            url,
            "http://github.com/".as_bytes(),
        )
    }

    pub fn name(&self) -> (r: &'static str)
        ensures
            r@ == "github"@,
    {
        "github"
    }
}

/// The owner/repo part of a GitHub URL.
pub fn parse_github_url(url: &[u8]) -> (r: Result<Vec<u8>, UrlFormatError>)
    ensures
        (match r {
            Ok(v) => Some(v@),
            Err(_) => None,
        }) == crate::strategy::repo_path_of(url@),
{
    match crate::strategy::extract_repo_path(url) {
        Some(v) => Ok(v),
        None => Err(UrlFormatError),
    }
}

/// The GitHub API URL whose body is the README of `repo`.
pub fn github_api_url(repo: &[u8]) -> (r: Vec<u8>)
    ensures
        r@ == "https://api.github.com/repos/".spec_bytes() + repo@ + "/readme".spec_bytes(),
{
    let mut r = "https://api.github.com/repos/".as_bytes_vec();
    append_bytes(&mut r, repo);
    append_bytes(&mut r, "/readme".as_bytes());
    r
}

/// The GitLab fetcher.
#[derive(Debug)]
pub struct GitLabProvider;

impl GitLabProvider {
    /// Whether this fetcher handles the URL: it mentions gitlab.
    pub fn detect(url: &[u8]) -> (r: bool)
        ensures
            r == contains_spec(url@, "gitlab".spec_bytes()),
    {
        contains_bytes(url, "gitlab".as_bytes())
    }

    pub fn name(&self) -> (r: &'static str)
        ensures
            r@ == "gitlab"@,
    {
        "gitlab"
    }
}

/// The scheme-and-host base and the percent-encoded project path of a
/// GitLab URL.
pub fn parse_gitlab_url(url: &[u8]) -> (r: Result<(Vec<u8>, Vec<u8>), UrlFormatError>)
    ensures
        ({
            let parts = url_parts(url@);
            match r {
                Ok(p) => parts.len() >= 5 && p.0@ == parts[0] + "//".spec_bytes() + parts[2]
                    && p.1@ == percent_encoded(join_slash(parts.skip(3))),
                Err(_) => parts.len() < 5,
            }
        }),
{
    let t = trim_trailing(url, 47);
    let parts = split_byte(t.as_slice(), 47);
    if parts.len() < 5 {
        return Err(UrlFormatError);
    }
    let mut base = slice_to_vec_u8(parts[0].as_slice());
    append_bytes(&mut base, "//".as_bytes());
    append_bytes(&mut base, parts[2].as_slice());
    let project_path = join_parts(&parts, 3);
    let encoded = percent_encode(project_path.as_slice());
    proof {
        let pv = views_of(parts@);
        assert(pv[0] == parts@[0]@ && pv[2] == parts@[2]@);
        assert(base@ =~= pv[0] + "//".spec_bytes() + pv[2]);
    }
    Ok((base, encoded))
}

/// The GitLab API URL whose body is the raw README of the project.
pub fn gitlab_api_url(base: &[u8], project_id: &[u8]) -> (r: Vec<u8>)
    ensures
        r@ == base@ + "/api/v4/projects/".spec_bytes() + project_id@
            + "/repository/files/README.md/raw".spec_bytes(),
{
    let mut r = slice_to_vec_u8(base);
    append_bytes(&mut r, "/api/v4/projects/".as_bytes());
    append_bytes(&mut r, project_id);
    append_bytes(&mut r, "/repository/files/README.md/raw".as_bytes());
    r
}

/// The HuggingFace fetcher.
#[derive(Debug)]
pub struct HuggingFaceProvider;

impl HuggingFaceProvider {
    /// Whether this fetcher handles the URL: it mentions huggingface.co.
    pub fn detect(url: &[u8]) -> (r: bool)
        ensures
            r == contains_spec(url@, "huggingface.co".spec_bytes()),
    {
        contains_bytes(url, "huggingface.co".as_bytes())
    }

    /// The request budget this host gets, in requests per second.
    pub fn rate_limit(&self) -> (r: u32)
        ensures
            r == 60,
    {
        60
    }
}

/// The model identifier of a HuggingFace URL: every part after the
/// host and kind, joined back with slashes.
pub fn parse_huggingface_url(url: &[u8]) -> (r: Result<Vec<u8>, UrlFormatError>)
    ensures
        ({
            let parts = url_parts(url@);
            match r {
                Ok(v) => parts.len() >= 5 && v@ == join_slash(parts.skip(4)),
                Err(_) => parts.len() < 5,
            }
        }),
{
    let t = trim_trailing(url, 47);
    let parts = split_byte(t.as_slice(), 47);
    if parts.len() < 5 {
        return Err(UrlFormatError);
    }
    Ok(join_parts(&parts, 4))
}

/// The HuggingFace API URL whose body is the raw README of the model.
pub fn huggingface_api_url(model_id: &[u8]) -> (r: Vec<u8>)
    ensures
        r@ == "https://huggingface.co/api/models/".spec_bytes() + model_id@
            + "/raw/README.md".spec_bytes(),
{
    let mut r = "https://huggingface.co/api/models/".as_bytes_vec();
    append_bytes(&mut r, model_id);
    append_bytes(&mut r, "/raw/README.md".as_bytes());
    r
}

/// The Codeberg fetcher.
#[derive(Debug)]
pub struct CodebergProvider;

impl CodebergProvider {
    /// Whether this fetcher handles the URL: it mentions codeberg.org.
    pub fn detect(url: &[u8]) -> (r: bool)
        ensures
            r == contains_spec(url@, "codeberg.org".spec_bytes()),
    {
        contains_bytes(url, "codeberg.org".as_bytes())
    }

    pub fn name(&self) -> (r: &'static str)
        ensures
            r@ == "codeberg"@,
    {
        "codeberg"
    }
}

/// The owner and repository name of a Codeberg URL.
pub fn parse_codeberg_url(url: &[u8]) -> (r: Result<(Vec<u8>, Vec<u8>), UrlFormatError>)
    ensures
        ({
            let parts = url_parts(url@);
            match r {
                Ok(p) => parts.len() >= 5 && p.0@ == parts[3] && p.1@ == parts[4],
                Err(_) => parts.len() < 5,
            }
        }),
{
    let t = trim_trailing(url, 47);
    let parts = split_byte(t.as_slice(), 47);
    if parts.len() < 5 {
        return Err(UrlFormatError);
    }
    let owner = slice_to_vec_u8(parts[3].as_slice());
    let repo = slice_to_vec_u8(parts[4].as_slice());
    proof {
        let pv = views_of(parts@);
        assert(pv[3] == parts@[3]@ && pv[4] == parts@[4]@);
    }
    Ok((owner, repo))
}

/// The Codeberg API URL whose body is the README of `owner/repo`.
pub fn codeberg_api_url(owner: &[u8], repo: &[u8]) -> (r: Vec<u8>)
    ensures
        r@ == "https://codeberg.org/api/v1/repos/".spec_bytes() + owner@ + seq![47u8] + repo@
            + "/readme".spec_bytes(),
{
    let mut r = "https://codeberg.org/api/v1/repos/".as_bytes_vec();
    append_bytes(&mut r, owner);
    r.push(47);
    append_bytes(&mut r, repo);
    append_bytes(&mut r, "/readme".as_bytes());
    r
}

} // verus!
