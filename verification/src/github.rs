use vstd::prelude::*;
use vstd::string::StrSliceExecFns;

use crate::cache::Cache;
use crate::error::Error;
use crate::url_fetch::fetch_url;

verus! {

/// Owner metadata of a repository; nothing of it is read yet.
#[derive(Debug, Clone)]
pub struct GitHubOwner {
}

/// Repository metadata from the hosting API.
#[derive(Debug, Clone)]
pub struct GitHubRepoInfo {
    pub default_branch: String,
}

/// Branch metadata from the hosting API.
#[derive(Debug, Clone)]
pub struct GitHubBranchInfo {
    pub commit: GitHubCommit,
}

#[derive(Debug, Clone)]
pub struct GitHubCommit {
    pub sha: String,
    pub commit: GitHubCommitInfo,
}

#[derive(Debug, Clone)]
pub struct GitHubCommitInfo {
    pub author: GitHubCommitAuthor,
}

#[derive(Debug, Clone)]
pub struct GitHubCommitAuthor {
    /// The author timestamp, kept as the literal text the API sent.
    pub date: String,
}

/// What the repository-metadata decode makes of a body: the text of
/// its `default_branch` string member, or nothing when the body is
/// not JSON or lacks that member. A function of the bytes alone.
pub uninterp spec fn repo_default_branch_of(body: Seq<u8>) -> Option<Seq<char>>;

/// What the branch-metadata decode makes of a body: the head commit
/// id (`commit.sha`) and its author timestamp
/// (`commit.commit.author.date`), or nothing when the body does not
/// hold both as strings. A function of the bytes alone.
pub uninterp spec fn branch_head_of(body: Seq<u8>) -> Option<(Seq<char>, Seq<char>)>;

/// Relies on `serde_json::from_slice::<serde_json::Value>`,
/// `Value::get` and `Value::as_str`: the `default_branch` string
/// member of the parsed body, named by [`repo_default_branch_of`]
/// since JSON parsing takes pages to state.
#[verifier::external_body]
fn decode_repo_info(body: &Vec<u8>) -> (r: Option<String>)
    ensures
        r is Some <==> repo_default_branch_of(body@) is Some,
        r is Some ==> r.unwrap()@ == repo_default_branch_of(body@).unwrap(),
{
    let v: serde_json::Value = serde_json::from_slice(body.as_slice()).ok()?;
    Some(v.get("default_branch")?.as_str()?.to_owned())
}

/// Relies on `serde_json::from_slice::<serde_json::Value>`,
/// `Value::get` and `Value::as_str`: the head commit id and author
/// timestamp of the parsed body, named by [`branch_head_of`] since
/// JSON parsing takes pages to state.
#[verifier::external_body]
fn decode_branch_info(body: &Vec<u8>) -> (r: Option<(String, String)>)
    ensures
        r is Some <==> branch_head_of(body@) is Some,
        r is Some ==> ({
            let (sha, date) = branch_head_of(body@).unwrap();
            r.unwrap().0@ == sha && r.unwrap().1@ == date
        }),
{
    let v: serde_json::Value = serde_json::from_slice(body.as_slice()).ok()?;
    let commit = v.get("commit")?;
    let sha = commit.get("sha")?.as_str()?.to_owned();
    let date = commit.get("commit")?.get("author")?.get("date")?.as_str()?.to_owned();
    Some((sha, date))
}

/// A decode failure for the given URL.
fn decode_error(url: &String) -> (r: Error)
    ensures
        r matches Error::HttpRequestJson(u, _) && u@ == url@,
{
    Error::HttpRequestJson(url.clone(), "response did not match the expected shape".to_owned())
}

/// Decode the repository-metadata response: succeeds exactly when the
/// body decodes to a default-branch name, and then yields exactly that
/// name; otherwise the decode error carries the request URL.
pub fn parse_repo_info(body: &Vec<u8>, url: &String) -> (r: Result<GitHubRepoInfo, Error>)
    ensures
        r is Ok <==> repo_default_branch_of(body@) is Some,
        r is Ok ==> r.unwrap().default_branch@ == repo_default_branch_of(body@).unwrap(),
        r is Err ==> (r.unwrap_err() matches Error::HttpRequestJson(u, _) && u@ == url@),
{
    match decode_repo_info(body) {
        Option::Some(b) => Ok(GitHubRepoInfo { default_branch: b }),
        Option::None => Err(decode_error(url)),
    }
}

/// Decode the branch-metadata response: succeeds exactly when the body
/// decodes to a head commit id and author timestamp, and then yields
/// exactly those; otherwise the decode error carries the request URL.
pub fn parse_branch_info(body: &Vec<u8>, url: &String) -> (r: Result<GitHubBranchInfo, Error>)
    ensures
        r is Ok <==> branch_head_of(body@) is Some,
        r is Ok ==> ({
            let (sha, date) = branch_head_of(body@).unwrap();
            r.unwrap().commit.sha@ == sha && r.unwrap().commit.commit.author.date@ == date
        }),
        r is Err ==> (r.unwrap_err() matches Error::HttpRequestJson(u, _) && u@ == url@),
{
    match decode_branch_info(body) {
        Option::Some((sha, date)) => Ok(
            GitHubBranchInfo {
                commit: GitHubCommit {
                    sha,
                    commit: GitHubCommitInfo { author: GitHubCommitAuthor { date } },
                },
            },
        ),
        Option::None => Err(decode_error(url)),
    }
}

/// One repository of the hosting API, with the URL its calls go to and
/// the cache key they are stored under.
pub struct GitHubRepo {
    pub base_url: String,
    pub base_key: String,
}

impl GitHubRepo {
    /// Point at `owner/repo`.
    pub fn new(owner: &str, repo: &str) -> (r: GitHubRepo)
        ensures
            r.base_url@ == "https://api.github.com/repos/"@ + owner@ + "/"@ + repo@,
            r.base_key@ == "github-repo/"@ + owner@ + "/"@ + repo@,
    {
        let mut base_url = "https://api.github.com/repos/".to_owned();
        base_url.append(owner);
        base_url.append("/");
        base_url.append(repo);
        let mut base_key = "github-repo/".to_owned();
        base_key.append(owner);
        base_key.append("/");
        base_key.append(repo);
        GitHubRepo { base_url, base_key }
    }

    /// Repository metadata, cached for one hour under
    /// `<base_key>/info`: a fetched body is cached only when it
    /// decodes; on success the yielded default branch is exactly the
    /// decode of the body that the cache or the fetch produced.
    pub fn get_info(&self, cache: &mut Cache) -> (r: Result<GitHubRepoInfo, Error>)
        ensures
            r is Ok ==> exists|body: Seq<u8>|
                #[trigger] repo_default_branch_of(body) == Some(r.unwrap().default_branch@),
            r is Err ==> (r.unwrap_err() matches Error::CurlError(_) || r.unwrap_err()
                matches Error::HttpRequest(_, _) || r.unwrap_err() matches Error::HttpRequestJson(
                _,
                _,
            )),
    {
        let mut key = self.base_key.clone();
        key.append("/info");
        let url = self.base_url.clone();
        let u = url.clone();
        let compute = (move || -> (cr: Result<Vec<u8>, Error>)
            ensures
                cr is Err ==> (cr.unwrap_err() matches Error::CurlError(_) || cr.unwrap_err()
                    matches Error::HttpRequest(_, _) || cr.unwrap_err()
                    matches Error::HttpRequestJson(_, _)),
            {
                let b = fetch_url(&u)?;
                if decode_repo_info(&b).is_some() {
                    Ok(b)
                } else {
                    Err(decode_error(&u))
                }
            });
        let body = match cache.get_or_insert(key.as_str(), 60, compute) {
            Ok(b) => b,
            Err(e) => {
                return Err(e);
            },
        };
        let info = parse_repo_info(&body, &url)?;
        proof {
            assert(repo_default_branch_of(body@) == Some(info.default_branch@));
        }
        Ok(info)
    }

    /// Branch metadata, cached for one hour under
    /// `<base_key>/branches/<branch>/branch_info` (so two branches of
    /// one repository never share an entry): a fetched body is cached
    /// only when it decodes; on success the yielded commit id and
    /// author timestamp are exactly the decode of the body that the
    /// cache or the fetch produced.
    pub fn get_branch_info(&self, cache: &mut Cache, branch: &str) -> (r: Result<
        GitHubBranchInfo,
        Error,
    >)
        ensures
            r is Ok ==> exists|body: Seq<u8>|
                #[trigger] branch_head_of(body) == Some(
                    (r.unwrap().commit.sha@, r.unwrap().commit.commit.author.date@),
                ),
            r is Err ==> (r.unwrap_err() matches Error::CurlError(_) || r.unwrap_err()
                matches Error::HttpRequest(_, _) || r.unwrap_err() matches Error::HttpRequestJson(
                _,
                _,
            )),
    {
        let mut key = self.base_key.clone();
        key.append("/branches/");
        key.append(branch);
        key.append("/branch_info");
        let mut url = self.base_url.clone();
        url.append("/branches/");
        url.append(branch);
        let u = url.clone();
        let compute = (move || -> (cr: Result<Vec<u8>, Error>)
            ensures
                cr is Err ==> (cr.unwrap_err() matches Error::CurlError(_) || cr.unwrap_err()
                    matches Error::HttpRequest(_, _) || cr.unwrap_err()
                    matches Error::HttpRequestJson(_, _)),
            {
                let b = fetch_url(&u)?;
                if decode_branch_info(&b).is_some() {
                    Ok(b)
                } else {
                    Err(decode_error(&u))
                }
            });
        let body = match cache.get_or_insert(key.as_str(), 60, compute) {
            Ok(b) => b,
            Err(e) => {
                return Err(e);
            },
        };
        let info = parse_branch_info(&body, &url)?;
        proof {
            assert(branch_head_of(body@) == Some(
                (info.commit.sha@, info.commit.commit.author.date@),
            ));
        }
        Ok(info)
    }
}

} // verus!
