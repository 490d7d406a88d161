//! The remote issue-tracking client's computable half: credentials become a
//! Basic authorization header, endpoint URLs are assembled from a trimmed
//! base, and outgoing worklog payloads follow the wire rules (an empty
//! comment omits the field; a non-empty one is wrapped in the structured
//! document format). The transport itself lives outside the library and is
//! handed these values.

use vstd::prelude::*;
use base64::Engine;
use crate::adf::{adf_text_of, wrap_comment, wrapped_comment_ok, AdfNode};
use crate::strutil::{dec_str_signed_of, i64_to_string};

verus! {

/// What base64's standard-alphabet engine with padding produces on a byte
/// sequence.
pub uninterp spec fn b64_std_of(bytes: Seq<u8>) -> Seq<char>;

/// Relies on base64's `Engine::encode` with the standard alphabet and
/// padding: the text depends on the bytes alone, four characters for
/// every started group of three bytes.
#[verifier::external_body]
fn b64_encode(bytes: &[u8]) -> (r: String)
    ensures
        r@ == b64_std_of(bytes@),
        r@.len() == 4 * ((bytes@.len() + 2) / 3),
{
    base64::engine::general_purpose::STANDARD.encode(bytes)
}

/// The authenticated account's identity.
#[derive(Debug)]
pub struct JiraUser {
    pub account_id: String,
    pub display_name: String,
    pub email_address: Option<String>,
}

/// An issue as the remote search endpoint returns it.
#[derive(Debug)]
pub struct JiraStatus {
    pub name: String,
}

#[derive(Debug)]
pub struct JiraIssueType {
    pub name: String,
}

#[derive(Debug)]
pub struct JiraProject {
    pub key: String,
}

#[derive(Debug)]
pub struct JiraIssueFields {
    pub summary: String,
    pub status: Option<JiraStatus>,
    pub issuetype: Option<JiraIssueType>,
    pub project: Option<JiraProject>,
}

#[derive(Debug)]
pub struct JiraIssueRaw {
    pub key: String,
    pub fields: JiraIssueFields,
}

#[derive(Debug)]
pub struct JiraSearchResponse {
    pub issues: Vec<JiraIssueRaw>,
}

/// An issue flattened for local use.
#[derive(Debug)]
pub struct JiraIssue {
    pub issue_key: String,
    pub summary: String,
    pub project_key: String,
    pub status: Option<String>,
    pub issue_type: Option<String>,
}

impl JiraIssue {
    /// Flatten a raw search hit: the project key falls back to empty, and
    /// status and type keep only their names.
    pub fn from(raw: JiraIssueRaw) -> (r: JiraIssue)
        ensures
            r.issue_key@ == raw.key@,
            r.summary@ == raw.fields.summary@,
            r.project_key@ == (match raw.fields.project {
                Some(p) => p.key@,
                None => Seq::<char>::empty(),
            }),
            r.status is Some <==> raw.fields.status is Some,
            r.status matches Some(st) ==> st@ == raw.fields.status->0.name@,
            r.issue_type is Some <==> raw.fields.issuetype is Some,
            r.issue_type matches Some(it) ==> it@ == raw.fields.issuetype->0.name@,
    {
        let project_key = match raw.fields.project {
            Some(p) => p.key,
            None => String::new(),
        };
        let status = match raw.fields.status {
            Some(st) => Some(st.name),
            None => None,
        };
        let issue_type = match raw.fields.issuetype {
            Some(it) => Some(it.name),
            None => None,
        };
        JiraIssue {
            issue_key: raw.key,
            summary: raw.fields.summary,
            project_key,
            status,
            issue_type,
        }
    }
}

/// The id the remote system assigns a created or updated worklog.
#[derive(Debug)]
pub struct JiraWorklogResponse {
    pub id: String,
}

/// The author of a remote worklog.
#[derive(Debug)]
pub struct JiraWorklogAuthor {
    pub account_id: String,
}

/// One worklog as the remote system returns it.
#[derive(Debug)]
pub struct JiraWorklogEntry {
    pub id: String,
    pub started: String,
    pub updated: String,
    pub time_spent_seconds: i64,
    pub comment: Option<AdfNode>,
    pub author: JiraWorklogAuthor,
}

/// A page of remote worklogs for one issue.
#[derive(Debug)]
pub struct JiraWorklogListResponse {
    pub worklogs: Vec<JiraWorklogEntry>,
}

/// A base URL with its trailing slashes removed.
pub open spec fn trimmed_slashes(s: Seq<char>) -> Seq<char>
    decreases s.len(),
{
    if s.len() > 0 && s[s.len() - 1] == '/' {
        trimmed_slashes(s.drop_last())
    } else {
        s
    }
}

/// Remove the trailing slashes of a base URL.
fn trim_slashes(s: &str) -> (r: String)
    ensures
        r@ == trimmed_slashes(s@),
{
    let mut end = s.unicode_len();
    proof {
        assert(s@.subrange(0, end as int) =~= s@);
    }
    loop
        invariant
            end <= s@.len(),
            trimmed_slashes(s@) == trimmed_slashes(s@.subrange(0, end as int)),
        ensures
            end <= s@.len(),
            trimmed_slashes(s@) == trimmed_slashes(s@.subrange(0, end as int)),
            end == 0 || s@[end - 1] != '/',
        decreases end,
    {
        if end == 0 {
            break;
        }
        if s.get_char(end - 1) != '/' {
            break;
        }
        proof {
            assert(s@.subrange(0, end as int).drop_last() =~= s@.subrange(0, end - 1));
        }
        end = end - 1;
    }
    let r = s.substring_char(0, end);
    proof {
        if end > 0 {
            assert(s@.subrange(0, end as int)[end - 1] != '/');
        }
    }
    String::from_str(r)
}

/// The computable half of the remote client: where to call and with what
/// authorization. The transport holding the connection lives outside.
#[derive(Debug)]
pub struct JiraClient {
    pub base_url: String,
    pub auth_header: String,
}

impl JiraClient {
    /// Build a client: the base URL loses its trailing slashes, and the
    /// credentials become a Basic authorization header over the base64 of
    /// `email:token`.
    pub fn new(base_url: &str, email: &str, api_token: &str) -> (r: JiraClient)
        ensures
            r.base_url@ == trimmed_slashes(base_url@),
            r.auth_header@ == "Basic "@ + b64_std_of(
                vstd::utf8::encode_utf8(email@ + ":"@ + api_token@),
            ),
    {
        let creds = String::from_str(email).concat(":").concat(api_token);
        proof {
            assert(creds@ =~= email@ + ":"@ + api_token@);
        }
        let encoded = b64_encode(creds.as_str().as_bytes());
        let auth_header = String::from_str("Basic ").concat(encoded.as_str());
        JiraClient { base_url: trim_slashes(base_url), auth_header }
    }

    /// The identity endpoint.
    pub fn myself_url(&self) -> (r: String)
        ensures
            r@ == self.base_url@ + "/rest/api/3/myself"@,
    {
        self.base_url.clone().concat("/rest/api/3/myself")
    }

    /// The issue-search endpoint.
    pub fn search_url(&self) -> (r: String)
        ensures
            r@ == self.base_url@ + "/rest/api/3/search/jql"@,
    {
        self.base_url.clone().concat("/rest/api/3/search/jql")
    }

    /// The worklog collection of an issue.
    pub fn worklog_url(&self, issue_key: &str) -> (r: String)
        ensures
            r@ == self.base_url@ + "/rest/api/3/issue/"@ + issue_key@ + "/worklog"@,
    {
        let r = self.base_url.clone().concat("/rest/api/3/issue/").concat(issue_key).concat(
            "/worklog",
        );
        proof {
            assert(r@ =~= self.base_url@ + "/rest/api/3/issue/"@ + issue_key@ + "/worklog"@);
        }
        r
    }

    /// One worklog of an issue.
    pub fn worklog_item_url(&self, issue_key: &str, worklog_id: &str) -> (r: String)
        ensures
            r@ == self.base_url@ + "/rest/api/3/issue/"@ + issue_key@ + "/worklog/"@
                + worklog_id@,
    {
        let r = self.base_url.clone().concat("/rest/api/3/issue/").concat(issue_key).concat(
            "/worklog/",
        ).concat(worklog_id);
        proof {
            assert(r@ =~= self.base_url@ + "/rest/api/3/issue/"@ + issue_key@ + "/worklog/"@
                + worklog_id@);
        }
        r
    }

    /// The worklog collection of an issue, optionally bounded below by an
    /// epoch-millisecond start instant to reduce payload size.
    pub fn worklogs_query_url(&self, issue_key: &str, started_after: Option<i64>) -> (r: String)
        requires
            started_after matches Some(ms) ==> ms > i64::MIN,
        ensures
            started_after is None ==> r@ == self.base_url@ + "/rest/api/3/issue/"@ + issue_key@
                + "/worklog"@,
            started_after matches Some(ms) ==> r@ == self.base_url@ + "/rest/api/3/issue/"@
                + issue_key@ + "/worklog"@ + "?startedAfter="@ + dec_str_signed_of(ms as int),
    {
        let base = self.worklog_url(issue_key);
        match started_after {
            None => base,
            Some(ms) => {
                let num = i64_to_string(ms);
                let r = base.concat("?startedAfter=").concat(num.as_str());
                proof {
                    assert(r@ =~= self.base_url@ + "/rest/api/3/issue/"@ + issue_key@
                        + "/worklog"@ + "?startedAfter="@ + dec_str_signed_of(ms as int));
                }
                r
            },
        }
    }
}

/// An outgoing worklog body: the seconds, the wire-format start instant,
/// and the comment document if there is a comment.
#[derive(Debug)]
pub struct WorklogPayload {
    pub time_spent_seconds: i64,
    pub started: String,
    pub comment: Option<AdfNode>,
}

/// Assemble an outgoing worklog body. An empty comment omits the comment
/// field entirely; a non-empty one is wrapped as a single-paragraph
/// single-text-run document whose extracted text is the comment itself.
pub fn worklog_payload(time_spent_seconds: i64, started: String, comment: String) -> (r:
    WorklogPayload)
    ensures
        r.time_spent_seconds == time_spent_seconds,
        r.started@ == started@,
        comment@.len() == 0 ==> r.comment is None,
        comment@.len() > 0 ==> (r.comment matches Some(c) && wrapped_comment_ok(c, comment@)
            && adf_text_of(c) == comment@),
{
    if comment.as_str().unicode_len() == 0 {
        WorklogPayload { time_spent_seconds, started, comment: None }
    } else {
        let doc = wrap_comment(comment);
        WorklogPayload { time_spent_seconds, started, comment: Some(doc) }
    }
}

} // verus!
