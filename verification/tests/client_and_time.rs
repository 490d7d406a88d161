use worklog_sync::adf::{extract_adf_text, wrap_comment, AdfNode};
use worklog_sync::client::{worklog_payload, JiraClient, JiraIssue, JiraIssueFields, JiraIssueRaw, JiraProject, JiraStatus};
use worklog_sync::errors::SyncError;
use worklog_sync::timefmt::{format_for_jira, local_rfc3339, parse_rfc3339_ms, parse_wire_ms, utc_rfc3339};

#[test]
fn auth_header_is_base64_of_credentials() {
    let c = JiraClient::new("https://example.atlassian.net///", "a", "b");
    assert_eq!(c.base_url.as_str(), "https://example.atlassian.net");
    assert_eq!(c.auth_header.as_str(), "Basic YTpi");
}

#[test]
fn endpoint_urls() {
    let c = JiraClient::new("https://x.example", "a", "b");
    assert_eq!(c.myself_url().as_str(), "https://x.example/rest/api/3/myself");
    assert_eq!(c.search_url().as_str(), "https://x.example/rest/api/3/search/jql");
    assert_eq!(
        c.worklog_url("OPS-12").as_str(),
        "https://x.example/rest/api/3/issue/OPS-12/worklog"
    );
    assert_eq!(
        c.worklog_item_url("OPS-12", "10042").as_str(),
        "https://x.example/rest/api/3/issue/OPS-12/worklog/10042"
    );
    assert_eq!(
        c.worklogs_query_url("OPS-12", Some(1709164800000)).as_str(),
        "https://x.example/rest/api/3/issue/OPS-12/worklog?startedAfter=1709164800000"
    );
    assert_eq!(
        c.worklogs_query_url("OPS-12", None).as_str(),
        "https://x.example/rest/api/3/issue/OPS-12/worklog"
    );
}

#[test]
fn issue_flattening() {
    let raw = JiraIssueRaw {
        key: String::from("OPS-12"),
        fields: JiraIssueFields {
            summary: String::from("Fix the thing"),
            status: Some(JiraStatus { name: String::from("In Progress") }),
            issuetype: None,
            project: Some(JiraProject { key: String::from("OPS") }),
        },
    };
    let i = JiraIssue::from(raw);
    assert_eq!(i.issue_key.as_str(), "OPS-12");
    assert_eq!(i.summary.as_str(), "Fix the thing");
    assert_eq!(i.project_key.as_str(), "OPS");
    assert_eq!(i.status.as_deref(), Some("In Progress"));
    assert!(i.issue_type.is_none());
}

#[test]
fn wire_timestamp_formatting() {
    let w = format_for_jira("2024-03-01T09:00:00-05:00").unwrap();
    assert_eq!(w.as_str(), "2024-03-01T09:00:00.000-0500");
    let w2 = format_for_jira("2024-03-01T09:00:00.250+00:00").unwrap();
    assert_eq!(w2.as_str(), "2024-03-01T09:00:00.250+0000");
    assert_eq!(format_for_jira("not a time"), Err(SyncError::InvalidTimestamp));
}

#[test]
fn timestamp_parsing_round_trips() {
    let (ms, off) = parse_rfc3339_ms("2024-03-01T09:00:00-05:00").unwrap();
    assert_eq!(ms, 1709301600000);
    assert_eq!(off, -5 * 3600);
    assert!(parse_rfc3339_ms("garbage").is_none());
    let (wms, woff) = parse_wire_ms("2024-03-01T09:00:00.000-0500").unwrap();
    assert_eq!(wms, ms);
    assert_eq!(woff, off);
    assert!(parse_wire_ms("2024-03-01").is_none());
    let u = utc_rfc3339(1709301600000);
    let (bms, boff) = parse_rfc3339_ms(u.as_str()).unwrap();
    assert_eq!(bms, 1709301600000);
    assert_eq!(boff, 0);
    let l = local_rfc3339(1709301600000);
    let (lms, _loff) = parse_rfc3339_ms(l.as_str()).unwrap();
    assert_eq!(lms, 1709301600000);
}

#[test]
fn comment_documents() {
    let doc = wrap_comment(String::from("worked on the fix"));
    assert_eq!(extract_adf_text(&doc).as_str(), "worked on the fix");
    match &doc {
        AdfNode::Branch { kind, children } => {
            assert_eq!(kind.as_str(), "doc");
            assert_eq!(children.len(), 1);
        }
        _ => panic!("expected a document branch"),
    }
    let nested = AdfNode::Branch {
        kind: String::from("doc"),
        children: vec![
            AdfNode::Branch {
                kind: String::from("paragraph"),
                children: vec![
                    AdfNode::Text(String::from("one ")),
                    AdfNode::Branch { kind: String::from("mention"), children: vec![] },
                    AdfNode::Text(String::from("two")),
                ],
            },
            AdfNode::Branch {
                kind: String::from("rule"),
                children: vec![AdfNode::Text(String::from(" three"))],
            },
        ],
    };
    assert_eq!(extract_adf_text(&nested).as_str(), "one two three");
}

#[test]
fn payload_comment_rule() {
    let p = worklog_payload(1500, String::from("2024-03-01T09:00:00.000-0500"), String::new());
    assert!(p.comment.is_none());
    assert_eq!(p.time_spent_seconds, 1500);
    let p2 = worklog_payload(60, String::from("x"), String::from("note"));
    match p2.comment {
        Some(doc) => assert_eq!(extract_adf_text(&doc).as_str(), "note"),
        None => panic!("expected a wrapped comment"),
    }
}
