//! The revision-metadata side channel: a template data map is filled with
//! formatted strings supplied by the surrounding build tool's metadata
//! provider — a localized timestamp and the contributor, history, edit and
//! issue link markup.

use vstd::prelude::*;
use vstd::string::StringExecFns;

verus! {

#[verifier::external_type_specification]
#[verifier::external_body]
pub struct ExJsonValue(serde_json::Value);

#[verifier::external_type_specification]
#[verifier::external_body]
#[verifier::reject_recursive_types(K)]
#[verifier::reject_recursive_types(V)]
pub struct ExJsonMap<K, V>(serde_json::Map<K, V>);

/// The string-valued entries of a JSON object map: each key that holds a
/// string value, mapped to that string.
pub uninterp spec fn json_string_entries(m: serde_json::Map<String, serde_json::Value>) -> Map<
    Seq<char>,
    Seq<char>,
>;

/// Relies on `serde_json::Map::insert`: adds the entry for the key or
/// replaces the one that was there; with a string value, the string-entry
/// view afterwards is the old view with that key bound to that string.
#[verifier::external_body]
fn insert_string(data: &mut serde_json::Map<String, serde_json::Value>, key: &str, value: String)
    ensures
        json_string_entries(*final(data)) == json_string_entries(*old(data)).insert(key@, value@),
{
    data.insert(key.to_string(), serde_json::Value::String(value));
}

/// The formatted strings the revision-metadata provider hands over for one
/// document: the last-edit timestamp and the pieces of repository-link
/// markup, ready for the template.
pub struct GithubInfo {
    pub time: String,
    pub contributors: String,
    pub history: String,
    pub edit: String,
    pub view_issue: String,
    pub make_issue: String,
    pub view_in_github: String,
    pub view_in_github_mobile: String,
    pub make_issue_mobile: String,
    pub view_issue_mobile: String,
}

/// Fills the template data map from the provider's strings: every key gets
/// its markup unchanged, and the timestamp is prefixed by its label.
pub fn add_github_info(data: &mut serde_json::Map<String, serde_json::Value>, info: &GithubInfo)
    ensures
        json_string_entries(*final(data)) == json_string_entries(*old(data)).insert(
            "time"@,
            "최근 수정 시각: "@ + info.time@,
        ).insert("github_contributors"@, info.contributors@).insert(
            "github_history"@,
            info.history@,
        ).insert("github_edit"@, info.edit@).insert("github_view_issue"@, info.view_issue@).insert(
            "github_make_issue"@,
            info.make_issue@,
        ).insert("view_in_github"@, info.view_in_github@).insert(
            "view_in_github_mobile"@,
            info.view_in_github_mobile@,
        ).insert("github_make_issue_mobile"@, info.make_issue_mobile@).insert(
            "github_view_issue_mobile"@,
            info.view_issue_mobile@,
        ),
{
    let t = String::from_str("최근 수정 시각: ").concat(info.time.as_str());
    insert_string(data, "time", t);
    insert_string(data, "github_contributors", info.contributors.clone());
    insert_string(data, "github_history", info.history.clone());
    insert_string(data, "github_edit", info.edit.clone());
    insert_string(data, "github_view_issue", info.view_issue.clone());
    insert_string(data, "github_make_issue", info.make_issue.clone());
    insert_string(data, "view_in_github", info.view_in_github.clone());
    insert_string(data, "view_in_github_mobile", info.view_in_github_mobile.clone());
    insert_string(data, "github_make_issue_mobile", info.make_issue_mobile.clone());
    insert_string(data, "github_view_issue_mobile", info.view_issue_mobile.clone());
}

} // verus!
